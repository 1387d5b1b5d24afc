use vstd::prelude::*;

use crate::ledger::Ledger;
use crate::ledger_entry::LedgerEntry;
use crate::ledger_type::LedgerEntry as LedgerType;
use crate::random::random_u64;

verus! {

impl Ledger {
    /// An entry under a random identifier.
    pub fn new_entry(entry: LedgerType) -> (r: LedgerEntry)
        ensures
            r.entry == entry,
    {
        LedgerEntry { id: random_u64(), entry }
    }
}

} // verus!
