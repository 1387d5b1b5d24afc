use vstd::prelude::*;

use crate::ledger_type::LedgerEntry as LedgerType;

verus! {

/// An entry together with a number that identifies it.
#[derive(Debug)]
pub struct LedgerEntry {
    pub id: u64,
    pub entry: LedgerType,
}

} // verus!
