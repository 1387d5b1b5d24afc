use vstd::prelude::*;

use crate::ledger_type::LedgerEntry;

verus! {

/// A numbered, signed position in a journal.
#[derive(Debug, Clone, Copy, PartialEq, Eq, Structural, Hash)]
pub struct LedgerHeader {
    pub id: u64,
    pub signature: u64,
}

impl LedgerHeader {
    /// The header before any entry.
    pub fn zero() -> (r: LedgerHeader)
        ensures
            r.id == 0 && r.signature == 0,
    {
        LedgerHeader { id: 0, signature: 0 }
    }
}

/// An entry under its header.
#[derive(Debug)]
pub struct LedgerMessage {
    pub header: LedgerHeader,
    pub entry: LedgerEntry,
}

} // verus!
