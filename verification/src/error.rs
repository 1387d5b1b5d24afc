use vstd::prelude::*;
use vstd::string::*;

verus! {

/// Why the ledger refused to record an entry.
#[derive(Debug, Clone, Copy, PartialEq, Eq, Structural)]
pub enum LedgerError {
    /// No ledger is kept for the bank.
    UnknownBank,
    /// The signature given is not the bank's signature of the entry.
    InvalidBankSignature,
}

impl LedgerError {
    /// The message the error is reported with.
    pub open spec fn message(self) -> Seq<char> {
        match self {
            LedgerError::UnknownBank => "The bank is unknown to this ledger"@,
            LedgerError::InvalidBankSignature => "Invalid bank signature"@,
        }
    }

    pub fn to_string(&self) -> (r: String)
        ensures
            r@ == self.message(),
    {
        match self {
            LedgerError::UnknownBank => String::from_str("The bank is unknown to this ledger"),
            LedgerError::InvalidBankSignature => String::from_str("Invalid bank signature"),
        }
    }
}

} // verus!
