use vstd::prelude::*;

use crate::bank::Bank;
use crate::signature::LedgerSignature;

verus! {

/// A request to record a new state of a bank, signed by the bank.
#[derive(Debug)]
pub struct RequestUpdateBank {
    pub signature: LedgerSignature,
    pub bank: Bank,
}

} // verus!
