use vstd::prelude::*;

use crate::bank::Bank;
use crate::secret::LedgerSecret;

verus! {

/// A request to open a bank whose entries will be signed with `secret`.
#[derive(Debug)]
pub struct RequestNewBank {
    pub secret: LedgerSecret,
    pub bank: Bank,
}

} // verus!
