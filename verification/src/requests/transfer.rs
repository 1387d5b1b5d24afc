use vstd::prelude::*;

use crate::signature::LedgerSignature;
use crate::transaction::Transaction;

verus! {

/// A request to move money, signed by the sending bank.
#[derive(Debug)]
pub struct RequestTransfer {
    pub signature: LedgerSignature,
    pub trans: Transaction,
}

} // verus!
