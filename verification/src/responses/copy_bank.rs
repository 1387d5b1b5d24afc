use vstd::prelude::*;

use crate::bank_id::BankId;
use crate::ledger::LedgerMessage;
use crate::secret::LedgerSecret;

verus! {

/// A copy of a bank's ledger: the bank's secret and its messages in order.
#[derive(Debug)]
pub struct Copied {
    pub bank_secret: LedgerSecret,
    pub entries: Vec<LedgerMessage>,
}

/// The answer to a request for a copy of a bank's ledger.
#[derive(Debug)]
pub enum ResponseCopyBank {
    Copied(Copied),
    Denied { err_msg: String },
    DoesNotExist { bank_id: BankId },
}

} // verus!
