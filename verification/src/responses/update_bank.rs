use vstd::prelude::*;

use crate::bank::Bank;
use crate::bank_id::BankId;

verus! {

/// The answer to a request to record a new state of a bank.
#[derive(Debug)]
pub enum ResponseUpdatedBank {
    InvalidBank { bank_id: BankId },
    InvalidUpdate { err_msg: String },
    Updated { bank: Bank },
}

} // verus!
