use vstd::prelude::*;

use crate::bank_id::BankId;
use crate::password_hash::PasswordHash;

verus! {

/// A request for a copy of a bank's ledger, proved by the bank's password.
#[derive(Debug)]
pub struct RequestCopyBank {
    pub password: PasswordHash,
    pub bank: BankId,
}

} // verus!
