use vstd::prelude::*;

use crate::error::LedgerError;
use crate::ledger::{latest_bank, lookup, Ledger};
use crate::requests::copy_bank::RequestCopyBank;
use crate::responses::copy_bank::{Copied, ResponseCopyBank};
use crate::state::{message_views, messages_of};

verus! {

impl Ledger {
    /// A copy of a bank's ledger, its secret and its messages, for whoever knows
    /// the bank's latest password.
    pub fn copy_bank(&mut self, req: RequestCopyBank) -> (r: Result<ResponseCopyBank, LedgerError>)
        ensures
            final(self)@ == old(self)@,
            match lookup(old(self)@, req.bank@) {
                Some(l) => match latest_bank(l.entries) {
                    Some(b) => if b.password == req.password@ {
                        r matches Ok(ResponseCopyBank::Copied(c)) && c.bank_secret@ == l.bank_secret
                            && message_views(c.entries@) == messages_of(l)
                    } else {
                        r matches Ok(ResponseCopyBank::Denied { err_msg }) && err_msg@
                            == "Invalid password."@
                    },
                    None => r matches Ok(ResponseCopyBank::DoesNotExist { bank_id }) && bank_id@
                        == req.bank@,
                },
                None => r matches Ok(ResponseCopyBank::DoesNotExist { bank_id }) && bank_id@
                    == req.bank@,
            },
    {
        let bank_id = req.bank;
        let ledger = match self.ledger_for(bank_id.clone()) {
            Some(b) => b,
            None => {
                return Ok(ResponseCopyBank::DoesNotExist { bank_id });
            },
        };
        let bank = match ledger.bank() {
            Some(b) => b,
            None => {
                return Ok(ResponseCopyBank::DoesNotExist { bank_id });
            },
        };
        if bank.password != req.password {
            return Ok(ResponseCopyBank::Denied { err_msg: String::from_str("Invalid password.") });
        }
        let entries = ledger.messages();
        Ok(ResponseCopyBank::Copied(Copied { bank_secret: ledger.bank_secret, entries }))
    }
}

} // verus!
