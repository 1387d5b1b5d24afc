use vstd::prelude::*;
use vstd::string::*;

use crate::account::AccountType;
use crate::bank_id::BankId;
use crate::pretty::{decimal, u64_to_string};

verus! {

/// The answer to a request to move money.
#[derive(Debug)]
pub enum ResponseTransfer {
    InvalidBank { bank_id: BankId },
    InvalidSignature,
    InvalidAccount { bank_id: BankId, account: AccountType },
    InsufficientFunds { requested: u64, available: u64, bank_id: BankId, account: AccountType },
    Transferred,
}

/// A bank and the kind of an account, as an answer displays them.
pub open spec fn bank_account_text(bank_id: Seq<char>, account: AccountType) -> Seq<char> {
    seq!['('] + seq!['('] + bank_id + seq![')'] + seq![')'] + seq!['['] + account.label() + seq![']']
}

impl ResponseTransfer {
    /// The text the answer is displayed as.
    pub open spec fn text(&self) -> Seq<char> {
        match self {
            ResponseTransfer::InvalidBank { bank_id } => "ResponseTransfer::InvalidBank ("@
                + seq!['('] + bank_id@ + seq![')'] + seq![')'],
            ResponseTransfer::InvalidSignature => "ResponseTransfer::InvalidSignature"@,
            ResponseTransfer::InvalidAccount { bank_id, account } =>
                "ResponseTransfer::InvalidAccount "@ + bank_account_text(bank_id@, *account),
            ResponseTransfer::InsufficientFunds { requested, available, bank_id, account } =>
                "ResponseTransfer::InsufficientFunds "@ + bank_account_text(bank_id@, *account)
                + seq![' '] + decimal(*requested as nat) + " vs "@ + decimal(*available as nat),
            ResponseTransfer::Transferred => "ResponseTransfer::Transferred"@,
        }
    }

    pub fn to_string(&self) -> (r: String)
        ensures
            r@ == self.text(),
    {
        proof {
            reveal_strlit("(");
            reveal_strlit(")");
            reveal_strlit("[");
            reveal_strlit("]");
            reveal_strlit(" ");
        }
        match self {
            ResponseTransfer::InvalidBank { bank_id } => {
                let mut s = String::from_str("ResponseTransfer::InvalidBank (");
                let b = bank_id.to_string();
                s.append(b.as_str());
                s.append(")");
                assert(s@ =~= self.text());
                s
            },
            ResponseTransfer::InvalidSignature => String::from_str(
                "ResponseTransfer::InvalidSignature",
            ),
            ResponseTransfer::InvalidAccount { bank_id, account } => {
                let mut s = String::from_str("ResponseTransfer::InvalidAccount ");
                let b = bank_id.to_string();
                s.append("(");
                s.append(b.as_str());
                s.append(")[");
                let a = account.to_string();
                s.append(a.as_str());
                s.append("]");
                proof {
                    reveal_strlit(")[");
                }
                assert(s@ =~= self.text());
                s
            },
            ResponseTransfer::InsufficientFunds { requested, available, bank_id, account } => {
                let mut s = String::from_str("ResponseTransfer::InsufficientFunds ");
                let b = bank_id.to_string();
                s.append("(");
                s.append(b.as_str());
                s.append(")[");
                let a = account.to_string();
                s.append(a.as_str());
                s.append("] ");
                let q = u64_to_string(*requested);
                s.append(q.as_str());
                s.append(" vs ");
                let v = u64_to_string(*available);
                s.append(v.as_str());
                proof {
                    reveal_strlit(")[");
                    reveal_strlit("] ");
                }
                assert(s@ =~= self.text());
                s
            },
            ResponseTransfer::Transferred => String::from_str("ResponseTransfer::Transferred"),
        }
    }
}

} // verus!
