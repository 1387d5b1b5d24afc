use vstd::prelude::*;
use vstd::string::*;

use crate::account::{account_ref_layout, account_ref_text, AccountRef, AccountRefModel};
use crate::encode::{le_u64, put, str_layout, Encode, EncodeError, Primitive};
use crate::pretty::{cents_text, pretty_print_cents};

verus! {

/// A movement of money from one account to another.
#[derive(Debug)]
pub struct Transaction {
    pub from: AccountRef,
    pub to: AccountRef,
    pub description: String,
    pub amount_cents: u64,
}

/// The mathematical value of a `Transaction`.
pub struct TransactionModel {
    pub from: AccountRefModel,
    pub to: AccountRefModel,
    pub description: Seq<char>,
    pub amount_cents: u64,
}

impl View for Transaction {
    type V = TransactionModel;

    open spec fn view(&self) -> TransactionModel {
        TransactionModel {
            from: self.from@,
            to: self.to@,
            description: self.description@,
            amount_cents: self.amount_cents,
        }
    }
}

impl Clone for Transaction {
    fn clone(&self) -> (r: Self)
        ensures
            r == *self,
    {
        Transaction {
            from: self.from.clone(),
            to: self.to.clone(),
            description: self.description.clone(),
            amount_cents: self.amount_cents,
        }
    }
}

/// The text a transaction is displayed as: `[amount from->to]`.
pub open spec fn transaction_text(t: TransactionModel) -> Seq<char> {
    seq!['['] + cents_text(t.amount_cents) + seq![' '] + account_ref_text(t.from) + seq!['-', '>']
        + account_ref_text(t.to) + seq![']']
}

/// The layout of a transaction: source, destination, description, amount.
pub open spec fn transaction_layout(t: TransactionModel) -> Seq<u8> {
    account_ref_layout(t.from) + account_ref_layout(t.to) + str_layout(t.description) + le_u64(
        t.amount_cents,
    )
}

impl Transaction {
    pub fn to_string(&self) -> (r: String)
        ensures
            r@ == transaction_text(self@),
    {
        let mut s = String::from_str("[");
        let amount = pretty_print_cents(self.amount_cents);
        s.append(amount.as_str());
        s.append(" ");
        let from = self.from.to_string();
        s.append(from.as_str());
        s.append("->");
        let to = self.to.to_string();
        s.append(to.as_str());
        s.append("]");
        proof {
            reveal_strlit("[");
            reveal_strlit(" ");
            reveal_strlit("->");
            reveal_strlit("]");
        }
        assert(s@ =~= transaction_text(self@));
        s
    }
}

impl Encode for Transaction {
    open spec fn layout(&self) -> Seq<u8> {
        transaction_layout(self@)
    }

    fn encode_into(&self, out: &mut Vec<u8>) -> (r: Result<(), EncodeError>) {
        self.from.encode_into(out)?;
        self.to.encode_into(out)?;
        put(out, Primitive::Str(self.description.as_str()))?;
        put(out, Primitive::U64(self.amount_cents))?;
        assert(out@ =~= old(out)@ + self.layout());
        Ok(())
    }
}

} // verus!
