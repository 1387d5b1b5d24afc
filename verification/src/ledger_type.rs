use vstd::prelude::*;
use vstd::string::*;

use crate::bank::{bank_layout, Bank, BankModel};
use crate::encode::{le_u32, put, Encode, EncodeError, Primitive};
use crate::secret::{secret_layout, LedgerSecret};
use crate::transaction::{transaction_layout, transaction_text, Transaction, TransactionModel};

verus! {

/// What a ledger records.
#[derive(Debug)]
pub enum LedgerEntry {
    NewBank { bank_secret: LedgerSecret, bank: Bank },
    UpdateBank(Bank),
    Transaction { transaction: Transaction },
}

/// The mathematical value of a `LedgerEntry`.
pub enum EntryModel {
    NewBank { bank_secret: (Seq<u8>, Seq<u8>, Seq<u8>, Seq<u8>), bank: BankModel },
    UpdateBank(BankModel),
    Transaction { transaction: TransactionModel },
}

impl View for LedgerEntry {
    type V = EntryModel;

    open spec fn view(&self) -> EntryModel {
        match self {
            LedgerEntry::NewBank { bank_secret, bank } => EntryModel::NewBank {
                bank_secret: bank_secret@,
                bank: bank@,
            },
            LedgerEntry::UpdateBank(bank) => EntryModel::UpdateBank(bank@),
            LedgerEntry::Transaction { transaction } => EntryModel::Transaction {
                transaction: transaction@,
            },
        }
    }
}

impl Clone for LedgerEntry {
    fn clone(&self) -> (r: Self)
        ensures
            r@ == self@,
    {
        match self {
            LedgerEntry::NewBank { bank_secret, bank } => LedgerEntry::NewBank {
                bank_secret: *bank_secret,
                bank: bank.clone(),
            },
            LedgerEntry::UpdateBank(bank) => LedgerEntry::UpdateBank(bank.clone()),
            LedgerEntry::Transaction { transaction } => LedgerEntry::Transaction {
                transaction: transaction.clone(),
            },
        }
    }
}

/// The text an entry is displayed as.
pub open spec fn entry_text(e: EntryModel) -> Seq<char> {
    match e {
        EntryModel::NewBank { bank, .. } => "LedgerEntry::NewBank ("@ + seq!['('] + bank.owner
            + seq![')'] + seq![')'],
        EntryModel::UpdateBank(bank) => "LedgerEntry::UpdateBank ("@ + seq!['('] + bank.owner
            + seq![')'] + seq![')'],
        EntryModel::Transaction { transaction } => "LedgerEntry::Transaction ("@
            + transaction_text(transaction) + seq![')'],
    }
}

/// The layout of an entry: the variant's position as a `u32`, then its fields.
pub open spec fn entry_layout(e: EntryModel) -> Seq<u8> {
    match e {
        EntryModel::NewBank { bank_secret, bank } => le_u32(0) + secret_layout(bank_secret)
            + bank_layout(bank),
        EntryModel::UpdateBank(bank) => le_u32(1) + bank_layout(bank),
        EntryModel::Transaction { transaction } => le_u32(2) + transaction_layout(transaction),
    }
}

impl LedgerEntry {
    pub fn to_string(&self) -> (r: String)
        ensures
            r@ == entry_text(self@),
    {
        let mut s = match self {
            LedgerEntry::NewBank { bank, .. } => {
                let mut s = String::from_str("LedgerEntry::NewBank (");
                let o = bank.owner.to_string();
                s.append(o.as_str());
                s
            },
            LedgerEntry::UpdateBank(bank) => {
                let mut s = String::from_str("LedgerEntry::UpdateBank (");
                let o = bank.owner.to_string();
                s.append(o.as_str());
                s
            },
            LedgerEntry::Transaction { transaction } => {
                let mut s = String::from_str("LedgerEntry::Transaction (");
                let t = transaction.to_string();
                s.append(t.as_str());
                s
            },
        };
        s.append(")");
        proof {
            reveal_strlit(")");
        }
        assert(s@ =~= entry_text(self@));
        s
    }
}

impl Encode for LedgerEntry {
    open spec fn layout(&self) -> Seq<u8> {
        entry_layout(self@)
    }

    fn encode_into(&self, out: &mut Vec<u8>) -> (r: Result<(), EncodeError>) {
        match self {
            LedgerEntry::NewBank { bank_secret, bank } => {
                put(out, Primitive::U32(0))?;
                bank_secret.encode_into(out)?;
                bank.encode_into(out)?;
            },
            LedgerEntry::UpdateBank(bank) => {
                put(out, Primitive::U32(1))?;
                bank.encode_into(out)?;
            },
            LedgerEntry::Transaction { transaction } => {
                put(out, Primitive::U32(2))?;
                transaction.encode_into(out)?;
            },
        }
        assert(out@ =~= old(out)@ + self.layout());
        Ok(())
    }
}

} // verus!
