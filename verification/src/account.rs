use vstd::prelude::*;
use vstd::string::*;

use crate::bank_id::BankId;
use crate::encode::{le_u32, le_u64, put, str_layout, Encode, EncodeError, Primitive};

verus! {

/// The kinds of account a bank holds.
#[derive(Debug, Clone, Copy, PartialEq, Eq, Structural, Hash)]
pub enum AccountType {
    Wallet,
    Savings,
    Printer,
}

impl AccountType {
    /// Whether money may leave or enter an account of this kind.
    pub open spec fn spec_can_move_money(self) -> bool {
        match self {
            AccountType::Wallet => true,
            AccountType::Savings => true,
            AccountType::Printer => false,
        }
    }

    /// Whether money may be sent from an account of this kind to another bank.
    pub open spec fn spec_can_send_money(self) -> bool {
        match self {
            AccountType::Wallet => true,
            AccountType::Savings => false,
            AccountType::Printer => false,
        }
    }

    /// The position of the kind among the variants, as it is laid out for signing.
    pub open spec fn index(self) -> u32 {
        match self {
            AccountType::Wallet => 0,
            AccountType::Savings => 1,
            AccountType::Printer => 2,
        }
    }

    /// The text that the kind is displayed as.
    pub open spec fn label(self) -> Seq<char> {
        match self {
            AccountType::Wallet => "Wallet Account"@,
            AccountType::Savings => "Savings Account"@,
            AccountType::Printer => "Money Printer"@,
        }
    }

    pub fn to_string(&self) -> (r: String)
        ensures
            r@ == self.label(),
    {
        match self {
            AccountType::Wallet => String::from_str("Wallet Account"),
            AccountType::Savings => String::from_str("Savings Account"),
            AccountType::Printer => String::from_str("Money Printer"),
        }
    }

    pub fn can_move_money(&self) -> (r: bool)
        ensures
            r == self.spec_can_move_money(),
    {
        match self {
            AccountType::Wallet => true,
            AccountType::Savings => true,
            AccountType::Printer => false,
        }
    }

    pub fn can_send_money(&self) -> (r: bool)
        ensures
            r == self.spec_can_send_money(),
    {
        match self {
            AccountType::Wallet => true,
            AccountType::Savings => false,
            AccountType::Printer => false,
        }
    }
}

/// An account that may send money to another bank may move money.
pub proof fn law_send_implies_move(t: AccountType)
    ensures
        t.spec_can_send_money() ==> t.spec_can_move_money(),
{
}

impl Encode for AccountType {
    open spec fn layout(&self) -> Seq<u8> {
        le_u32(self.index())
    }

    fn encode_into(&self, out: &mut Vec<u8>) -> (r: Result<(), EncodeError>) {
        let index: u32 = match self {
            AccountType::Wallet => 0,
            AccountType::Savings => 1,
            AccountType::Printer => 2,
        };
        put(out, Primitive::U32(index))
    }
}

/// An account of a bank, named by the bank and the kind of account.
#[derive(Debug)]
pub struct AccountRef {
    pub bank: BankId,
    pub account: AccountType,
}

/// The mathematical value of an `AccountRef`.
pub struct AccountRefModel {
    pub bank: Seq<char>,
    pub account: AccountType,
}

impl View for AccountRef {
    type V = AccountRefModel;

    open spec fn view(&self) -> AccountRefModel {
        AccountRefModel { bank: self.bank@, account: self.account }
    }
}

impl Clone for AccountRef {
    fn clone(&self) -> (r: Self)
        ensures
            r == *self,
    {
        AccountRef { bank: self.bank.clone(), account: self.account }
    }
}

/// The text an account reference is displayed as: the bank, then the kind in brackets.
pub open spec fn account_ref_text(a: AccountRefModel) -> Seq<char> {
    seq!['('] + a.bank + seq![')'] + seq!['('] + a.account.label() + seq![')']
}

/// The layout of an account reference: the bank's name, then the kind.
pub open spec fn account_ref_layout(a: AccountRefModel) -> Seq<u8> {
    str_layout(a.bank) + le_u32(a.account.index())
}

impl AccountRef {
    pub fn to_string(&self) -> (r: String)
        ensures
            r@ == account_ref_text(self@),
    {
        let mut s = self.bank.to_string();
        s.append("(");
        let t = self.account.to_string();
        s.append(t.as_str());
        s.append(")");
        proof {
            reveal_strlit("(");
            reveal_strlit(")");
        }
        assert(s@ =~= account_ref_text(self@));
        s
    }
}

impl Encode for AccountRef {
    open spec fn layout(&self) -> Seq<u8> {
        account_ref_layout(self@)
    }

    fn encode_into(&self, out: &mut Vec<u8>) -> (r: Result<(), EncodeError>) {
        self.bank.encode_into(out)?;
        self.account.encode_into(out)?;
        assert(out@ =~= old(out)@ + self.layout());
        Ok(())
    }
}

/// An account and its balance.
#[derive(Debug)]
pub struct Account {
    pub type_: AccountType,
    pub balance_cents: u64,
}

impl Clone for Account {
    fn clone(&self) -> (r: Self)
        ensures
            r == *self,
    {
        Account { type_: self.type_, balance_cents: self.balance_cents }
    }
}

/// The layout of an account: its kind, then its balance.
pub open spec fn account_layout(a: Account) -> Seq<u8> {
    le_u32(a.type_.index()) + le_u64(a.balance_cents)
}

impl Encode for Account {
    open spec fn layout(&self) -> Seq<u8> {
        account_layout(*self)
    }

    fn encode_into(&self, out: &mut Vec<u8>) -> (r: Result<(), EncodeError>) {
        self.type_.encode_into(out)?;
        put(out, Primitive::U64(self.balance_cents))?;
        assert(out@ =~= old(out)@ + self.layout());
        Ok(())
    }
}

} // verus!
