use vstd::prelude::*;

use crate::account::{account_layout, Account, AccountType};
use crate::bank_id::BankId;
use crate::encode::{le_u64, put, str_layout, Encode, EncodeError, Primitive};
use crate::password_hash::PasswordHash;

verus! {

/// A bank: its owner, its password and its accounts.
#[derive(Debug)]
pub struct Bank {
    pub owner: BankId,
    pub password: PasswordHash,
    pub accounts: Vec<Account>,
}

/// The mathematical value of a `Bank`.
pub struct BankModel {
    pub owner: Seq<char>,
    pub password: Seq<char>,
    pub accounts: Seq<Account>,
}

impl View for Bank {
    type V = BankModel;

    open spec fn view(&self) -> BankModel {
        BankModel { owner: self.owner@, password: self.password@, accounts: self.accounts@ }
    }
}

/// The position of the first account of kind `t` at or after `from`.
pub open spec fn position_from(accounts: Seq<Account>, t: AccountType, from: int) -> Option<int>
    decreases accounts.len() - from,
{
    if from < 0 || from >= accounts.len() {
        None
    } else if accounts[from].type_ == t {
        Some(from)
    } else {
        position_from(accounts, t, from + 1)
    }
}

/// What `position_from` finds: the first account of the kind from `from` on.
pub proof fn lemma_position_from(accounts: Seq<Account>, t: AccountType, from: int)
    requires
        0 <= from,
    ensures
        match position_from(accounts, t, from) {
            Some(i) => {
                &&& from <= i < accounts.len()
                &&& accounts[i].type_ == t
                &&& forall|j: int| from <= j < i ==> accounts[j].type_ != t
            },
            None => forall|j: int| from <= j < accounts.len() ==> accounts[j].type_ != t,
        },
    decreases accounts.len() - from,
{
    if from < accounts.len() && accounts[from].type_ != t {
        lemma_position_from(accounts, t, from + 1);
    }
}

/// The position of the first account of kind `t`.
pub open spec fn account_position(accounts: Seq<Account>, t: AccountType) -> Option<int> {
    position_from(accounts, t, 0)
}

/// The first account of kind `t`.
pub open spec fn find_account(accounts: Seq<Account>, t: AccountType) -> Option<Account> {
    match account_position(accounts, t) {
        Some(i) => Some(accounts[i]),
        None => None,
    }
}

/// The sum of the balances.
pub open spec fn sum_balances(accounts: Seq<Account>) -> int
    decreases accounts.len(),
{
    if accounts.len() == 0 {
        0
    } else {
        sum_balances(accounts.drop_last()) + accounts.last().balance_cents
    }
}

/// The layout of the accounts one after the other.
pub open spec fn accounts_layout(accounts: Seq<Account>) -> Seq<u8>
    decreases accounts.len(),
{
    if accounts.len() == 0 {
        seq![]
    } else {
        accounts_layout(accounts.drop_last()) + account_layout(accounts.last())
    }
}

/// The layout of a bank: owner, password, the number of accounts, the accounts.
pub open spec fn bank_layout(b: BankModel) -> Seq<u8> {
    str_layout(b.owner) + str_layout(b.password) + le_u64(b.accounts.len() as u64)
        + accounts_layout(b.accounts)
}

/// The accounts that a new bank starts with: an empty wallet and empty savings.
pub open spec fn initial_accounts() -> Seq<Account> {
    seq![
        Account { type_: AccountType::Wallet, balance_cents: 0 },
        Account { type_: AccountType::Savings, balance_cents: 0 },
    ]
}

/// A prefix of the accounts never holds more than all of them.
pub proof fn lemma_sum_prefix(accounts: Seq<Account>, i: int)
    requires
        0 <= i <= accounts.len(),
    ensures
        0 <= sum_balances(accounts.subrange(0, i)) <= sum_balances(accounts),
    decreases accounts.len(),
{
    if accounts.len() > 0 {
        if i == accounts.len() {
            assert(accounts.subrange(0, i) =~= accounts);
            lemma_sum_prefix(accounts.drop_last(), accounts.len() - 1);
            assert(accounts.drop_last().subrange(0, accounts.len() - 1) =~= accounts.drop_last());
        } else {
            lemma_sum_prefix(accounts.drop_last(), i);
            assert(accounts.drop_last().subrange(0, i) =~= accounts.subrange(0, i));
        }
    }
}

/// Changing one balance changes the sum by the difference.
pub proof fn lemma_sum_update(accounts: Seq<Account>, i: int, a: Account)
    requires
        0 <= i < accounts.len(),
    ensures
        sum_balances(accounts.update(i, a)) == sum_balances(accounts) - accounts[i].balance_cents
            + a.balance_cents,
    decreases accounts.len(),
{
    let u = accounts.update(i, a);
    if i == accounts.len() - 1 {
        assert(u.drop_last() =~= accounts.drop_last());
    } else {
        lemma_sum_update(accounts.drop_last(), i, a);
        assert(u.drop_last() =~= accounts.drop_last().update(i, a));
    }
}

impl Clone for Bank {
    fn clone(&self) -> (r: Self)
        ensures
            r@ == self@,
    {
        let accounts = self.accounts.clone();
        assert(accounts@ =~= self.accounts@);
        Bank { owner: self.owner.clone(), password: self.password.clone(), accounts }
    }
}

impl Bank {
    /// A bank with an empty wallet and empty savings.
    pub fn new(owner: BankId, password: PasswordHash) -> (r: Bank)
        ensures
            r@ == (BankModel { owner: owner@, password: password@, accounts: initial_accounts() }),
    {
        let mut accounts: Vec<Account> = Vec::new();
        accounts.push(Account { type_: AccountType::Wallet, balance_cents: 0 });
        accounts.push(Account { type_: AccountType::Savings, balance_cents: 0 });
        let r = Bank { owner, password, accounts };
        assert(r.accounts@ =~= initial_accounts());
        r
    }

    pub fn id(&self) -> (r: BankId)
        ensures
            r == self.owner,
    {
        self.owner.clone()
    }

    pub(crate) fn position(&self, type_: AccountType) -> (r: Option<usize>)
        ensures
            match account_position(self.accounts@, type_) {
                Some(i) => r matches Some(j) && j as int == i,
                None => r is None,
            },
    {
        let mut i: usize = 0;
        while i < self.accounts.len()
            invariant
                0 <= i <= self.accounts@.len(),
                account_position(self.accounts@, type_) == position_from(
                    self.accounts@,
                    type_,
                    i as int,
                ),
            decreases self.accounts@.len() - i,
        {
            if self.accounts[i].type_ == type_ {
                return Some(i);
            }
            assert(position_from(self.accounts@, type_, i as int) == position_from(
                self.accounts@,
                type_,
                i + 1,
            ));
            i = i + 1;
        }
        None
    }

    /// The first account of the given kind.
    pub fn account(&mut self, type_: AccountType) -> (r: Option<&Account>)
        ensures
            final(self)@ == old(self)@,
            r is Some == find_account(old(self)@.accounts, type_) is Some,
            r matches Some(a) ==> find_account(old(self)@.accounts, type_) == Some(*a),
    {
        proof {
            lemma_position_from(self.accounts@, type_, 0);
        }
        match self.position(type_) {
            Some(i) => {
                let a = &self.accounts[i];
                assert(*a == self.accounts@[i as int]);
                Some(a)
            },
            None => None,
        }
    }

    /// The first account of the given kind, to change it.
    pub fn account_mut(&mut self, type_: AccountType) -> (r: Option<&mut Account>)
        ensures
            final(self).owner == old(self).owner,
            final(self).password == old(self).password,
            match account_position(old(self)@.accounts, type_) {
                Some(i) => {
                    &&& r matches Some(a)
                    &&& *a == old(self)@.accounts[i]
                    &&& final(self)@.accounts == old(self)@.accounts.update(i, *final(a))
                },
                None => r is None && final(self)@ == old(self)@,
            },
    {
        proof {
            lemma_position_from(self.accounts@, type_, 0);
        }
        match self.position(type_) {
            Some(i) => {
                let a = &mut self.accounts[i];
                assert(*a == old(self).accounts@[i as int]);
                Some(a)
            },
            None => None,
        }
    }

    /// The sum of the balances of all accounts.
    pub fn total_funds(&self) -> (r: u64)
        requires
            sum_balances(self.accounts@) <= u64::MAX,
        ensures
            r == sum_balances(self.accounts@),
    {
        let mut total: u64 = 0;
        let mut i: usize = 0;
        while i < self.accounts.len()
            invariant
                0 <= i <= self.accounts@.len(),
                sum_balances(self.accounts@) <= u64::MAX,
                total == sum_balances(self.accounts@.subrange(0, i as int)),
            decreases self.accounts@.len() - i,
        {
            proof {
                lemma_sum_prefix(self.accounts@, i + 1);
                assert(self.accounts@.subrange(0, i + 1).drop_last() =~= self.accounts@.subrange(
                    0,
                    i as int,
                ));
            }
            total = total + self.accounts[i].balance_cents;
            i = i + 1;
        }
        assert(self.accounts@.subrange(0, i as int) =~= self.accounts@);
        total
    }

    /// The sum of the balances of all accounts, or `None` when it does not fit
    /// in a `u64`.
    pub fn checked_total_funds(&self) -> (r: Option<u64>)
        ensures
            match r {
                Some(t) => t == sum_balances(self.accounts@),
                None => sum_balances(self.accounts@) > u64::MAX,
            },
    {
        let mut total: u64 = 0;
        let mut i: usize = 0;
        while i < self.accounts.len()
            invariant
                0 <= i <= self.accounts@.len(),
                total == sum_balances(self.accounts@.subrange(0, i as int)),
            decreases self.accounts@.len() - i,
        {
            proof {
                lemma_sum_prefix(self.accounts@, i + 1);
                assert(self.accounts@.subrange(0, i + 1).drop_last() =~= self.accounts@.subrange(
                    0,
                    i as int,
                ));
            }
            let b = self.accounts[i].balance_cents;
            if b > u64::MAX - total {
                return None;
            }
            total = total + b;
            i = i + 1;
        }
        assert(self.accounts@.subrange(0, i as int) =~= self.accounts@);
        Some(total)
    }
}

impl Encode for Bank {
    open spec fn layout(&self) -> Seq<u8> {
        bank_layout(self@)
    }

    fn encode_into(&self, out: &mut Vec<u8>) -> (r: Result<(), EncodeError>) {
        self.owner.encode_into(out)?;
        self.password.encode_into(out)?;
        put(out, Primitive::U64(self.accounts.len() as u64))?;
        let ghost start = out@;
        let mut i: usize = 0;
        while i < self.accounts.len()
            invariant
                0 <= i <= self.accounts@.len(),
                out@ == start + accounts_layout(self.accounts@.subrange(0, i as int)),
            decreases self.accounts@.len() - i,
        {
            self.accounts[i].encode_into(out)?;
            proof {
                assert(self.accounts@.subrange(0, i + 1).drop_last() =~= self.accounts@.subrange(
                    0,
                    i as int,
                ));
            }
            i = i + 1;
            assert(out@ =~= start + accounts_layout(self.accounts@.subrange(0, i as int)));
        }
        assert(self.accounts@.subrange(0, i as int) =~= self.accounts@);
        assert(out@ =~= old(out)@ + self.layout());
        Ok(())
    }
}

} // verus!
