use vstd::prelude::*;

use crate::account::{Account, AccountType};
use crate::bank::{Bank, BankModel};
use crate::bank_id::BankId;
use crate::error::LedgerError;
use crate::ledger::{
    bank_index, ledgers_distinct, lemma_index_from, lemma_index_update, lookup, BankLedgerModel,
    Ledger, LedgerForBank, LedgerMessage,
};
use crate::ledger_type::{entry_layout, EntryModel, LedgerEntry};
use crate::logic::add::{
    add_outcome, all_chained, chained, distinct_keys, lemma_push_keeps_chain, sent_after,
    well_kept, with_recorded,
};
use crate::requests::new_bank::RequestNewBank;
use crate::responses::create_bank::ResponseCreateBank;
use crate::secret::{signature_hash, LedgerSecret};

verus! {

/// The money a new account starts with: a hundred dollars in the wallet, nine
/// hundred and ninety-nine thousand in savings, nothing in a printer.
pub open spec fn funded(a: Account) -> Account {
    match a.type_ {
        AccountType::Wallet => Account { type_: AccountType::Wallet, balance_cents: 100000 },
        AccountType::Savings => Account { type_: AccountType::Savings, balance_cents: 99900000 },
        AccountType::Printer => a,
    }
}

/// A bank with its accounts funded.
pub open spec fn funded_bank(b: BankModel) -> BankModel {
    BankModel { accounts: b.accounts.map_values(|a: Account| funded(a)), ..b }
}

/// The ledgers after the ledger of `id` is set to `l`: in place when `id` has
/// one, appended otherwise.
pub open spec fn with_ledger(
    banks: Seq<(Seq<char>, BankLedgerModel)>,
    id: Seq<char>,
    l: BankLedgerModel,
) -> Seq<(Seq<char>, BankLedgerModel)> {
    match bank_index(banks, id) {
        Some(i) => banks.update(i, (banks[i].0, l)),
        None => banks.push((id, l)),
    }
}

/// Whether a bank `id` exists whose ledger is signed with another secret.
pub open spec fn taken_by_other(
    banks: Seq<(Seq<char>, BankLedgerModel)>,
    id: Seq<char>,
    secret: (Seq<u8>, Seq<u8>, Seq<u8>, Seq<u8>),
) -> bool {
    match lookup(banks, id) {
        Some(l) => l.bank_secret != secret,
        None => false,
    }
}

/// The message an existing bank is refused with.
pub open spec fn already_exists_message() -> Seq<char> {
    "A bank with this ID already exists"@
}

/// Funds the accounts of a bank.
fn fund_accounts(bank: &mut Bank)
    ensures
        final(bank)@ == funded_bank(old(bank)@),
        final(bank).owner == old(bank).owner,
{
    let mut i: usize = 0;
    while i < bank.accounts.len()
        invariant
            0 <= i <= bank.accounts@.len(),
            bank.accounts@.len() == old(bank).accounts@.len(),
            bank.owner == old(bank).owner,
            bank.password == old(bank).password,
            forall|j: int| 0 <= j < i ==> bank.accounts@[j] == funded(old(bank).accounts@[j]),
            forall|j: int| i <= j < bank.accounts@.len() ==> bank.accounts@[j] == old(
                bank,
            ).accounts@[j],
        decreases bank.accounts@.len() - i,
    {
        match bank.accounts[i].type_ {
            AccountType::Wallet => {
                bank.accounts[i].balance_cents = 100000;
            },
            AccountType::Savings => {
                bank.accounts[i].balance_cents = 99900000;
            },
            AccountType::Printer => {},
        }
        i = i + 1;
    }
    assert(bank.accounts@ =~= old(bank).accounts@.map_values(|a: Account| funded(a)));
    assert(bank@ =~= funded_bank(old(bank)@));
}

/// After its ledger is set, a bank has that ledger.
proof fn lemma_opened(banks: Seq<(Seq<char>, BankLedgerModel)>, id: Seq<char>, l: BankLedgerModel)
    ensures
        bank_index(with_ledger(banks, id, l), id) is Some,
        lookup(with_ledger(banks, id, l), id) == Some(l),
{
    lemma_index_from(banks, id, 0);
    let nb = with_ledger(banks, id, l);
    lemma_index_from(nb, id, 0);
    match bank_index(banks, id) {
        Some(i) => {
            assert(nb[i].0 == id);
        },
        None => {
            assert(nb[banks.len() as int].0 == id);
        },
    }
}

impl Ledger {
    /// Sets the ledger of `bank_id`, in place when it has one.
    fn set_ledger(&mut self, bank_id: BankId, ledger: LedgerForBank)
        ensures
            final(self)@ == with_ledger(old(self)@, bank_id@, ledger@),
    {
        proof {
            lemma_index_from(self@, bank_id@, 0);
        }
        match self.index_of(&bank_id) {
            Some(i) => {
                self.banks[i].1 = ledger;
                assert(self@ =~= with_ledger(old(self)@, bank_id@, ledger@));
            },
            None => {
                self.banks.push((bank_id, ledger));
                assert(self@ =~= with_ledger(old(self)@, bank_id@, ledger@));
            },
        }
    }

    /// Opens a bank: unless another bank of that name signs with another
    /// secret, the bank's accounts are funded, its ledger starts afresh and
    /// records the bank.
    pub fn new_bank(
        &mut self,
        broker_secret: &LedgerSecret,
        req: RequestNewBank,
        sent: &mut Vec<LedgerMessage>,
    ) -> (r: Result<ResponseCreateBank, LedgerError>)
        ensures
            ledgers_distinct(old(self)@) ==> ledgers_distinct(final(self)@),
            if taken_by_other(old(self)@, req.bank.owner@, req.secret@) {
                &&& r matches Ok(ResponseCreateBank::AlreadyExists { err_msg }) && err_msg@
                    == already_exists_message()
                &&& final(self)@ == old(self)@
                &&& final(sent)@ == old(sent)@
            } else {
                let fresh = BankLedgerModel {
                    broker_secret: broker_secret@,
                    bank_secret: req.secret@,
                    entries: Seq::empty(),
                };
                let entry = EntryModel::NewBank {
                    bank_secret: req.secret@,
                    bank: funded_bank(req.bank@),
                };
                let opened = with_ledger(old(self)@, req.bank.owner@, fresh);
                match add_outcome(
                    opened,
                    req.bank.owner@,
                    entry,
                    signature_hash(req.secret@, entry_layout(entry)),
                ) {
                    Ok((banks, m)) => {
                        &&& r matches Ok(ResponseCreateBank::Created { bank }) && bank@
                            == funded_bank(req.bank@)
                        &&& final(self)@ == banks
                        &&& sent_after(old(sent)@, final(sent)@, m)
                    },
                    Err(e) => false,
                }
            },
    {
        let mut bank = req.bank;
        let bank_id = bank.id();
        match self.ledger_for(bank_id.clone()) {
            Some(ledger) => {
                if ledger.bank_secret != req.secret {
                    return Ok(
                        ResponseCreateBank::AlreadyExists {
                            err_msg: String::from_str("A bank with this ID already exists"),
                        },
                    );
                }
            },
            None => {},
        }
        fund_accounts(&mut bank);
        let ghost before = self@;
        let fresh = LedgerForBank::empty(*broker_secret, req.secret);
        proof {
            if ledgers_distinct(before) {
                law_opening_keeps_one_ledger_per_bank(before, bank_id@, fresh@);
            }
        }
        self.set_ledger(bank_id.clone(), fresh);
        let entry = LedgerEntry::NewBank { bank_secret: req.secret, bank: bank.clone() };
        let signature = req.secret.sign(&entry);
        proof {
            lemma_opened(old(self)@, bank_id@, BankLedgerModel {
                broker_secret: broker_secret@,
                bank_secret: req.secret@,
                entries: Seq::empty(),
            });
        }
        self.add(bank_id, entry, signature, sent)?;
        Ok(ResponseCreateBank::Created { bank })
    }
}

/// Opening a bank starts its ledger as the broker keeps it: the ledger holds
/// one message, which opens the bank with the bank's own secret and funded
/// accounts; when every ledger was a signed chain, every ledger still is.
pub proof fn law_opening_starts_chain(
    banks: Seq<(Seq<char>, BankLedgerModel)>,
    broker: (Seq<u8>, Seq<u8>, Seq<u8>, Seq<u8>),
    secret: (Seq<u8>, Seq<u8>, Seq<u8>, Seq<u8>),
    bank: BankModel,
)
    ensures
        ({
            let id = bank.owner;
            let fresh = BankLedgerModel { broker_secret: broker, bank_secret: secret, entries: Seq::empty() };
            let entry = EntryModel::NewBank { bank_secret: secret, bank: funded_bank(bank) };
            let opened = with_ledger(banks, id, fresh);
            let sig = signature_hash(secret, entry_layout(entry));
            &&& add_outcome(opened, id, entry, sig) is Ok
            &&& lookup(add_outcome(opened, id, entry, sig).unwrap().0, id) matches Some(l)
                && l.entries.len() == 1 && l.bank_secret == secret && well_kept(id, l)
            &&& all_chained(banks) ==> all_chained(add_outcome(opened, id, entry, sig).unwrap().0)
        }),
{
    let id = bank.owner;
    let fresh = BankLedgerModel { broker_secret: broker, bank_secret: secret, entries: Seq::empty() };
    let entry = EntryModel::NewBank { bank_secret: secret, bank: funded_bank(bank) };
    let opened = with_ledger(banks, id, fresh);
    let sig = signature_hash(secret, entry_layout(entry));
    lemma_opened(banks, id, fresh);
    lemma_index_from(opened, id, 0);
    let i = bank_index(opened, id).unwrap();
    let (after, m) = add_outcome(opened, id, entry, sig).unwrap();
    assert(chained(id, fresh));
    lemma_push_keeps_chain(id, fresh, m);
    let l = BankLedgerModel { entries: fresh.entries.push((m.broker_signature, m)), ..fresh };
    assert(with_recorded(fresh, m) == l);
    lemma_index_update(opened, i, l, id);
    assert(distinct_keys(l.entries));
    if all_chained(banks) {
        lemma_index_from(banks, id, 0);
        assert forall|j: int| 0 <= j < after.len() implies #[trigger] chained(after[j].0, after[j].1) by {
            if j != i {
                match bank_index(banks, id) {
                    Some(k) => {
                        assert(after[j] == banks[j]);
                    },
                    None => {
                        assert(after[j] == banks[j]);
                    },
                }
                assert(chained(banks[j].0, banks[j].1));
            }
        }
    }
}

/// Opening a bank keeps one ledger per bank: a bank already kept has its
/// ledger replaced in place, another is appended.
pub proof fn law_opening_keeps_one_ledger_per_bank(
    banks: Seq<(Seq<char>, BankLedgerModel)>,
    id: Seq<char>,
    l: BankLedgerModel,
)
    requires
        ledgers_distinct(banks),
    ensures
        ledgers_distinct(with_ledger(banks, id, l)),
{
    let after = with_ledger(banks, id, l);
    lemma_index_from(banks, id, 0);
    assert forall|x: int, y: int| 0 <= x < y < after.len() implies (#[trigger] after[x]).0
        != (#[trigger] after[y]).0 by {
        match bank_index(banks, id) {
            Some(i) => {
                assert(after[x].0 == banks[x].0 && after[y].0 == banks[y].0);
            },
            None => {
                if y == banks.len() {
                    assert(after[x] == banks[x]);
                } else {
                    assert(after[x] == banks[x] && after[y] == banks[y]);
                }
            },
        }
    }
}

/// Opening a bank puts a hundred dollars in each wallet and nine hundred and
/// ninety-nine thousand dollars in each savings account, leaves a printer's
/// balance as given, and keeps the owner, the password and the kinds and
/// order of the accounts.
pub proof fn law_opening_funds_the_accounts(b: BankModel)
    ensures
        funded_bank(b).owner == b.owner,
        funded_bank(b).password == b.password,
        funded_bank(b).accounts.len() == b.accounts.len(),
        forall|j: int|
            0 <= j < b.accounts.len() ==> {
                let a = #[trigger] funded_bank(b).accounts[j];
                &&& a.type_ == b.accounts[j].type_
                &&& a.type_ == AccountType::Wallet ==> a.balance_cents == 100000
                &&& a.type_ == AccountType::Savings ==> a.balance_cents == 99900000
                &&& a.type_ == AccountType::Printer ==> a.balance_cents == b.accounts[j].balance_cents
            },
{
}

} // verus!
