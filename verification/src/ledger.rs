use vstd::prelude::*;

use indexmap::IndexMap;

use crate::account::{Account, AccountType};
use crate::bank::{find_account, lemma_position_from, Bank, BankModel};
use crate::bank_id::BankId;
use crate::encode::{str_layout, Encode, EncodeError};
use crate::journal::{
    journal, journal_clone, journal_get_index, journal_last, journal_len, journal_new,
};
use crate::ledger_type::{EntryModel, LedgerEntry};
use crate::secret::LedgerSecret;
use crate::signature::LedgerSignature;
use crate::state::{message_views, messages_of};
use crate::transaction::{Transaction, TransactionModel};

verus! {

/// The header that the broker signs over an entry of a bank.
#[derive(Debug)]
pub struct LedgerBrokerHeader {
    pub bank_id: BankId,
    pub prev_signature: LedgerSignature,
    pub bank_signature: LedgerSignature,
}

/// The mathematical value of a `LedgerBrokerHeader`.
pub struct HeaderModel {
    pub bank_id: Seq<char>,
    pub prev_signature: Seq<char>,
    pub bank_signature: Seq<char>,
}

impl View for LedgerBrokerHeader {
    type V = HeaderModel;

    open spec fn view(&self) -> HeaderModel {
        HeaderModel {
            bank_id: self.bank_id@,
            prev_signature: self.prev_signature@,
            bank_signature: self.bank_signature@,
        }
    }
}

impl Clone for LedgerBrokerHeader {
    fn clone(&self) -> (r: Self)
        ensures
            r == *self,
    {
        LedgerBrokerHeader {
            bank_id: self.bank_id.clone(),
            prev_signature: self.prev_signature.clone(),
            bank_signature: self.bank_signature.clone(),
        }
    }
}

/// The layout of a header: the bank, the previous signature, the bank's signature.
pub open spec fn header_layout(h: HeaderModel) -> Seq<u8> {
    str_layout(h.bank_id) + str_layout(h.prev_signature) + str_layout(h.bank_signature)
}

impl Encode for LedgerBrokerHeader {
    open spec fn layout(&self) -> Seq<u8> {
        header_layout(self@)
    }

    fn encode_into(&self, out: &mut Vec<u8>) -> (r: Result<(), EncodeError>) {
        self.bank_id.encode_into(out)?;
        self.prev_signature.encode_into(out)?;
        self.bank_signature.encode_into(out)?;
        assert(out@ =~= old(out)@ + self.layout());
        Ok(())
    }
}

/// An entry of a bank's journal, with the header and the broker's signature over it.
#[derive(Debug)]
pub struct LedgerMessage {
    pub header: LedgerBrokerHeader,
    pub broker_signature: LedgerSignature,
    pub entry: LedgerEntry,
}

/// The mathematical value of a `LedgerMessage`.
pub struct MessageModel {
    pub header: HeaderModel,
    pub broker_signature: Seq<char>,
    pub entry: EntryModel,
}

impl View for LedgerMessage {
    type V = MessageModel;

    open spec fn view(&self) -> MessageModel {
        MessageModel {
            header: self.header@,
            broker_signature: self.broker_signature@,
            entry: self.entry@,
        }
    }
}

impl Clone for LedgerMessage {
    fn clone(&self) -> (r: Self)
        ensures
            r@ == self@,
    {
        LedgerMessage {
            header: self.header.clone(),
            broker_signature: self.broker_signature.clone(),
            entry: self.entry.clone(),
        }
    }
}

/// The journal of one bank, with the secrets its entries are signed with.
#[derive(Debug)]
pub struct LedgerForBank {
    pub broker_secret: LedgerSecret,
    pub bank_secret: LedgerSecret,
    pub entries: IndexMap<LedgerSignature, LedgerMessage>,
}

/// The mathematical value of a `LedgerForBank`: the secrets, and the journal's
/// pairs of broker signature and message in their order.
pub struct BankLedgerModel {
    pub broker_secret: (Seq<u8>, Seq<u8>, Seq<u8>, Seq<u8>),
    pub bank_secret: (Seq<u8>, Seq<u8>, Seq<u8>, Seq<u8>),
    pub entries: Seq<(Seq<char>, MessageModel)>,
}

/// The views of the pairs of a journal.
pub open spec fn journal_view(s: Seq<(LedgerSignature, LedgerMessage)>) -> Seq<
    (Seq<char>, MessageModel),
> {
    s.map_values(|p: (LedgerSignature, LedgerMessage)| (p.0@, p.1@))
}

impl View for LedgerForBank {
    type V = BankLedgerModel;

    open spec fn view(&self) -> BankLedgerModel {
        BankLedgerModel {
            broker_secret: self.broker_secret@,
            bank_secret: self.bank_secret@,
            entries: journal_view(journal(self.entries)),
        }
    }
}

impl Clone for LedgerForBank {
    fn clone(&self) -> (r: Self)
        ensures
            r@ == self@,
    {
        let entries = journal_clone(&self.entries);
        let r = LedgerForBank {
            broker_secret: self.broker_secret,
            bank_secret: self.bank_secret,
            entries,
        };
        assert(r@.entries =~= self@.entries);
        r
    }
}

/// The bank as the latest entry that holds one states it.
pub open spec fn latest_bank(entries: Seq<(Seq<char>, MessageModel)>) -> Option<BankModel>
    decreases entries.len(),
{
    if entries.len() == 0 {
        None
    } else {
        match entries.last().1.entry {
            EntryModel::UpdateBank(bank) => Some(bank),
            EntryModel::NewBank { bank, .. } => Some(bank),
            EntryModel::Transaction { .. } => latest_bank(entries.drop_last()),
        }
    }
}

/// The key of the last entry, or the empty text.
pub open spec fn tail_of(entries: Seq<(Seq<char>, MessageModel)>) -> Seq<char> {
    if entries.len() == 0 {
        Seq::empty()
    } else {
        entries.last().0
    }
}

/// The transactions recorded in the entries, in order.
pub open spec fn transactions_of(entries: Seq<(Seq<char>, MessageModel)>) -> Seq<TransactionModel>
    decreases entries.len(),
{
    if entries.len() == 0 {
        Seq::empty()
    } else {
        match entries.last().1.entry {
            EntryModel::Transaction { transaction } => transactions_of(entries.drop_last()).push(
                transaction,
            ),
            _ => transactions_of(entries.drop_last()),
        }
    }
}

/// The account of kind `t` of the latest bank.
pub open spec fn latest_account(entries: Seq<(Seq<char>, MessageModel)>, t: AccountType) -> Option<
    Account,
> {
    match latest_bank(entries) {
        Some(b) => find_account(b.accounts, t),
        None => None,
    }
}

impl LedgerForBank {
    /// A journal with no entry yet.
    pub fn empty(broker_secret: LedgerSecret, bank_secret: LedgerSecret) -> (r: LedgerForBank)
        ensures
            r@ == (BankLedgerModel {
                broker_secret: broker_secret@,
                bank_secret: bank_secret@,
                entries: Seq::empty(),
            }),
    {
        let r = LedgerForBank { broker_secret, bank_secret, entries: journal_new() };
        assert(r@.entries =~= Seq::empty());
        r
    }

    /// The bank as the latest entry that holds one states it.
    pub fn bank(&self) -> (r: Option<&Bank>)
        ensures
            r is Some == latest_bank(self@.entries) is Some,
            r matches Some(b) ==> latest_bank(self@.entries) == Some(b@),
    {
        let mut i = journal_len(&self.entries);
        assert(self@.entries.subrange(0, i as int) =~= self@.entries);
        while i > 0
            invariant
                0 <= i <= self@.entries.len(),
                self@.entries.len() == journal(self.entries).len(),
                latest_bank(self@.entries) == latest_bank(self@.entries.subrange(0, i as int)),
            decreases i,
        {
            let pair = journal_get_index(&self.entries, i - 1);
            let m = match pair {
                Some(p) => p.1,
                None => {
                    return None;
                },
            };
            proof {
                let s = self@.entries.subrange(0, i as int);
                assert(s.last().1 == m@);
                assert(s.drop_last() =~= self@.entries.subrange(0, i - 1));
            }
            match &m.entry {
                LedgerEntry::UpdateBank(bank) => {
                    return Some(bank);
                },
                LedgerEntry::NewBank { bank, .. } => {
                    return Some(bank);
                },
                LedgerEntry::Transaction { .. } => {},
            }
            i = i - 1;
        }
        None
    }

    /// The account of the given kind of the latest bank.
    pub fn account(&self, account: AccountType) -> (r: Option<&Account>)
        ensures
            r is Some == latest_account(self@.entries, account) is Some,
            r matches Some(a) ==> latest_account(self@.entries, account) == Some(*a),
    {
        match self.bank() {
            Some(bank) => {
                proof {
                    lemma_position_from(bank.accounts@, account, 0);
                }
                match bank.position(account) {
                    Some(i) => Some(&bank.accounts[i]),
                    None => None,
                }
            },
            None => None,
        }
    }

    /// The messages of the journal, in order.
    pub fn messages(&self) -> (r: Vec<LedgerMessage>)
        ensures
            message_views(r@) == messages_of(self@),
    {
        let mut r: Vec<LedgerMessage> = Vec::new();
        let n = journal_len(&self.entries);
        let mut i: usize = 0;
        while i < n
            invariant
                0 <= i <= n,
                n == journal(self.entries).len(),
                message_views(r@) == messages_of(self@).take(i as int),
            decreases n - i,
        {
            let ghost before = message_views(r@);
            match journal_get_index(&self.entries, i) {
                Some(p) => {
                    r.push(p.1.clone());
                },
                None => {},
            }
            assert(message_views(r@) =~= before.push(self@.entries[i as int].1));
            i = i + 1;
            assert(message_views(r@) =~= messages_of(self@).take(i as int));
        }
        assert(messages_of(self@).take(n as int) =~= messages_of(self@));
        r
    }

    /// The key of the last entry, or the empty signature.
    pub fn tail_signature(&self) -> (r: LedgerSignature)
        ensures
            r@ == tail_of(self@.entries),
    {
        match journal_last(&self.entries) {
            Some(p) => p.0.clone(),
            None => LedgerSignature::zero(),
        }
    }
}

/// The ledgers of all banks known to the broker, each under its bank's name.
#[derive(Debug)]
pub struct Ledger {
    pub banks: Vec<(BankId, LedgerForBank)>,
}

/// The views of the pairs of bank name and ledger.
pub open spec fn banks_view(s: Seq<(BankId, LedgerForBank)>) -> Seq<(Seq<char>, BankLedgerModel)> {
    s.map_values(|p: (BankId, LedgerForBank)| (p.0@, p.1@))
}

impl View for Ledger {
    type V = Seq<(Seq<char>, BankLedgerModel)>;

    open spec fn view(&self) -> Seq<(Seq<char>, BankLedgerModel)> {
        banks_view(self.banks@)
    }
}

impl Clone for Ledger {
    fn clone(&self) -> (r: Self)
        ensures
            r@ == self@,
    {
        let mut banks: Vec<(BankId, LedgerForBank)> = Vec::new();
        let mut i: usize = 0;
        while i < self.banks.len()
            invariant
                0 <= i <= self.banks@.len(),
                banks_view(banks@) == banks_view(self.banks@).subrange(0, i as int),
            decreases self.banks@.len() - i,
        {
            let p = &self.banks[i];
            let ghost before = banks_view(banks@);
            banks.push((p.0.clone(), p.1.clone()));
            assert(banks_view(banks@) =~= before.push((p.0@, p.1@)));
            i = i + 1;
            assert(banks_view(banks@) =~= banks_view(self.banks@).subrange(0, i as int));
        }
        assert(banks_view(self.banks@).subrange(0, i as int) =~= banks_view(self.banks@));
        Ledger { banks }
    }
}

impl Default for Ledger {
    fn default() -> (r: Self)
        ensures
            r@ == Seq::<(Seq<char>, BankLedgerModel)>::empty(),
    {
        let r = Ledger { banks: Vec::new() };
        assert(r@ =~= Seq::<(Seq<char>, BankLedgerModel)>::empty());
        r
    }
}

/// The position of the first ledger of the bank `id` at or after `from`.
pub open spec fn index_from(banks: Seq<(Seq<char>, BankLedgerModel)>, id: Seq<char>, from: int) -> Option<
    int,
>
    decreases banks.len() - from,
{
    if from < 0 || from >= banks.len() {
        None
    } else if banks[from].0 == id {
        Some(from)
    } else {
        index_from(banks, id, from + 1)
    }
}

/// Whether no two ledgers are kept under one bank name.
pub open spec fn ledgers_distinct(banks: Seq<(Seq<char>, BankLedgerModel)>) -> bool {
    forall|i: int, j: int| 0 <= i < j < banks.len() ==> (#[trigger] banks[i]).0 != (#[trigger] banks[j]).0
}

/// The position of the ledger of the bank `id`.
pub open spec fn bank_index(banks: Seq<(Seq<char>, BankLedgerModel)>, id: Seq<char>) -> Option<int> {
    index_from(banks, id, 0)
}

/// The ledger of the bank `id`.
pub open spec fn lookup(banks: Seq<(Seq<char>, BankLedgerModel)>, id: Seq<char>) -> Option<
    BankLedgerModel,
> {
    match bank_index(banks, id) {
        Some(i) => Some(banks[i].1),
        None => None,
    }
}

/// What `index_from` finds: the first ledger of the bank from `from` on.
pub proof fn lemma_index_from(banks: Seq<(Seq<char>, BankLedgerModel)>, id: Seq<char>, from: int)
    requires
        0 <= from,
    ensures
        match index_from(banks, id, from) {
            Some(i) => {
                &&& from <= i < banks.len()
                &&& banks[i].0 == id
                &&& forall|j: int| from <= j < i ==> banks[j].0 != id
            },
            None => forall|j: int| from <= j < banks.len() ==> banks[j].0 != id,
        },
    decreases banks.len() - from,
{
    if from < banks.len() && banks[from].0 != id {
        lemma_index_from(banks, id, from + 1);
    }
}

/// Changing the ledger at the position of `id`, and keeping its name, keeps
/// that position the one of `id`, and the one of every other name.
pub proof fn lemma_index_update(
    banks: Seq<(Seq<char>, BankLedgerModel)>,
    i: int,
    l: BankLedgerModel,
    other: Seq<char>,
)
    requires
        0 <= i < banks.len(),
    ensures
        bank_index(banks.update(i, (banks[i].0, l)), other) == bank_index(banks, other),
{
    let nb = banks.update(i, (banks[i].0, l));
    lemma_index_from(banks, other, 0);
    lemma_index_from(nb, other, 0);
    match bank_index(banks, other) {
        Some(k) => {
            assert(nb[k].0 == other);
            match bank_index(nb, other) {
                Some(k2) => {
                    assert(banks[k2].0 == other);
                },
                None => {},
            }
        },
        None => {
            match bank_index(nb, other) {
                Some(k2) => {
                    assert(banks[k2].0 == other);
                },
                None => {},
            }
        },
    }
}

/// Adding the ledger of a new name at the end keeps the positions of the others.
pub proof fn lemma_index_push(
    banks: Seq<(Seq<char>, BankLedgerModel)>,
    id: Seq<char>,
    l: BankLedgerModel,
    other: Seq<char>,
)
    requires
        bank_index(banks, id) is None,
    ensures
        bank_index(banks.push((id, l)), other) == if other == id {
            Some(banks.len() as int)
        } else {
            bank_index(banks, other)
        },
{
    let nb = banks.push((id, l));
    lemma_index_from(banks, other, 0);
    lemma_index_from(nb, other, 0);
    lemma_index_from(banks, id, 0);
    match bank_index(nb, other) {
        Some(k2) => {
            if k2 < banks.len() {
                assert(banks[k2].0 == other);
            }
        },
        None => {
            assert(nb[banks.len() as int].0 == id);
        },
    }
    match bank_index(banks, other) {
        Some(k) => {
            assert(nb[k].0 == other);
        },
        None => {},
    }
}

impl Ledger {
    /// The position of the ledger of `bank_id`.
    pub(crate) fn index_of(&self, bank_id: &BankId) -> (r: Option<usize>)
        ensures
            match bank_index(self@, bank_id@) {
                Some(i) => r matches Some(j) && j as int == i,
                None => r is None,
            },
    {
        proof {
            lemma_index_from(self@, bank_id@, 0);
        }
        let mut i: usize = 0;
        while i < self.banks.len()
            invariant
                0 <= i <= self.banks@.len(),
                self@.len() == self.banks@.len(),
                bank_index(self@, bank_id@) == index_from(self@, bank_id@, i as int),
            decreases self.banks@.len() - i,
        {
            if self.banks[i].0 == *bank_id {
                return Some(i);
            }
            i = i + 1;
        }
        None
    }

    /// The ledger of a bank.
    pub fn ledger_for(&self, bank_id: BankId) -> (r: Option<&LedgerForBank>)
        ensures
            r is Some == lookup(self@, bank_id@) is Some,
            r matches Some(l) ==> lookup(self@, bank_id@) == Some(l@),
    {
        proof {
            lemma_index_from(self@, bank_id@, 0);
        }
        match self.index_of(&bank_id) {
            Some(i) => Some(&self.banks[i].1),
            None => None,
        }
    }

    /// The ledger of a bank, to change it.
    pub fn ledger_mut_for(&mut self, bank_id: BankId) -> (r: Option<&mut LedgerForBank>)
        ensures
            match bank_index(old(self)@, bank_id@) {
                Some(i) => {
                    &&& r matches Some(l)
                    &&& l@ == old(self)@[i].1
                    &&& final(self)@ == old(self)@.update(i, (old(self)@[i].0, final(l)@))
                },
                None => r is None && final(self)@ == old(self)@,
            },
    {
        proof {
            lemma_index_from(self@, bank_id@, 0);
        }
        match self.index_of(&bank_id) {
            Some(i) => {
                let entry = &mut self.banks[i];
                Some(&mut entry.1)
            },
            None => None,
        }
    }

    /// The messages recorded for a bank, in order; none for an unknown bank.
    pub fn entries_for(&self, bank_id: BankId) -> (r: Vec<&LedgerMessage>)
        ensures
            match lookup(self@, bank_id@) {
                Some(l) => r@.len() == l.entries.len() && forall|i: int|
                    0 <= i < r@.len() ==> (#[trigger] r@[i])@ == l.entries[i].1,
                None => r@.len() == 0,
            },
    {
        let mut r: Vec<&LedgerMessage> = Vec::new();
        match self.ledger_for(bank_id) {
            Some(l) => {
                let n = journal_len(&l.entries);
                let mut i: usize = 0;
                while i < n
                    invariant
                        0 <= i <= n,
                        n == l@.entries.len(),
                        n == journal(l.entries).len(),
                        r@.len() == i,
                        forall|j: int| 0 <= j < i ==> (#[trigger] r@[j])@ == l@.entries[j].1,
                    decreases n - i,
                {
                    match journal_get_index(&l.entries, i) {
                        Some(p) => {
                            r.push(p.1);
                        },
                        None => {
                            return r;
                        },
                    }
                    i = i + 1;
                }
            },
            None => {},
        }
        r
    }

    /// The bank as the latest entry of its ledger states it.
    pub fn bank(&self, bank_id: BankId) -> (r: Option<&Bank>)
        ensures
            match lookup(self@, bank_id@) {
                Some(l) => r is Some == latest_bank(l.entries) is Some && (r matches Some(b)
                    ==> latest_bank(l.entries) == Some(b@)),
                None => r is None,
            },
    {
        match self.ledger_for(bank_id) {
            Some(l) => l.bank(),
            None => None,
        }
    }

    /// The transactions recorded for a bank, in order.
    pub fn transactions_for(&self, bank_id: BankId) -> (r: Vec<&Transaction>)
        ensures
            match lookup(self@, bank_id@) {
                Some(l) => r@.map_values(|t: &Transaction| t@) == transactions_of(l.entries),
                None => r@.len() == 0,
            },
    {
        let ghost found = lookup(self@, bank_id@);
        let entries = self.entries_for(bank_id);
        let ghost es = match found {
            Some(l) => l.entries,
            None => Seq::empty(),
        };
        let mut r: Vec<&Transaction> = Vec::new();
        let mut i: usize = 0;
        assert(r@.map_values(|t: &Transaction| t@) =~= transactions_of(es.subrange(0, 0)));
        while i < entries.len()
            invariant
                0 <= i <= entries@.len(),
                entries@.len() == es.len(),
                forall|j: int| 0 <= j < entries@.len() ==> (#[trigger] entries@[j])@ == es[j].1,
                r@.map_values(|t: &Transaction| t@) == transactions_of(es.subrange(0, i as int)),
            decreases entries@.len() - i,
        {
            let e = entries[i];
            proof {
                assert(es.subrange(0, i + 1).drop_last() =~= es.subrange(0, i as int));
                assert(es.subrange(0, i + 1).last().1 == e@);
            }
            match &e.entry {
                LedgerEntry::Transaction { transaction } => {
                    r.push(transaction);
                },
                _ => {},
            }
            i = i + 1;
            assert(r@.map_values(|t: &Transaction| t@) =~= transactions_of(
                es.subrange(0, i as int),
            ));
        }
        assert(es.subrange(0, i as int) =~= es);
        r
    }
}

/// A bank's history keeps every transaction recorded, in order: none before
/// anything is recorded, one more at the end when a transaction is recorded,
/// and the same history when another entry is.
pub proof fn law_history_keeps_every_transaction(
    entries: Seq<(Seq<char>, MessageModel)>,
    k: Seq<char>,
    m: MessageModel,
)
    ensures
        transactions_of(Seq::<(Seq<char>, MessageModel)>::empty()) == Seq::<TransactionModel>::empty(),
        m.entry matches EntryModel::Transaction { transaction } ==> transactions_of(
            entries.push((k, m)),
        ) == transactions_of(entries).push(transaction),
        !(m.entry is Transaction) ==> transactions_of(entries.push((k, m))) == transactions_of(
            entries,
        ),
        transactions_of(entries.push((k, m))).len() == transactions_of(entries).len() + (if m.entry is Transaction {
            1int
        } else {
            0int
        }),
{
    assert(entries.push((k, m)).drop_last() =~= entries);
    assert(entries.push((k, m)).last() == (k, m));
}

} // verus!
