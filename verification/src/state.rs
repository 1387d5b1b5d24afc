//! The broker's state: the ledgers of all banks and the names of the banks
//! seen, with the rules by which messages from other brokers are taken in.
use vstd::prelude::*;
use vstd::string::*;

use crate::bank_id::BankId;
use crate::journal::{journal, journal_contains_key, journal_has_key, journal_insert, journal_len};
use crate::logic::add::{
    all_chained, before_entry, chained, distinct_keys, key_index_from, lemma_insert_view,
    lemma_key_index_from, link_holds, opens_with_own_secret, recorded, well_kept,
};
use crate::ledger::{
    bank_index, journal_view, lemma_index_from, lemma_index_push, lemma_index_update,
    ledgers_distinct, lookup, BankLedgerModel, Ledger, LedgerForBank, LedgerMessage, MessageModel,
};
use crate::ledger_type::{EntryModel, LedgerEntry};
use crate::secret::LedgerSecret;
use crate::signature::LedgerSignature;
use crate::web::same_text;

verus! {

/// The broker's state.
#[derive(Debug)]
pub struct GeneralStateInner {
    pub existing_banks: Vec<String>,
    pub ledger: Ledger,
}

impl Default for GeneralStateInner {
    fn default() -> (r: Self)
        ensures
            r.existing_banks@.len() == 0,
            r.ledger@ == Seq::<(Seq<char>, BankLedgerModel)>::empty(),
    {
        GeneralStateInner { existing_banks: Vec::new(), ledger: Ledger::default() }
    }
}

/// The views of messages.
pub open spec fn message_views(ms: Seq<LedgerMessage>) -> Seq<MessageModel> {
    ms.map_values(|m: LedgerMessage| m@)
}

/// The texts of strings.
pub open spec fn text_views(ss: Seq<String>) -> Seq<Seq<char>> {
    ss.map_values(|s: String| s@)
}

/// Whether some entry of the journal is kept under the key `k`.
pub open spec fn has_key(entries: Seq<(Seq<char>, MessageModel)>, k: Seq<char>) -> bool {
    exists|i: int| 0 <= i < entries.len() && (#[trigger] entries[i]).0 == k
}

/// The ledger once the first entry, when it opens the bank, has set the bank's secret.
pub open spec fn with_opening_secret(l: BankLedgerModel, m: MessageModel) -> BankLedgerModel {
    if l.entries.len() == 0 {
        match m.entry {
            EntryModel::NewBank { bank_secret, .. } => BankLedgerModel { bank_secret, ..l },
            _ => l,
        }
    } else {
        l
    }
}

/// How a ledger takes in a message from another broker. A message whose key
/// the journal holds is a duplicate, and so is a message that opens its
/// journal (it links to no earlier key) when the ledger holds no message yet:
/// neither changes anything. Any other one sets the opening secret of an empty
/// journal and is then found out of sequence. No message is recorded, and the
/// answer is always false.
pub open spec fn accept(l: BankLedgerModel, m: MessageModel) -> (bool, BankLedgerModel) {
    if has_key(l.entries, m.broker_signature) || (l.entries.len() == 0
        && m.header.prev_signature.len() == 0) {
        (false, l)
    } else {
        (false, with_opening_secret(l, m))
    }
}

/// A ledger after a saved message is put back into it: the opening secret of
/// an empty journal is set, and the message is kept under its broker
/// signature, in place of a message with the same key or last.
pub open spec fn load_into(l: BankLedgerModel, m: MessageModel) -> BankLedgerModel {
    let l1 = with_opening_secret(l, m);
    BankLedgerModel { entries: recorded(l1.entries, m), ..l1 }
}

/// A ledger for a bank first heard of: the broker's secret, some bank secret,
/// no entry.
pub open spec fn fresh_ledger(
    broker: (Seq<u8>, Seq<u8>, Seq<u8>, Seq<u8>),
    bank: (Seq<u8>, Seq<u8>, Seq<u8>, Seq<u8>),
) -> BankLedgerModel {
    BankLedgerModel { broker_secret: broker, bank_secret: bank, entries: Seq::empty() }
}

/// The keys of a journal, as its view gives them.
proof fn lemma_has_key_view(s: Seq<(crate::signature::LedgerSignature, LedgerMessage)>, k: Seq<char>)
    ensures
        journal_has_key(s, k) == has_key(journal_view(s), k),
{
    let v = journal_view(s);
    if journal_has_key(s, k) {
        let i = choose|i: int| 0 <= i < s.len() && (#[trigger] s[i]).0@ == k;
        assert(v[i].0 == k);
    }
    if has_key(v, k) {
        let i = choose|i: int| 0 <= i < v.len() && (#[trigger] v[i]).0 == k;
        assert(s[i].0@ == k);
    }
}

/// Takes a message into one bank's ledger.
fn take_in(ledger: &mut LedgerForBank, msg: &LedgerMessage) -> (r: bool)
    ensures
        r == accept(old(ledger)@, msg@).0,
        final(ledger)@ == accept(old(ledger)@, msg@).1,
{
    let ghost l0 = ledger@;
    proof {
        lemma_has_key_view(journal(ledger.entries), msg@.broker_signature);
    }
    if journal_contains_key(&ledger.entries, &msg.broker_signature) {
        return false;
    }
    if journal_len(&ledger.entries) == 0 {
        let zero = LedgerSignature::zero();
        if msg.header.prev_signature == zero {
            assert(msg@.header.prev_signature =~= Seq::<char>::empty());
            return false;
        }
        proof {
            if msg@.header.prev_signature.len() == 0 {
                assert(msg@.header.prev_signature =~= zero@);
            }
        }
        if let LedgerEntry::NewBank { bank_secret, .. } = &msg.entry {
            ledger.bank_secret = *bank_secret;
        }
    }
    assert(ledger@ == with_opening_secret(l0, msg@));
    false
}

/// Puts a saved message back into one bank's ledger.
fn put_back(ledger: &mut LedgerForBank, msg: &LedgerMessage)
    ensures
        final(ledger)@ == load_into(old(ledger)@, msg@),
{
    if journal_len(&ledger.entries) == 0 {
        if let LedgerEntry::NewBank { bank_secret, .. } = &msg.entry {
            ledger.bank_secret = *bank_secret;
        }
    }
    let ghost old_j = journal(ledger.entries);
    let k = msg.broker_signature.clone();
    let v = msg.clone();
    let ghost gk = k;
    let ghost gv = v;
    let prior = journal_insert(&mut ledger.entries, k, v);
    proof {
        lemma_insert_view(old_j, journal(ledger.entries), gk, gv, prior is Some);
    }
}

/// The ledgers after a message about a bank is taken in, where `k` is the
/// bank secret given to a bank first heard of.
pub open spec fn process_model(
    banks: Seq<(Seq<char>, BankLedgerModel)>,
    broker: (Seq<u8>, Seq<u8>, Seq<u8>, Seq<u8>),
    m: MessageModel,
    k: (Seq<u8>, Seq<u8>, Seq<u8>, Seq<u8>),
) -> Seq<(Seq<char>, BankLedgerModel)> {
    match bank_index(banks, m.header.bank_id) {
        Some(i) => banks.update(i, (banks[i].0, accept(banks[i].1, m).1)),
        None => banks.push((m.header.bank_id, accept(fresh_ledger(broker, k), m).1)),
    }
}

/// Whether `after` and `accepted` are what taking in `m` gives: for a known
/// bank, as its ledger takes the message in; for a bank first heard of, as a
/// fresh ledger with some bank secret takes it in, appended to the ledgers.
pub open spec fn processed(
    banks: Seq<(Seq<char>, BankLedgerModel)>,
    broker: (Seq<u8>, Seq<u8>, Seq<u8>, Seq<u8>),
    m: MessageModel,
    accepted: bool,
    after: Seq<(Seq<char>, BankLedgerModel)>,
) -> bool {
    match bank_index(banks, m.header.bank_id) {
        Some(i) => {
            &&& accepted == accept(banks[i].1, m).0
            &&& after == banks.update(i, (banks[i].0, accept(banks[i].1, m).1))
        },
        None => exists|k: (Seq<u8>, Seq<u8>, Seq<u8>, Seq<u8>)|
            {
                &&& accepted == accept(fresh_ledger(broker, k), m).0
                &&& after == #[trigger] banks.push(
                    (m.header.bank_id, accept(fresh_ledger(broker, k), m).1),
                )
            },
    }
}

/// The ledgers after a saved message about a bank is put back, where `k` is
/// the bank secret given to a bank first heard of.
pub open spec fn load_model(
    banks: Seq<(Seq<char>, BankLedgerModel)>,
    broker: (Seq<u8>, Seq<u8>, Seq<u8>, Seq<u8>),
    m: MessageModel,
    k: (Seq<u8>, Seq<u8>, Seq<u8>, Seq<u8>),
) -> Seq<(Seq<char>, BankLedgerModel)> {
    match bank_index(banks, m.header.bank_id) {
        Some(i) => banks.update(i, (banks[i].0, load_into(banks[i].1, m))),
        None => banks.push((m.header.bank_id, load_into(fresh_ledger(broker, k), m))),
    }
}

/// The ledgers after saved messages are put back one after the other, the
/// banks first heard of getting the secrets `ks` in turn.
pub open spec fn replay(
    banks: Seq<(Seq<char>, BankLedgerModel)>,
    broker: (Seq<u8>, Seq<u8>, Seq<u8>, Seq<u8>),
    ms: Seq<MessageModel>,
    ks: Seq<(Seq<u8>, Seq<u8>, Seq<u8>, Seq<u8>)>,
) -> Seq<(Seq<char>, BankLedgerModel)>
    decreases ms.len(),
{
    if ms.len() == 0 || ks.len() != ms.len() {
        banks
    } else {
        load_model(replay(banks, broker, ms.drop_last(), ks.drop_last()), broker, ms.last(), ks.last())
    }
}

/// The names of the banks seen, after a message: the owner of a bank that
/// the message states is added when it is not there yet.
pub open spec fn names_after(names: Seq<Seq<char>>, m: MessageModel) -> Seq<Seq<char>> {
    match m.entry {
        EntryModel::NewBank { bank, .. } => if names.contains(bank.owner) {
            names
        } else {
            names.push(bank.owner)
        },
        EntryModel::UpdateBank(bank) => if names.contains(bank.owner) {
            names
        } else {
            names.push(bank.owner)
        },
        _ => names,
    }
}

/// The names of the banks seen after a run of messages.
pub open spec fn names_after_all(names: Seq<Seq<char>>, ms: Seq<MessageModel>) -> Seq<Seq<char>>
    decreases ms.len(),
{
    if ms.len() == 0 {
        names
    } else {
        names_after(names_after_all(names, ms.drop_last()), ms.last())
    }
}

/// The messages of a journal, in order.
pub open spec fn messages_of(l: BankLedgerModel) -> Seq<MessageModel> {
    l.entries.map_values(|p: (Seq<char>, MessageModel)| p.1)
}

/// The messages of all ledgers, bank after bank, each journal in its order.
pub open spec fn all_messages(banks: Seq<(Seq<char>, BankLedgerModel)>) -> Seq<MessageModel>
    decreases banks.len(),
{
    if banks.len() == 0 {
        Seq::empty()
    } else {
        all_messages(banks.drop_last()) + messages_of(banks.last().1)
    }
}

impl GeneralStateInner {
    /// Takes in a message about a bank from another broker, as `accept` says:
    /// it is never recorded, and the answer is false. A bank first heard of
    /// gets a ledger with the broker's secret and a random bank secret, which
    /// an opening entry replaces.
    pub fn process(&mut self, broker_secret: &LedgerSecret, msg: &LedgerMessage) -> (r: bool)
        ensures
            ledgers_distinct(old(self).ledger@) ==> ledgers_distinct(final(self).ledger@),
            !r,
            final(self).existing_banks@ == old(self).existing_banks@,
            exists|k: (Seq<u8>, Seq<u8>, Seq<u8>, Seq<u8>)|
                final(self).ledger@ == process_model(old(self).ledger@, broker_secret@, msg@, k),
            processed(old(self).ledger@, broker_secret@, msg@, r, final(self).ledger@),
    {
        let id = msg.header.bank_id.clone();
        proof {
            lemma_index_from(self.ledger@, id@, 0);
        }
        let ghost before = self.ledger@;
        let ghost mut k0 = broker_secret@;
        if self.ledger.index_of(&id).is_none() {
            let fresh = LedgerForBank::empty(*broker_secret, LedgerSecret::new());
            proof {
                k0 = fresh@.bank_secret;
            }
            self.ledger.banks.push((id.clone(), fresh));
            assert(self.ledger@ =~= before.push((id@, fresh_ledger(broker_secret@, k0))));
        }
        let ghost start = self.ledger@;
        proof {
            lemma_index_from(start, id@, 0);
            if bank_index(before, id@) is None {
                assert(start[before.len() as int].0 == id@);
            }
        }
        let ledger = match self.ledger.ledger_mut_for(id) {
            Some(l) => l,
            None => {
                return false;
            },
        };
        let r = take_in(ledger, msg);
        proof {
            if bank_index(before, id@) is None {
                let l0 = fresh_ledger(broker_secret@, k0);
                assert(self.ledger@ =~= before.push((id@, accept(l0, msg@).1)));
            }
            assert(self.ledger@ == process_model(before, broker_secret@, msg@, k0));
            if ledgers_distinct(before) {
                lemma_process_keeps_ledgers_distinct(before, broker_secret@, msg@, k0);
            }
        }
        r
    }

    /// Puts a saved message back into its bank's journal. A bank first heard of
    /// gets a ledger with the broker's secret and a random bank secret, which
    /// an opening entry replaces.
    fn load_message(&mut self, broker_secret: &LedgerSecret, msg: &LedgerMessage)
        ensures
            final(self).existing_banks@ == old(self).existing_banks@,
            exists|k: (Seq<u8>, Seq<u8>, Seq<u8>, Seq<u8>)|
                final(self).ledger@ == load_model(old(self).ledger@, broker_secret@, msg@, k),
    {
        let id = msg.header.bank_id.clone();
        proof {
            lemma_index_from(self.ledger@, id@, 0);
        }
        let ghost before = self.ledger@;
        let ghost mut k0 = broker_secret@;
        if self.ledger.index_of(&id).is_none() {
            let fresh = LedgerForBank::empty(*broker_secret, LedgerSecret::new());
            proof {
                k0 = fresh@.bank_secret;
            }
            self.ledger.banks.push((id.clone(), fresh));
            assert(self.ledger@ =~= before.push((id@, fresh_ledger(broker_secret@, k0))));
        }
        let ghost start = self.ledger@;
        proof {
            lemma_index_from(start, id@, 0);
            if bank_index(before, id@) is None {
                assert(start[before.len() as int].0 == id@);
            }
        }
        let ledger = match self.ledger.ledger_mut_for(id) {
            Some(l) => l,
            None => {
                return;
            },
        };
        put_back(ledger, msg);
        proof {
            if bank_index(before, id@) is None {
                let l0 = fresh_ledger(broker_secret@, k0);
                assert(self.ledger@ =~= before.push((id@, load_into(l0, msg@))));
            }
            assert(self.ledger@ == load_model(before, broker_secret@, msg@, k0));
        }
    }

    /// Takes in a message read from a socket for the bank `bank_id`, when it is
    /// about that bank; true when it is recorded, and so is to be passed on,
    /// which `process` never answers.
    pub fn receive(&mut self, broker_secret: &LedgerSecret, bank_id: &BankId, msg: &LedgerMessage) -> (r:
        bool)
        ensures
            ledgers_distinct(old(self).ledger@) ==> ledgers_distinct(final(self).ledger@),
            !r,
            final(self).existing_banks@ == old(self).existing_banks@,
            msg.header.bank_id@ != bank_id@ ==> final(self).ledger@ == old(self).ledger@,
            msg.header.bank_id@ == bank_id@ ==> exists|k: (Seq<u8>, Seq<u8>, Seq<u8>, Seq<u8>)|
                final(self).ledger@ == process_model(old(self).ledger@, broker_secret@, msg@, k),
            msg.header.bank_id@ == bank_id@ ==> processed(
                old(self).ledger@,
                broker_secret@,
                msg@,
                r,
                final(self).ledger@,
            ),
    {
        if msg.header.bank_id != *bank_id {
            return false;
        }
        self.process(broker_secret, msg)
    }

    /// Notes the owner of the bank that a message states, if it is new.
    fn note_bank(&mut self, msg: &LedgerMessage)
        ensures
            final(self).ledger@ == old(self).ledger@,
            text_views(final(self).existing_banks@) == names_after(
                text_views(old(self).existing_banks@),
                msg@,
            ),
    {
        let owner = match &msg.entry {
            LedgerEntry::NewBank { bank, .. } => &bank.owner,
            LedgerEntry::UpdateBank(bank) => &bank.owner,
            LedgerEntry::Transaction { .. } => {
                return;
            },
        };
        let ghost names = text_views(self.existing_banks@);
        assert(names_after(names, msg@) == if names.contains(owner@) {
            names
        } else {
            names.push(owner@)
        });
        let mut i: usize = 0;
        while i < self.existing_banks.len()
            invariant
                0 <= i <= self.existing_banks@.len(),
                names == text_views(self.existing_banks@),
                names == text_views(old(self).existing_banks@),
                self.ledger@ == old(self).ledger@,
                self.existing_banks@ == old(self).existing_banks@,
                names_after(names, msg@) == if names.contains(owner@) {
                    names
                } else {
                    names.push(owner@)
                },
                forall|j: int| 0 <= j < i ==> names[j] != owner@,
            decreases self.existing_banks@.len() - i,
        {
            if self.existing_banks[i].as_str().unicode_len() == owner.as_str().unicode_len()
                && same_text(self.existing_banks[i].as_str(), owner.as_str()) {
                assert(names[i as int] == owner@);
                assert(names.contains(owner@));
                return;
            }
            i = i + 1;
        }
        assert(!names.contains(owner@));
        self.existing_banks.push(String::from_str(owner.as_str()));
        assert(text_views(self.existing_banks@) =~= names.push(owner@));
    }

    /// Rebuilds the state from saved messages: notes the banks they state and
    /// puts each back into its bank's journal, in order, without checking it.
    /// Into an empty state, what `snapshot` saved of ledgers that can be
    /// restored gives those ledgers back.
    pub fn restore(&mut self, broker_secret: &LedgerSecret, msgs: Vec<LedgerMessage>)
        ensures
            ledgers_distinct(old(self).ledger@) ==> ledgers_distinct(final(self).ledger@),
            text_views(final(self).existing_banks@) == names_after_all(
                text_views(old(self).existing_banks@),
                message_views(msgs@),
            ),
            exists|ks: Seq<(Seq<u8>, Seq<u8>, Seq<u8>, Seq<u8>)>|
                ks.len() == msgs@.len() && final(self).ledger@ == #[trigger] replay(
                    old(self).ledger@,
                    broker_secret@,
                    message_views(msgs@),
                    ks,
                ),
            forall|b: Seq<(Seq<char>, BankLedgerModel)>|
                old(self).ledger@.len() == 0 && #[trigger] all_restorable(b, broker_secret@)
                    && message_views(msgs@) == all_messages(b) ==> final(self).ledger@ == b,
    {
        let ghost ms = message_views(msgs@);
        let ghost names0 = text_views(self.existing_banks@);
        let ghost banks0 = self.ledger@;
        let ghost mut ks: Seq<(Seq<u8>, Seq<u8>, Seq<u8>, Seq<u8>)> = Seq::empty();
        let mut i: usize = 0;
        assert(ms.subrange(0, 0) =~= Seq::<MessageModel>::empty());
        while i < msgs.len()
            invariant
                0 <= i <= msgs@.len(),
                ms == message_views(msgs@),
                ks.len() == i,
                text_views(self.existing_banks@) == names_after_all(
                    names0,
                    ms.subrange(0, i as int),
                ),
                self.ledger@ == replay(banks0, broker_secret@, ms.subrange(0, i as int), ks),
            decreases msgs@.len() - i,
        {
            let msg = &msgs[i];
            let ghost banks_before = self.ledger@;
            self.note_bank(msg);
            self.load_message(broker_secret, msg);
            proof {
                let k = choose|k: (Seq<u8>, Seq<u8>, Seq<u8>, Seq<u8>)|
                    self.ledger@ == load_model(banks_before, broker_secret@, msg@, k);
                let nks = ks.push(k);
                let sub = ms.subrange(0, i + 1);
                assert(sub.drop_last() =~= ms.subrange(0, i as int));
                assert(nks.drop_last() =~= ks);
                assert(sub.last() == msg@);
                ks = nks;
            }
            i = i + 1;
        }
        assert(ms.subrange(0, i as int) =~= ms);
        assert forall|b: Seq<(Seq<char>, BankLedgerModel)>|
            banks0.len() == 0 && #[trigger] all_restorable(b, broker_secret@) && ms == all_messages(b)
            implies self.ledger@ == b by {
            assert(banks0 =~= Seq::<(Seq<char>, BankLedgerModel)>::empty());
            law_restore_of_snapshot(b, broker_secret@, ks);
        }
        proof {
            if ledgers_distinct(banks0) {
                law_restore_keeps_one_ledger_per_bank(banks0, broker_secret@, ms, ks);
            }
        }
    }

    /// All recorded messages, bank after bank, each journal in its order, to be saved.
    pub fn snapshot(&self) -> (r: Vec<LedgerMessage>)
        ensures
            message_views(r@) == all_messages(self.ledger@),
    {
        let mut r: Vec<LedgerMessage> = Vec::new();
        let mut b: usize = 0;
        assert(self.ledger@.subrange(0, 0) =~= Seq::<(Seq<char>, BankLedgerModel)>::empty());
        assert(message_views(r@) =~= Seq::<MessageModel>::empty());
        while b < self.ledger.banks.len()
            invariant
                0 <= b <= self.ledger.banks@.len(),
                self.ledger@.len() == self.ledger.banks@.len(),
                message_views(r@) == all_messages(
                    self.ledger@.subrange(0, b as int),
                ),
            decreases self.ledger.banks@.len() - b,
        {
            let entries = &self.ledger.banks[b].1.entries;
            let ghost l = self.ledger@[b as int].1;
            let ghost start = message_views(r@);
            let n = journal_len(entries);
            let mut i: usize = 0;
            while i < n
                invariant
                    0 <= i <= n,
                    n == journal(*entries).len(),
                    l.entries == journal_view(journal(*entries)),
                    message_views(r@) == start + l.entries.subrange(0, i as int).map_values(
                        |p: (Seq<char>, MessageModel)| p.1,
                    ),
                decreases n - i,
            {
                let ghost before = message_views(r@);
                match crate::journal::journal_get_index(entries, i) {
                    Some(p) => {
                        r.push(p.1.clone());
                    },
                    None => {},
                }
                proof {
                    assert(l.entries[i as int].1 == journal(*entries)[i as int].1@);
                    assert(message_views(r@) =~= before.push(l.entries[i as int].1));
                    assert(l.entries.subrange(0, i + 1).map_values(
                        |p: (Seq<char>, MessageModel)| p.1,
                    ) =~= l.entries.subrange(0, i as int).map_values(
                        |p: (Seq<char>, MessageModel)| p.1,
                    ).push(l.entries[i as int].1));
                }
                i = i + 1;
                assert(message_views(r@) =~= start + l.entries.subrange(
                    0,
                    i as int,
                ).map_values(|p: (Seq<char>, MessageModel)| p.1));
            }
            proof {
                let sub = self.ledger@.subrange(0, b + 1);
                assert(sub.drop_last() =~= self.ledger@.subrange(0, b as int));
                assert(l.entries.subrange(0, i as int) =~= l.entries);
            }
            b = b + 1;
        }
        assert(self.ledger@.subrange(0, b as int) =~= self.ledger@);
        r
    }
}

/// Whether a journal can be saved and put back as it is: it opens the bank
/// with the secret its ledger keeps, every message is kept under its broker
/// signature and names the bank `id`, and no two share a key.
pub open spec fn restorable(id: Seq<char>, l: BankLedgerModel) -> bool {
    &&& opens_with_own_secret(l)
    &&& distinct_keys(l.entries)
    &&& forall|i: int|
        0 <= i < l.entries.len() ==> {
            &&& (#[trigger] l.entries[i]).0 == l.entries[i].1.broker_signature
            &&& l.entries[i].1.header.bank_id == id
        }
}

/// A journal as the broker keeps it, a signed chain that opens the bank with
/// its own secret, can be saved and put back.
pub proof fn law_kept_journal_is_restorable(id: Seq<char>, l: BankLedgerModel)
    requires
        well_kept(id, l),
    ensures
        restorable(id, l),
{
    assert forall|i: int| 0 <= i < l.entries.len() implies {
        &&& (#[trigger] l.entries[i]).0 == l.entries[i].1.broker_signature
        &&& l.entries[i].1.header.bank_id == id
    } by {
        assert(link_holds(id, l, i));
    }
}

/// What a ledger holds of a journal after its first `n` saved messages are
/// put back: a fresh ledger with the bank secret `k` before the first, the
/// journal's prefix afterwards.
pub open spec fn loaded_before(
    src: BankLedgerModel,
    k: (Seq<u8>, Seq<u8>, Seq<u8>, Seq<u8>),
    n: int,
) -> BankLedgerModel {
    if n == 0 {
        fresh_ledger(src.broker_secret, k)
    } else {
        before_entry(src, n)
    }
}

/// Putting back the next saved message of a journal that can be restored
/// gives one more message of it.
proof fn lemma_load_step(
    id: Seq<char>,
    src: BankLedgerModel,
    k: (Seq<u8>, Seq<u8>, Seq<u8>, Seq<u8>),
    n: int,
)
    requires
        restorable(id, src),
        0 <= n < src.entries.len(),
    ensures
        load_into(loaded_before(src, k, n), messages_of(src)[n]) == before_entry(src, n + 1),
{
    let l = loaded_before(src, k, n);
    let m = messages_of(src)[n];
    assert(l.entries =~= src.entries.take(n));
    assert(src.entries[n].0 == m.broker_signature);
    let l1 = with_opening_secret(l, m);
    assert(l1 == before_entry(src, n)) by {
        if n == 0 {
            assert(l1.entries =~= src.entries.take(0));
        }
    }
    lemma_key_index_from(l1.entries, m.broker_signature, 0);
    assert(key_index_from(l1.entries, m.broker_signature, 0) is None) by {
        match key_index_from(l1.entries, m.broker_signature, 0) {
            Some(i) => {
                assert(src.entries[i].0 != src.entries[n].0);
            },
            None => {},
        }
    }
    assert(l1.entries.push((m.broker_signature, m)) =~= src.entries.take(n + 1));
}

/// Putting back saved messages in two runs, one after the other, is putting
/// back their concatenation.
proof fn lemma_replay_concat(
    banks: Seq<(Seq<char>, BankLedgerModel)>,
    broker: (Seq<u8>, Seq<u8>, Seq<u8>, Seq<u8>),
    ms1: Seq<MessageModel>,
    ks1: Seq<(Seq<u8>, Seq<u8>, Seq<u8>, Seq<u8>)>,
    ms2: Seq<MessageModel>,
    ks2: Seq<(Seq<u8>, Seq<u8>, Seq<u8>, Seq<u8>)>,
)
    requires
        ks1.len() == ms1.len(),
        ks2.len() == ms2.len(),
    ensures
        replay(banks, broker, ms1 + ms2, ks1 + ks2) == replay(
            replay(banks, broker, ms1, ks1),
            broker,
            ms2,
            ks2,
        ),
    decreases ms2.len(),
{
    if ms2.len() == 0 {
        assert(ms1 + ms2 =~= ms1);
        assert(ks1 + ks2 =~= ks1);
    } else {
        lemma_replay_concat(banks, broker, ms1, ks1, ms2.drop_last(), ks2.drop_last());
        assert((ms1 + ms2).drop_last() =~= ms1 + ms2.drop_last());
        assert((ks1 + ks2).drop_last() =~= ks1 + ks2.drop_last());
    }
}

/// Putting back the first `n` saved messages of a journal into ledgers that
/// do not know the bank appends the journal's prefix.
proof fn lemma_restore_prefix(
    banks: Seq<(Seq<char>, BankLedgerModel)>,
    id: Seq<char>,
    src: BankLedgerModel,
    ks: Seq<(Seq<u8>, Seq<u8>, Seq<u8>, Seq<u8>)>,
    n: int,
)
    requires
        bank_index(banks, id) is None,
        restorable(id, src),
        ks.len() == src.entries.len(),
        1 <= n <= src.entries.len(),
    ensures
        replay(banks, src.broker_secret, messages_of(src).take(n), ks.take(n)) == banks.push(
            (id, before_entry(src, n)),
        ),
    decreases n,
{
    let ms = messages_of(src);
    let b = src.broker_secret;
    let msn = ms.take(n);
    let ksn = ks.take(n);
    let prev = replay(banks, b, ms.take(n - 1), ks.take(n - 1));
    assert(msn.drop_last() =~= ms.take(n - 1));
    assert(ksn.drop_last() =~= ks.take(n - 1));
    assert(msn.last() == ms[n - 1]);
    assert(ksn.last() == ks[n - 1]);
    assert(replay(banks, b, msn, ksn) == load_model(prev, b, ms[n - 1], ks[n - 1]));
    assert(ms[n - 1].header.bank_id == id);
    lemma_load_step(id, src, ks[n - 1], n - 1);
    if n == 1 {
        assert(ms.take(0) =~= Seq::<MessageModel>::empty());
        assert(ks.take(0) =~= Seq::<(Seq<u8>, Seq<u8>, Seq<u8>, Seq<u8>)>::empty());
        assert(prev == banks);
        assert(loaded_before(src, ks[0], 0) == fresh_ledger(b, ks[0]));
    } else {
        lemma_restore_prefix(banks, id, src, ks, n - 1);
        assert(prev == banks.push((id, before_entry(src, n - 1))));
        lemma_index_push(banks, id, before_entry(src, n - 1), id);
        assert(bank_index(prev, id) == Some(banks.len() as int));
        assert(prev.update(banks.len() as int, (id, before_entry(src, n))) =~= banks.push(
            (id, before_entry(src, n)),
        ));
    }
}

/// Putting back the saved messages of a journal into ledgers that do not know
/// the bank appends exactly that ledger, whatever secrets the banks first
/// heard of are given.
pub proof fn law_restore_appends_journal(
    banks: Seq<(Seq<char>, BankLedgerModel)>,
    id: Seq<char>,
    src: BankLedgerModel,
    ks: Seq<(Seq<u8>, Seq<u8>, Seq<u8>, Seq<u8>)>,
)
    requires
        bank_index(banks, id) is None,
        restorable(id, src),
        src.entries.len() > 0,
        ks.len() == src.entries.len(),
    ensures
        replay(banks, src.broker_secret, messages_of(src), ks) == banks.push((id, src)),
{
    let n = src.entries.len() as int;
    lemma_restore_prefix(banks, id, src, ks, n);
    assert(messages_of(src).take(n) =~= messages_of(src));
    assert(ks.take(n) =~= ks);
    assert(src.entries.take(n) =~= src.entries);
}

/// Whether every ledger is kept with the broker's secret `broker`, holds at
/// least one message and can be saved and put back, and no two ledgers share
/// a bank.
pub open spec fn all_restorable(
    banks: Seq<(Seq<char>, BankLedgerModel)>,
    broker: (Seq<u8>, Seq<u8>, Seq<u8>, Seq<u8>),
) -> bool {
    &&& forall|i: int|
        0 <= i < banks.len() ==> {
            &&& (#[trigger] banks[i]).1.broker_secret == broker
            &&& banks[i].1.entries.len() > 0
            &&& restorable(banks[i].0, banks[i].1)
        }
    &&& ledgers_distinct(banks)
}

/// What `snapshot` saves, put back by `restore` into an empty state, gives
/// back every ledger in its place, whatever secrets the banks first heard of
/// are given.
pub proof fn law_restore_of_snapshot(
    banks: Seq<(Seq<char>, BankLedgerModel)>,
    broker: (Seq<u8>, Seq<u8>, Seq<u8>, Seq<u8>),
    ks: Seq<(Seq<u8>, Seq<u8>, Seq<u8>, Seq<u8>)>,
)
    requires
        all_restorable(banks, broker),
        ks.len() == all_messages(banks).len(),
    ensures
        replay(Seq::empty(), broker, all_messages(banks), ks) == banks,
    decreases banks.len(),
{
    if banks.len() == 0 {
    } else {
        let prefix = banks.drop_last();
        let last = banks.last();
        let n1 = all_messages(prefix).len() as int;
        let ks1 = ks.take(n1);
        let ks2 = ks.skip(n1);
        assert(ks1 + ks2 =~= ks);
        assert(all_restorable(prefix, broker)) by {
            assert forall|i: int| 0 <= i < prefix.len() implies {
                &&& (#[trigger] prefix[i]).1.broker_secret == broker
                &&& prefix[i].1.entries.len() > 0
                &&& restorable(prefix[i].0, prefix[i].1)
            } by {
                assert(prefix[i] == banks[i]);
            }
            assert forall|i: int, j: int| 0 <= i < j < prefix.len() implies (#[trigger] prefix[i]).0
                != (#[trigger] prefix[j]).0 by {
                assert(banks[i].0 != banks[j].0);
            }
        }
        law_restore_of_snapshot(prefix, broker, ks1);
        lemma_replay_concat(Seq::empty(), broker, all_messages(prefix), ks1, messages_of(last.1), ks2);
        assert(banks[banks.len() - 1] == last);
        lemma_index_from(prefix, last.0, 0);
        assert(bank_index(prefix, last.0) is None) by {
            match bank_index(prefix, last.0) {
                Some(i) => {
                    assert(banks[i].0 != banks[banks.len() - 1].0);
                },
                None => {},
            }
        }
        law_restore_appends_journal(prefix, last.0, last.1, ks2);
        assert(prefix.push(last) =~= banks);
    }
}

/// The journal a ledger keeps for the bank `id`; none for a bank not known.
pub open spec fn journal_of(
    banks: Seq<(Seq<char>, BankLedgerModel)>,
    id: Seq<char>,
) -> Seq<(Seq<char>, MessageModel)> {
    match lookup(banks, id) {
        Some(l) => l.entries,
        None => Seq::empty(),
    }
}

/// A message already kept in its bank's journal is refused, and nothing changes.
pub proof fn law_duplicate_refused(
    banks: Seq<(Seq<char>, BankLedgerModel)>,
    broker: (Seq<u8>, Seq<u8>, Seq<u8>, Seq<u8>),
    m: MessageModel,
    accepted: bool,
    after: Seq<(Seq<char>, BankLedgerModel)>,
)
    requires
        processed(banks, broker, m, accepted, after),
        has_key(journal_of(banks, m.header.bank_id), m.broker_signature),
    ensures
        !accepted,
        after == banks,
{
    lemma_index_from(banks, m.header.bank_id, 0);
    let i = bank_index(banks, m.header.bank_id).unwrap();
    assert(banks.update(i, (banks[i].0, banks[i].1)) =~= banks);
}

/// Taking in a message from another broker records nothing: every journal
/// stays as it was, the other banks keep their ledgers, and every ledger that
/// was a signed chain still is.
pub proof fn law_taking_in_keeps_journals(
    banks: Seq<(Seq<char>, BankLedgerModel)>,
    broker: (Seq<u8>, Seq<u8>, Seq<u8>, Seq<u8>),
    m: MessageModel,
    accepted: bool,
    after: Seq<(Seq<char>, BankLedgerModel)>,
)
    requires
        processed(banks, broker, m, accepted, after),
    ensures
        !accepted,
        journal_of(after, m.header.bank_id) == journal_of(banks, m.header.bank_id),
        forall|other: Seq<char>| other != m.header.bank_id ==> #[trigger] lookup(after, other) == lookup(banks, other),
        all_chained(banks) ==> all_chained(after),
{
    let id = m.header.bank_id;
    lemma_index_from(banks, id, 0);
    match bank_index(banks, id) {
        Some(i) => {
            let l2 = accept(banks[i].1, m).1;
            assert(l2.entries == banks[i].1.entries);
            assert forall|other: Seq<char>| #[trigger] bank_index(after, other) == bank_index(banks, other) by {
                lemma_index_update(banks, i, l2, other);
            }
            assert(lookup(after, id) == Some(l2));
            if all_chained(banks) {
                assert forall|j: int| 0 <= j < after.len() implies #[trigger] chained(after[j].0, after[j].1) by {
                    assert(chained(banks[j].0, banks[j].1));
                    if j == i && banks[i].1.entries.len() > 0 {
                        assert(l2 == banks[i].1);
                    }
                }
            }
            assert forall|other: Seq<char>| other != id implies #[trigger] lookup(after, other) == lookup(banks, other) by {
                lemma_index_from(banks, other, 0);
                assert(bank_index(after, other) == bank_index(banks, other));
            }
        },
        None => {
            let k = choose|k: (Seq<u8>, Seq<u8>, Seq<u8>, Seq<u8>)|
                {
                    &&& accepted == accept(fresh_ledger(broker, k), m).0
                    &&& after == #[trigger] banks.push(
                        (m.header.bank_id, accept(fresh_ledger(broker, k), m).1),
                    )
                };
            let l2 = accept(fresh_ledger(broker, k), m).1;
            assert(l2.entries.len() == 0);
            assert forall|other: Seq<char>| #[trigger] bank_index(after, other) == (if other == id {
                Some(banks.len() as int)
            } else {
                bank_index(banks, other)
            }) by {
                lemma_index_push(banks, id, l2, other);
            }
            assert(lookup(after, id) == Some(l2));
            if all_chained(banks) {
                assert forall|j: int| 0 <= j < after.len() implies #[trigger] chained(after[j].0, after[j].1) by {
                    if j < banks.len() {
                        assert(after[j] == banks[j]);
                        assert(chained(banks[j].0, banks[j].1));
                    }
                }
            }
            assert forall|other: Seq<char>| other != id implies #[trigger] lookup(after, other) == lookup(banks, other) by {
                assert(bank_index(after, other) == bank_index(banks, other));
                lemma_index_from(banks, other, 0);
            }
        },
    }
}

/// Whether no name occurs twice.
pub open spec fn names_distinct(names: Seq<Seq<char>>) -> bool {
    forall|i: int, j: int| 0 <= i < j < names.len() ==> (#[trigger] names[i]) != (#[trigger] names[j])
}
/// The names of the banks seen never hold a bank twice: noting the banks that
/// messages state keeps them distinct.
pub proof fn law_bank_names_stay_distinct(names: Seq<Seq<char>>, ms: Seq<MessageModel>)
    requires
        names_distinct(names),
    ensures
        names_distinct(names_after_all(names, ms)),
    decreases ms.len(),
{
    if ms.len() > 0 {
        law_bank_names_stay_distinct(names, ms.drop_last());
        let before = names_after_all(names, ms.drop_last());
        let after = names_after(before, ms.last());
        assert forall|i: int, j: int| 0 <= i < j < after.len() implies (#[trigger] after[i]) != (#[trigger] after[j]) by {
            if after.len() > before.len() {
                if j == before.len() {
                    assert(after[i] == before[i]);
                    assert(before.contains(after[j]) ==> false);
                    assert(before[i] == after[i]);
                } else {
                    assert(after[i] == before[i] && after[j] == before[j]);
                }
            }
        }
    }
}

/// Taking in a message keeps one ledger per bank.
proof fn lemma_process_keeps_ledgers_distinct(
    banks: Seq<(Seq<char>, BankLedgerModel)>,
    broker: (Seq<u8>, Seq<u8>, Seq<u8>, Seq<u8>),
    m: MessageModel,
    k: (Seq<u8>, Seq<u8>, Seq<u8>, Seq<u8>),
)
    requires
        ledgers_distinct(banks),
    ensures
        ledgers_distinct(process_model(banks, broker, m, k)),
{
    let id = m.header.bank_id;
    let after = process_model(banks, broker, m, k);
    lemma_index_from(banks, id, 0);
    assert forall|i: int, j: int| 0 <= i < j < after.len() implies (#[trigger] after[i]).0 != (#[trigger] after[j]).0 by {
        match bank_index(banks, id) {
            Some(x) => {
                assert(after[i].0 == banks[i].0 && after[j].0 == banks[j].0);
            },
            None => {
                if j == banks.len() {
                    assert(after[i] == banks[i]);
                } else {
                    assert(after[i] == banks[i] && after[j] == banks[j]);
                }
            },
        }
    }
}

/// Putting back a saved message keeps one ledger per bank.
proof fn lemma_load_keeps_ledgers_distinct(
    banks: Seq<(Seq<char>, BankLedgerModel)>,
    broker: (Seq<u8>, Seq<u8>, Seq<u8>, Seq<u8>),
    m: MessageModel,
    k: (Seq<u8>, Seq<u8>, Seq<u8>, Seq<u8>),
)
    requires
        ledgers_distinct(banks),
    ensures
        ledgers_distinct(load_model(banks, broker, m, k)),
{
    let id = m.header.bank_id;
    let after = load_model(banks, broker, m, k);
    lemma_index_from(banks, id, 0);
    assert forall|i: int, j: int| 0 <= i < j < after.len() implies (#[trigger] after[i]).0 != (#[trigger] after[j]).0 by {
        match bank_index(banks, id) {
            Some(x) => {
                assert(after[i].0 == banks[i].0 && after[j].0 == banks[j].0);
            },
            None => {
                if j == banks.len() {
                    assert(after[i] == banks[i]);
                } else {
                    assert(after[i] == banks[i] && after[j] == banks[j]);
                }
            },
        }
    }
}

/// The broker keeps one ledger per bank: taking in messages one after the
/// other, as restoring does, keeps it so.
pub proof fn law_restore_keeps_one_ledger_per_bank(
    banks: Seq<(Seq<char>, BankLedgerModel)>,
    broker: (Seq<u8>, Seq<u8>, Seq<u8>, Seq<u8>),
    ms: Seq<MessageModel>,
    ks: Seq<(Seq<u8>, Seq<u8>, Seq<u8>, Seq<u8>)>,
)
    requires
        ledgers_distinct(banks),
    ensures
        ledgers_distinct(replay(banks, broker, ms, ks)),
    decreases ms.len(),
{
    if ms.len() > 0 && ks.len() == ms.len() {
        law_restore_keeps_one_ledger_per_bank(banks, broker, ms.drop_last(), ks.drop_last());
        lemma_load_keeps_ledgers_distinct(
            replay(banks, broker, ms.drop_last(), ks.drop_last()),
            broker,
            ms.last(),
            ks.last(),
        );
    }
}

} // verus!
