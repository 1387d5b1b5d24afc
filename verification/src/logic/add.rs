use vstd::prelude::*;

use crate::bank_id::BankId;
use crate::error::LedgerError;
use crate::journal::{journal, journal_insert, keys_distinct};
use crate::ledger::{
    bank_index, header_layout, journal_view, ledgers_distinct, lemma_index_from,
    lemma_index_update, lookup, tail_of, BankLedgerModel, HeaderModel, Ledger, LedgerBrokerHeader,
    LedgerMessage, MessageModel,
};
use crate::ledger_type::{entry_layout, EntryModel, LedgerEntry};
use crate::secret::signature_hash;
use crate::signature::LedgerSignature;

verus! {

/// The position of the first pair at or after `from` whose key is `k`.
pub open spec fn key_index_from(entries: Seq<(Seq<char>, MessageModel)>, k: Seq<char>, from: int) -> Option<
    int,
>
    decreases entries.len() - from,
{
    if from < 0 || from >= entries.len() {
        None
    } else if entries[from].0 == k {
        Some(from)
    } else {
        key_index_from(entries, k, from + 1)
    }
}

/// What `key_index_from` finds: the first pair with the key from `from` on.
pub proof fn lemma_key_index_from(entries: Seq<(Seq<char>, MessageModel)>, k: Seq<char>, from: int)
    requires
        0 <= from,
    ensures
        match key_index_from(entries, k, from) {
            Some(i) => {
                &&& from <= i < entries.len()
                &&& entries[i].0 == k
                &&& forall|j: int| from <= j < i ==> entries[j].0 != k
            },
            None => forall|j: int| from <= j < entries.len() ==> entries[j].0 != k,
        },
    decreases entries.len() - from,
{
    if from < entries.len() && entries[from].0 != k {
        lemma_key_index_from(entries, k, from + 1);
    }
}

/// The journal after recording `m` under its broker signature: a message with
/// a known key replaces the one stored under it, in place; another is appended.
pub open spec fn recorded(entries: Seq<(Seq<char>, MessageModel)>, m: MessageModel) -> Seq<
    (Seq<char>, MessageModel),
> {
    match key_index_from(entries, m.broker_signature, 0) {
        Some(i) => entries.update(i, (entries[i].0, m)),
        None => entries.push((m.broker_signature, m)),
    }
}

/// The header that the broker puts over `entry` for the bank `id` whose ledger is `l`.
pub open spec fn signed_header(l: BankLedgerModel, id: Seq<char>, entry: EntryModel) -> HeaderModel {
    HeaderModel {
        bank_id: id,
        prev_signature: tail_of(l.entries),
        bank_signature: signature_hash(l.bank_secret, entry_layout(entry)),
    }
}

/// The message that records `entry` for the bank `id` whose ledger is `l`.
pub open spec fn signed_message(l: BankLedgerModel, id: Seq<char>, entry: EntryModel) -> MessageModel {
    let header = signed_header(l, id, entry);
    MessageModel {
        header,
        broker_signature: signature_hash(l.broker_secret, header_layout(header)),
        entry,
    }
}

/// The ledger of a bank after it records `m`.
pub open spec fn with_recorded(l: BankLedgerModel, m: MessageModel) -> BankLedgerModel {
    BankLedgerModel { entries: recorded(l.entries, m), ..l }
}

/// What adding `entry`, signed `sig`, for the bank `id` gives: the ledgers
/// after and the message recorded, or the error.
pub open spec fn add_outcome(
    banks: Seq<(Seq<char>, BankLedgerModel)>,
    id: Seq<char>,
    entry: EntryModel,
    sig: Seq<char>,
) -> Result<(Seq<(Seq<char>, BankLedgerModel)>, MessageModel), LedgerError> {
    match bank_index(banks, id) {
        None => Err(LedgerError::UnknownBank),
        Some(i) => {
            let l = banks[i].1;
            if sig != signature_hash(l.bank_secret, entry_layout(entry)) {
                Err(LedgerError::InvalidBankSignature)
            } else {
                let m = signed_message(l, id, entry);
                Ok((banks.update(i, (banks[i].0, with_recorded(l, m))), m))
            }
        },
    }
}

/// The messages sent after one more is sent.
pub open spec fn sent_after(
    before: Seq<LedgerMessage>,
    after: Seq<LedgerMessage>,
    m: MessageModel,
) -> bool {
    &&& after.len() == before.len() + 1
    &&& after.subrange(0, before.len() as int) == before
    &&& after.last()@ == m
}

/// The view of a journal after an insertion, as the insertion's contract gives it.
pub proof fn lemma_insert_view(
    old_j: Seq<(LedgerSignature, LedgerMessage)>,
    new_j: Seq<(LedgerSignature, LedgerMessage)>,
    k: LedgerSignature,
    v: LedgerMessage,
    existed: bool,
)
    requires
        keys_distinct(old_j),
        k@ == v@.broker_signature,
        existed ==> exists|i: int|
            0 <= i < old_j.len() && (#[trigger] old_j[i]).0@ == k@ && new_j == old_j.update(
                i,
                (old_j[i].0, v),
            ),
        !existed ==> (forall|i: int| 0 <= i < old_j.len() ==> (#[trigger] old_j[i]).0@ != k@)
            && new_j == old_j.push((k, v)),
    ensures
        journal_view(new_j) == recorded(journal_view(old_j), v@),
{
    let ov = journal_view(old_j);
    lemma_key_index_from(ov, k@, 0);
    if existed {
        let i = choose|i: int|
            0 <= i < old_j.len() && (#[trigger] old_j[i]).0@ == k@ && new_j == old_j.update(
                i,
                (old_j[i].0, v),
            );
        assert(ov[i].0 == k@);
        match key_index_from(ov, k@, 0) {
            Some(j) => {
                if j != i {
                    if j < i {
                        assert(old_j[j].0@ != old_j[i].0@);
                    } else {
                        assert(old_j[i].0@ != old_j[j].0@);
                    }
                }
                assert(journal_view(new_j) =~= ov.update(i, (ov[i].0, v@)));
            },
            None => {},
        }
    } else {
        match key_index_from(ov, k@, 0) {
            Some(j) => {
                assert(old_j[j].0@ == k@);
            },
            None => {
                assert(journal_view(new_j) =~= ov.push((k@, v@)));
            },
        }
    }
}

impl Ledger {
    /// Records `entry` for the bank `bank_id`, provided `verify_signature` is the
    /// bank's signature of it; the broker signs a header that links the entry
    /// to the previous one. The message recorded is also sent.
    pub fn add(
        &mut self,
        bank_id: BankId,
        entry: LedgerEntry,
        verify_signature: LedgerSignature,
        sent: &mut Vec<LedgerMessage>,
    ) -> (r: Result<(), LedgerError>)
        ensures
            match add_outcome(old(self)@, bank_id@, entry@, verify_signature@) {
                Ok((banks, m)) => {
                    &&& r is Ok
                    &&& final(self)@ == banks
                    &&& sent_after(old(sent)@, final(sent)@, m)
                },
                Err(e) => {
                    &&& r == Err::<(), LedgerError>(e)
                    &&& final(self)@ == old(self)@
                    &&& final(sent)@ == old(sent)@
                },
            },
            ledgers_distinct(old(self)@) ==> ledgers_distinct(final(self)@),
    {
        let ghost old_banks = self@;
        let ghost args = (bank_id@, entry@, verify_signature@);
        proof {
            lemma_index_from(old_banks, bank_id@, 0);
        }
        let ghost idx = bank_index(old_banks, bank_id@);
        let ledger = match self.ledger_mut_for(bank_id.clone()) {
            Some(l) => l,
            None => {
                return Err(LedgerError::UnknownBank);
            },
        };
        let ghost l0 = ledger@;
        let bank_signature = ledger.bank_secret.sign(&entry);
        if bank_signature != verify_signature {
            return Err(LedgerError::InvalidBankSignature);
        }
        let header = LedgerBrokerHeader {
            bank_id,
            prev_signature: ledger.tail_signature(),
            bank_signature,
        };
        let broker_signature = ledger.broker_secret.sign(&header);
        let msg = LedgerMessage { broker_signature: broker_signature.clone(), header, entry };
        let ghost m = msg@;
        assert(m == signed_message(l0, bank_id@, entry@));
        sent.push(msg.clone());
        let ghost old_j = journal(ledger.entries);
        let prior = journal_insert(&mut ledger.entries, broker_signature, msg);
        proof {
            lemma_insert_view(old_j, journal(ledger.entries), broker_signature, msg, prior is Some);
            assert(ledger@ == with_recorded(l0, m));
            assert(sent@.subrange(0, old(sent)@.len() as int) =~= old(sent)@);
            law_recording_keeps_other_banks(old_banks, args.0, args.1, args.2);
        }
        Ok(())
    }
}

/// The ledger as it stood before its `i`-th entry was recorded.
pub open spec fn before_entry(l: BankLedgerModel, i: int) -> BankLedgerModel {
    BankLedgerModel { entries: l.entries.take(i), ..l }
}

/// Whether the `i`-th pair of the journal of the bank `id` is the message the
/// broker records for its entry on the journal before it, kept under its
/// broker signature.
pub open spec fn link_holds(id: Seq<char>, l: BankLedgerModel, i: int) -> bool {
    let m = signed_message(before_entry(l, i), id, l.entries[i].1.entry);
    l.entries[i] == (m.broker_signature, m)
}

/// Whether the journal of the bank `id` is a signed chain: every message names
/// the bank, links to the key of the message before it (the first one to the
/// empty text), carries the bank's signature of its entry and the broker's
/// signature of its header, and is kept under that broker signature.
pub open spec fn chained(id: Seq<char>, l: BankLedgerModel) -> bool {
    forall|i: int| 0 <= i < l.entries.len() ==> #[trigger] link_holds(id, l, i)
}

/// Whether every ledger is a signed chain for its bank.
pub open spec fn all_chained(banks: Seq<(Seq<char>, BankLedgerModel)>) -> bool {
    forall|i: int| 0 <= i < banks.len() ==> #[trigger] chained(banks[i].0, banks[i].1)
}

/// Whether a journal, when it holds anything, opens with the bank's opening
/// entry carrying the bank secret that its ledger keeps.
pub open spec fn opens_with_own_secret(l: BankLedgerModel) -> bool {
    l.entries.len() > 0 ==> (l.entries[0].1.entry matches EntryModel::NewBank { bank_secret, .. }
        && bank_secret == l.bank_secret)
}

/// Whether no two pairs of a journal share a key.
pub open spec fn distinct_keys(entries: Seq<(Seq<char>, MessageModel)>) -> bool {
    forall|i: int, j: int|
        0 <= i < j < entries.len() ==> (#[trigger] entries[i]).0 != (#[trigger] entries[j]).0
}

/// Whether the ledger of the bank `id` is as the broker keeps it: a signed
/// chain that opens the bank with its own secret, with distinct keys.
pub open spec fn well_kept(id: Seq<char>, l: BankLedgerModel) -> bool {
    &&& chained(id, l)
    &&& opens_with_own_secret(l)
    &&& distinct_keys(l.entries)
}

/// Appending the message the broker signs over a journal keeps it a signed chain.
pub proof fn lemma_push_keeps_chain(id: Seq<char>, l: BankLedgerModel, m: MessageModel)
    requires
        chained(id, l),
        m == signed_message(l, id, m.entry),
    ensures
        chained(id, BankLedgerModel { entries: l.entries.push((m.broker_signature, m)), ..l }),
{
    let l2 = BankLedgerModel { entries: l.entries.push((m.broker_signature, m)), ..l };
    assert forall|j: int| 0 <= j < l2.entries.len() implies #[trigger] link_holds(id, l2, j) by {
        if j < l.entries.len() {
            assert(link_holds(id, l, j));
            assert(before_entry(l2, j) == before_entry(l, j)) by {
                assert(l2.entries.take(j) =~= l.entries.take(j));
            }
        } else {
            assert(before_entry(l2, j) == l) by {
                assert(l2.entries.take(j) =~= l.entries);
            }
        }
    }
}

/// Appending a pair under a key not yet in the journal keeps the keys distinct.
proof fn lemma_push_distinct(entries: Seq<(Seq<char>, MessageModel)>, p: (Seq<char>, MessageModel))
    requires
        distinct_keys(entries),
        key_index_from(entries, p.0, 0) is None,
    ensures
        distinct_keys(entries.push(p)),
{
    let e2 = entries.push(p);
    lemma_key_index_from(entries, p.0, 0);
    assert forall|x: int, y: int| 0 <= x < y < e2.len() implies (#[trigger] e2[x]).0
        != (#[trigger] e2[y]).0 by {
        assert(e2[x] == entries[x]);
        if y < entries.len() {
            assert(e2[y] == entries[y]);
            assert(entries[x].0 != entries[y].0);
        }
    }
}

/// Appending a pair to a journal that is not empty, under a key not yet in
/// it, when the result is still a signed chain, keeps a ledger as the broker
/// keeps it.
pub proof fn lemma_push_keeps_well_kept(id: Seq<char>, l: BankLedgerModel, p: (Seq<char>, MessageModel))
    requires
        well_kept(id, l),
        l.entries.len() > 0,
        chained(id, BankLedgerModel { entries: l.entries.push(p), ..l }),
        key_index_from(l.entries, p.0, 0) is None,
    ensures
        well_kept(id, BankLedgerModel { entries: l.entries.push(p), ..l }),
{
    let l2 = BankLedgerModel { entries: l.entries.push(p), ..l };
    lemma_push_distinct(l.entries, p);
    assert(l2.entries[0] == l.entries[0]);
}

/// Recording a message under a key not yet in the journal keeps every ledger a
/// signed chain, and keeps the bank's ledger, once opened, as the broker keeps
/// it; a read of the bank afterwards gives back its journal with the message
/// appended.
pub proof fn law_recording_extends_chain(
    banks: Seq<(Seq<char>, BankLedgerModel)>,
    id: Seq<char>,
    entry: EntryModel,
    sig: Seq<char>,
)
    requires
        all_chained(banks),
        add_outcome(banks, id, entry, sig) is Ok,
        key_index_from(
            lookup(banks, id).unwrap().entries,
            add_outcome(banks, id, entry, sig).unwrap().1.broker_signature,
            0,
        ) is None,
    ensures
        ({
            let (after, m) = add_outcome(banks, id, entry, sig).unwrap();
            let l = lookup(banks, id).unwrap();
            &&& all_chained(after)
            &&& well_kept(id, l) && l.entries.len() > 0 ==> well_kept(
                id,
                lookup(after, id).unwrap(),
            )
            &&& lookup(after, id) == Some(
                BankLedgerModel { entries: l.entries.push((m.broker_signature, m)), ..l },
            )
        }),
{
    lemma_index_from(banks, id, 0);
    let i = bank_index(banks, id).unwrap();
    let l = banks[i].1;
    let (after, m) = add_outcome(banks, id, entry, sig).unwrap();
    let l2 = with_recorded(l, m);
    assert(l2 == BankLedgerModel { entries: l.entries.push((m.broker_signature, m)), ..l });
    assert(chained(banks[i].0, banks[i].1));
    lemma_push_keeps_chain(id, l, m);
    if well_kept(id, l) && l.entries.len() > 0 {
        lemma_push_keeps_well_kept(id, l, (m.broker_signature, m));
    }
    lemma_index_update(banks, i, l2, id);
    assert forall|j: int| 0 <= j < after.len() implies #[trigger] chained(after[j].0, after[j].1) by {
        if j != i {
            assert(chained(banks[j].0, banks[j].1));
        }
    }
}

/// Recording an entry changes the journal of its bank only: every bank keeps
/// its name and place, the other banks their ledgers, and one ledger per bank
/// stays one ledger per bank.
pub proof fn law_recording_keeps_other_banks(
    banks: Seq<(Seq<char>, BankLedgerModel)>,
    id: Seq<char>,
    entry: EntryModel,
    sig: Seq<char>,
)
    requires
        add_outcome(banks, id, entry, sig) is Ok,
    ensures
        ({
            let after = add_outcome(banks, id, entry, sig).unwrap().0;
            &&& after.len() == banks.len()
            &&& forall|j: int| 0 <= j < banks.len() ==> (#[trigger] after[j]).0 == banks[j].0
            &&& forall|other: Seq<char>| other != id ==> #[trigger] lookup(after, other)
                == lookup(banks, other)
            &&& ledgers_distinct(banks) ==> ledgers_distinct(after)
        }),
{
    lemma_index_from(banks, id, 0);
    let i = bank_index(banks, id).unwrap();
    let (after, m) = add_outcome(banks, id, entry, sig).unwrap();
    assert forall|other: Seq<char>| other != id implies #[trigger] lookup(after, other)
        == lookup(banks, other) by {
        lemma_index_update(banks, i, with_recorded(banks[i].1, m), other);
        lemma_index_from(banks, other, 0);
    }
    if ledgers_distinct(banks) {
        assert forall|x: int, y: int| 0 <= x < y < after.len() implies (#[trigger] after[x]).0
            != (#[trigger] after[y]).0 by {
            assert(after[x].0 == banks[x].0 && after[y].0 == banks[y].0);
        }
    }
}

} // verus!
