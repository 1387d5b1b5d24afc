//! The journal of a bank: its messages in the order they were recorded, each
//! under its broker signature, held in an `indexmap::IndexMap`.
use vstd::prelude::*;

use indexmap::IndexMap;

use crate::ledger::LedgerMessage;
use crate::signature::LedgerSignature;

verus! {

#[verifier::external_type_specification]
#[verifier::external_body]
#[verifier::reject_recursive_types(K)]
#[verifier::reject_recursive_types(V)]
#[verifier::reject_recursive_types(S)]
pub struct ExIndexMap<K, V, S>(IndexMap<K, V, S>);

/// The pairs that a journal holds, in their order.
pub uninterp spec fn journal(m: IndexMap<LedgerSignature, LedgerMessage>) -> Seq<
    (LedgerSignature, LedgerMessage),
>;

/// Whether some pair of the journal has a key with the text `k`.
pub open spec fn journal_has_key(s: Seq<(LedgerSignature, LedgerMessage)>, k: Seq<char>) -> bool {
    exists|i: int| 0 <= i < s.len() && (#[trigger] s[i]).0@ == k
}

/// Whether no two pairs have keys with the same text; every `IndexMap` keeps this.
pub open spec fn keys_distinct(s: Seq<(LedgerSignature, LedgerMessage)>) -> bool {
    forall|i: int, j: int| 0 <= i < j < s.len() ==> (#[trigger] s[i]).0@ != (#[trigger] s[j]).0@
}

/// Calls `IndexMap::new`.
///
/// Trusted: a new map holds no pair.
#[verifier::external_body]
pub(crate) fn journal_new() -> (r: IndexMap<LedgerSignature, LedgerMessage>)
    ensures
        journal(r) == Seq::<(LedgerSignature, LedgerMessage)>::empty(),
{
    IndexMap::new()
}

/// Calls `IndexMap::len`.
///
/// Trusted: the number of pairs held.
#[verifier::external_body]
pub(crate) fn journal_len(m: &IndexMap<LedgerSignature, LedgerMessage>) -> (r: usize)
    ensures
        r == journal(*m).len(),
{
    m.len()
}

/// Calls `IndexMap::get_index`.
///
/// Trusted: the pair at position `i` in insertion order, or `None` past the end.
#[verifier::external_body]
pub(crate) fn journal_get_index(m: &IndexMap<LedgerSignature, LedgerMessage>, i: usize) -> (r: Option<
    (&LedgerSignature, &LedgerMessage),
>)
    ensures
        i < journal(*m).len() ==> r is Some && *r.unwrap().0 == journal(*m)[i as int].0
            && *r.unwrap().1 == journal(*m)[i as int].1,
        i >= journal(*m).len() ==> r is None,
{
    m.get_index(i)
}

/// Calls `IndexMap::last`.
///
/// Trusted: the last pair in insertion order, or `None` for an empty map.
#[verifier::external_body]
pub(crate) fn journal_last(m: &IndexMap<LedgerSignature, LedgerMessage>) -> (r: Option<
    (&LedgerSignature, &LedgerMessage),
>)
    ensures
        journal(*m).len() > 0 ==> r is Some && *r.unwrap().0 == journal(*m).last().0
            && *r.unwrap().1 == journal(*m).last().1,
        journal(*m).len() == 0 ==> r is None,
{
    m.last()
}

/// Calls `IndexMap::contains_key`.
///
/// Trusted: keys are found by the `Hash` and `Eq` of `LedgerSignature`, which
/// both go by the signature's text.
#[verifier::external_body]
pub(crate) fn journal_contains_key(m: &IndexMap<LedgerSignature, LedgerMessage>, k: &LedgerSignature) -> (r:
    bool)
    ensures
        r == journal_has_key(journal(*m), k@),
{
    m.contains_key(k)
}

/// Calls `IndexMap::insert`.
///
/// Trusted: when a key with the same text is held, its value is replaced in
/// place (the key stays) and the old value is returned; otherwise the pair is
/// added last and `None` is returned. An `IndexMap` never holds two equal keys,
/// before or after.
#[verifier::external_body]
pub(crate) fn journal_insert(
    m: &mut IndexMap<LedgerSignature, LedgerMessage>,
    k: LedgerSignature,
    v: LedgerMessage,
) -> (r: Option<LedgerMessage>)
    ensures
        keys_distinct(journal(*old(m))),
        keys_distinct(journal(*final(m))),
        match r {
            Some(ov) => exists|i: int|
                0 <= i < journal(*old(m)).len() && (#[trigger] journal(*old(m))[i]).0@ == k@
                    && journal(*old(m))[i].1 == ov && journal(*final(m)) == journal(*old(m)).update(
                    i,
                    (journal(*old(m))[i].0, v),
                ),
            None => !journal_has_key(journal(*old(m)), k@) && journal(*final(m)) == journal(
                *old(m),
            ).push((k, v)),
        },
{
    m.insert(k, v)
}

/// Calls `Clone::clone` on the map.
///
/// Trusted: the map clones each key and value in order, through the `clone`
/// of `LedgerSignature` and of `LedgerMessage`, which this crate proves to keep
/// their views.
#[verifier::external_body]
pub(crate) fn journal_clone(m: &IndexMap<LedgerSignature, LedgerMessage>) -> (r: IndexMap<
    LedgerSignature,
    LedgerMessage,
>)
    ensures
        journal(r).len() == journal(*m).len(),
        forall|i: int|
            0 <= i < journal(*m).len() ==> (#[trigger] journal(r)[i]).0@ == journal(*m)[i].0@
                && journal(r)[i].1@ == journal(*m)[i].1@,
{
    m.clone()
}

} // verus!
