use vstd::prelude::*;

use crate::ledger::ledgers_distinct;

use crate::bank::sum_balances;
use crate::error::LedgerError;
use crate::ledger::{latest_bank, lookup, Ledger, LedgerMessage};
use crate::ledger_type::{EntryModel, LedgerEntry};
use crate::bank::BankModel;
use crate::ledger::{bank_index, lemma_index_from, lemma_index_update, BankLedgerModel};
use crate::logic::add::{
    add_outcome, key_index_from, law_recording_keeps_other_banks, sent_after, with_recorded,
};
use crate::logic::transfer::lemma_recorded_state_is_latest;
use crate::state::journal_of;
use crate::requests::update_bank::RequestUpdateBank;
use crate::responses::update_bank::ResponseUpdatedBank;

verus! {

/// The funds a ledger's latest bank holds; none when it states no bank.
pub open spec fn funds_before(entries: Seq<(Seq<char>, crate::ledger::MessageModel)>) -> int {
    match latest_bank(entries) {
        Some(b) => sum_balances(b.accounts),
        None => 0,
    }
}

/// The message an update that would create or destroy money is refused with.
pub open spec fn invalid_update_message() -> Seq<char> {
    "Money has either been created or destroy, this is not allowed, instead transfer the money."@
}

impl Ledger {
    /// Records a new state of a bank, provided it holds as much money as the
    /// bank's latest state and is signed by the bank.
    pub fn update_bank(&mut self, req: RequestUpdateBank, sent: &mut Vec<LedgerMessage>) -> (r:
        Result<ResponseUpdatedBank, LedgerError>)
        requires
            lookup(old(self)@, req.bank.owner@) is Some ==> {
                &&& sum_balances(req.bank.accounts@) <= u64::MAX
                &&& funds_before(lookup(old(self)@, req.bank.owner@).unwrap().entries) <= u64::MAX
            },
        ensures
            ledgers_distinct(old(self)@) ==> ledgers_distinct(final(self)@),
            r matches Ok(ResponseUpdatedBank::Updated { bank }) ==> sum_balances(bank.accounts@)
                == funds_before(lookup(old(self)@, req.bank.owner@).unwrap().entries),
            match lookup(old(self)@, req.bank.owner@) {
                None => {
                    &&& r matches Ok(ResponseUpdatedBank::InvalidBank { bank_id }) && bank_id@
                        == req.bank.owner@
                    &&& final(self)@ == old(self)@
                    &&& final(sent)@ == old(sent)@
                },
                Some(l) => if sum_balances(req.bank.accounts@) != funds_before(l.entries) {
                    &&& r matches Ok(ResponseUpdatedBank::InvalidUpdate { err_msg }) && err_msg@
                        == invalid_update_message()
                    &&& final(self)@ == old(self)@
                    &&& final(sent)@ == old(sent)@
                } else {
                    match add_outcome(
                        old(self)@,
                        req.bank.owner@,
                        EntryModel::UpdateBank(req.bank@),
                        req.signature@,
                    ) {
                        Ok((banks, m)) => {
                            &&& r matches Ok(ResponseUpdatedBank::Updated { bank }) && bank@
                                == req.bank@
                            &&& final(self)@ == banks
                            &&& sent_after(old(sent)@, final(sent)@, m)
                        },
                        Err(e) => {
                            &&& r matches Err(e2) && e2 == e
                            &&& final(self)@ == old(self)@
                            &&& final(sent)@ == old(sent)@
                        },
                    }
                },
            },
    {
        let bank = match self.ledger_for(req.bank.owner.clone()) {
            Some(b) => b,
            None => {
                return Ok(ResponseUpdatedBank::InvalidBank { bank_id: req.bank.owner.clone() });
            },
        };
        let total_before = match bank.bank() {
            Some(b) => b.total_funds(),
            None => 0,
        };
        let total_after = req.bank.total_funds();
        if total_after != total_before {
            return Ok(
                ResponseUpdatedBank::InvalidUpdate {
                    err_msg: String::from_str(
                        "Money has either been created or destroy, this is not allowed, instead transfer the money.",
                    ),
                },
            );
        }
        self.add(
            req.bank.owner.clone(),
            LedgerEntry::UpdateBank(req.bank.clone()),
            req.signature,
            sent,
        )?;
        Ok(ResponseUpdatedBank::Updated { bank: req.bank })
    }
}

/// What an update recorded under a new key leaves of the money of the bank `id`.
proof fn lemma_update_funds_at(
    banks: Seq<(Seq<char>, BankLedgerModel)>,
    b: BankModel,
    sig: Seq<char>,
    id: Seq<char>,
)
    requires
        lookup(banks, b.owner) is Some,
        sum_balances(b.accounts) == funds_before(lookup(banks, b.owner).unwrap().entries),
        add_outcome(banks, b.owner, EntryModel::UpdateBank(b), sig) is Ok,
        key_index_from(
            lookup(banks, b.owner).unwrap().entries,
            add_outcome(banks, b.owner, EntryModel::UpdateBank(b), sig).unwrap().1.broker_signature,
            0,
        ) is None,
    ensures
        funds_before(journal_of(add_outcome(banks, b.owner, EntryModel::UpdateBank(b), sig).unwrap().0, id))
            == funds_before(journal_of(banks, id)),
{
    let e0 = EntryModel::UpdateBank(b);
    let (after, m) = add_outcome(banks, b.owner, e0, sig).unwrap();
    lemma_index_from(banks, b.owner, 0);
    let i = bank_index(banks, b.owner).unwrap();
    let l2 = with_recorded(banks[i].1, m);
    assert(after == banks.update(i, (banks[i].0, l2)));
    lemma_index_update(banks, i, l2, id);
    lemma_index_from(banks, id, 0);
    if id == b.owner {
        lemma_recorded_state_is_latest(banks, b.owner, b, sig);
        let e = lookup(after, id).unwrap().entries;
        assert(latest_bank(e) == Some(b));
        assert(journal_of(after, id) == e);
        assert(funds_before(e) == sum_balances(b.accounts));
    } else {
        law_recording_keeps_other_banks(banks, b.owner, EntryModel::UpdateBank(b), sig);
        assert(lookup(after, id) == lookup(banks, id));
    }
}

/// An update never changes how much money any bank holds: when the new state
/// holds as much money as the bank's latest state and is recorded under a key
/// not yet in the journal, every bank's latest state holds as much money as
/// it did before.
pub proof fn law_update_keeps_every_banks_money(
    banks: Seq<(Seq<char>, BankLedgerModel)>,
    b: BankModel,
    sig: Seq<char>,
)
    requires
        lookup(banks, b.owner) is Some,
        sum_balances(b.accounts) == funds_before(lookup(banks, b.owner).unwrap().entries),
        add_outcome(banks, b.owner, EntryModel::UpdateBank(b), sig) is Ok,
        key_index_from(
            lookup(banks, b.owner).unwrap().entries,
            add_outcome(banks, b.owner, EntryModel::UpdateBank(b), sig).unwrap().1.broker_signature,
            0,
        ) is None,
    ensures
        forall|id: Seq<char>|
            funds_before(
                #[trigger] journal_of(add_outcome(banks, b.owner, EntryModel::UpdateBank(b), sig).unwrap().0, id),
            ) == funds_before(journal_of(banks, id)),
{
    let after = add_outcome(banks, b.owner, EntryModel::UpdateBank(b), sig).unwrap().0;
    assert forall|id: Seq<char>|
        funds_before(#[trigger] journal_of(after, id)) == funds_before(journal_of(banks, id)) by {
        lemma_update_funds_at(banks, b, sig, id);
    }
}

/// The total an update is held to is the money of the bank's latest recorded
/// state: nothing before any state is recorded, the money of a state just
/// recorded, whether it updates or opens the bank, and what it was before
/// when a transaction is recorded.
pub proof fn law_update_is_held_to_the_latest_total(
    entries: Seq<(Seq<char>, crate::ledger::MessageModel)>,
    k: Seq<char>,
    m: crate::ledger::MessageModel,
)
    ensures
        funds_before(Seq::<(Seq<char>, crate::ledger::MessageModel)>::empty()) == 0,
        m.entry matches EntryModel::UpdateBank(b) ==> funds_before(entries.push((k, m)))
            == sum_balances(b.accounts),
        m.entry matches EntryModel::NewBank { bank, .. } ==> funds_before(entries.push((k, m)))
            == sum_balances(bank.accounts),
        m.entry is Transaction ==> funds_before(entries.push((k, m))) == funds_before(entries),
{
    assert(entries.push((k, m)).drop_last() =~= entries);
    assert(entries.push((k, m)).last() == (k, m));
}

} // verus!
