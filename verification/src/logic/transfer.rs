use vstd::prelude::*;

use crate::account::{Account, AccountType};
use crate::bank_id::BankId;
use crate::bank::{account_position, lemma_position_from, lemma_sum_update, sum_balances, BankModel};
use crate::error::LedgerError;
use crate::journal::{journal, journal_insert};
use crate::ledger::{
    bank_index, latest_account, latest_bank, ledgers_distinct, lemma_index_from,
    lemma_index_update, lookup, BankLedgerModel, Ledger, LedgerBrokerHeader, LedgerMessage,
    MessageModel,
};
use crate::ledger_type::{entry_layout, EntryModel, LedgerEntry};
use crate::logic::add::{
    add_outcome, key_index_from, law_recording_keeps_other_banks, lemma_insert_view, sent_after,
    signed_header, signed_message, with_recorded,
};
use crate::requests::transfer::RequestTransfer;
use crate::responses::transfer::ResponseTransfer;
use crate::secret::signature_hash;
use crate::transaction::{transaction_layout, Transaction, TransactionModel};

verus! {

/// Why a transfer is refused before anything is recorded.
pub enum TransferRefusal {
    InvalidBank(Seq<char>),
    InvalidSignature,
    InvalidAccount(Seq<char>, AccountType),
    InsufficientFunds(u64, u64, Seq<char>, AccountType),
}

/// Whether the answer `resp` reports the refusal `x`.
pub open spec fn reports(resp: ResponseTransfer, x: TransferRefusal) -> bool {
    match x {
        TransferRefusal::InvalidBank(b) => resp matches ResponseTransfer::InvalidBank { bank_id }
            && bank_id@ == b,
        TransferRefusal::InvalidSignature => resp is InvalidSignature,
        TransferRefusal::InvalidAccount(b, a) => resp matches ResponseTransfer::InvalidAccount {
            bank_id,
            account,
        } && bank_id@ == b && account == a,
        TransferRefusal::InsufficientFunds(q, v, b, a) =>
            resp matches ResponseTransfer::InsufficientFunds {
            requested,
            available,
            bank_id,
            account,
        } && requested == q && available == v && bank_id@ == b && account == a,
    }
}

/// The checks a transfer passes in order: both banks are known, the sending
/// bank signed the transaction, both accounts exist in the latest state of
/// their banks, and the sending account holds the amount.
pub open spec fn refusal(
    banks: Seq<(Seq<char>, BankLedgerModel)>,
    t: TransactionModel,
    sig: Seq<char>,
) -> Option<TransferRefusal> {
    match lookup(banks, t.from.bank) {
        None => Some(TransferRefusal::InvalidBank(t.from.bank)),
        Some(lf) => match lookup(banks, t.to.bank) {
            None => Some(TransferRefusal::InvalidBank(t.to.bank)),
            Some(lt) => if sig != signature_hash(lf.bank_secret, transaction_layout(t)) {
                Some(TransferRefusal::InvalidSignature)
            } else {
                match latest_account(lf.entries, t.from.account) {
                    None => Some(TransferRefusal::InvalidAccount(t.from.bank, t.from.account)),
                    Some(fa) => if (latest_account(lt.entries, t.to.account) is None) {
                        Some(TransferRefusal::InvalidAccount(t.to.bank, t.to.account))
                    } else if t.amount_cents > fa.balance_cents {
                        Some(
                            TransferRefusal::InsufficientFunds(
                                t.amount_cents,
                                fa.balance_cents,
                                t.to.bank,
                                t.to.account,
                            ),
                        )
                    } else {
                        None
                    },
                }
            },
        },
    }
}

/// A bank with the balance of the account at `pos` set.
pub open spec fn with_balance(b: BankModel, pos: int, balance: u64) -> BankModel {
    BankModel {
        accounts: b.accounts.update(
            pos,
            Account { type_: b.accounts[pos].type_, balance_cents: balance },
        ),
        ..b
    }
}

/// The latest state of the bank `id` with `amount` taken from its account of kind `a`.
pub open spec fn debited(
    banks: Seq<(Seq<char>, BankLedgerModel)>,
    id: Seq<char>,
    a: AccountType,
    amount: u64,
) -> BankModel {
    let b = latest_bank(lookup(banks, id).unwrap().entries).unwrap();
    let p = account_position(b.accounts, a).unwrap();
    with_balance(b, p, (b.accounts[p].balance_cents - amount) as u64)
}

/// The latest state of the bank `id` with `amount` given to its account of kind `a`.
pub open spec fn credited(
    banks: Seq<(Seq<char>, BankLedgerModel)>,
    id: Seq<char>,
    a: AccountType,
    amount: u64,
) -> BankModel {
    let b = latest_bank(lookup(banks, id).unwrap().entries).unwrap();
    let p = account_position(b.accounts, a).unwrap();
    with_balance(b, p, (b.accounts[p].balance_cents + amount) as u64)
}

/// Whether the bank `id` can be given `amount` in its account of kind `a`: it
/// is known, its latest state has such an account, and the balance stays
/// within a `u64`.
pub open spec fn can_credit(
    banks: Seq<(Seq<char>, BankLedgerModel)>,
    id: Seq<char>,
    a: AccountType,
    amount: u64,
) -> bool {
    &&& lookup(banks, id) is Some
    &&& latest_bank(lookup(banks, id).unwrap().entries) matches Some(b) && account_position(
        b.accounts,
        a,
    ) matches Some(p) && b.accounts[p].balance_cents + amount <= u64::MAX
}

/// The signature that the bank `id` gives to `e`.
pub open spec fn signed_by(
    banks: Seq<(Seq<char>, BankLedgerModel)>,
    id: Seq<char>,
    e: EntryModel,
) -> Seq<char> {
    signature_hash(lookup(banks, id).unwrap().bank_secret, entry_layout(e))
}

/// The ledgers and the messages sent so far by a run of steps, and the error
/// that stopped it, if any.
pub struct TransferRun {
    pub banks: Seq<(Seq<char>, BankLedgerModel)>,
    pub sent: Seq<crate::ledger::MessageModel>,
    pub error: Option<LedgerError>,
}

/// The run after one more step adds `e` for `id`, signed `sig`; a stopped run stays.
pub open spec fn then_add(run: TransferRun, id: Seq<char>, e: EntryModel, sig: Seq<char>) -> TransferRun {
    if (run.error is Some) {
        run
    } else {
        match add_outcome(run.banks, id, e, sig) {
            Ok((banks, m)) => TransferRun { banks, sent: run.sent.push(m), error: None },
            Err(err) => TransferRun { error: Some(err), ..run },
        }
    }
}

/// The debit: the sending bank's latest state less the amount, recorded under
/// that state's owner and signed by the sending bank.
pub open spec fn debit_run(run: TransferRun, t: TransactionModel) -> TransferRun {
    let d = debited(run.banks, t.from.bank, t.from.account, t.amount_cents);
    let e = EntryModel::UpdateBank(d);
    then_add(run, d.owner, e, signed_by(run.banks, t.from.bank, e))
}

/// The credit: the receiving bank's latest state plus the amount, recorded
/// under that state's owner and signed by the receiving bank.
pub open spec fn credit_run(run: TransferRun, t: TransactionModel) -> TransferRun {
    let c = credited(run.banks, t.to.bank, t.to.account, t.amount_cents);
    let e = EntryModel::UpdateBank(c);
    then_add(run, c.owner, e, signed_by(run.banks, t.to.bank, e))
}

/// The message that records the transaction `t` for the bank `id` whose
/// ledger is `l`: under the header the broker puts over the entry, which links
/// to the journal's last key and carries the bank's signature of the entry,
/// and with the broker's signature of the entry itself.
pub open spec fn transaction_message(l: BankLedgerModel, id: Seq<char>, t: TransactionModel) -> MessageModel {
    let e = EntryModel::Transaction { transaction: t };
    MessageModel {
        header: signed_header(l, id, e),
        broker_signature: signature_hash(l.broker_secret, entry_layout(e)),
        entry: e,
    }
}

/// The ledgers after the transaction `t` is recorded for the known bank `id`,
/// and the message recorded.
pub open spec fn recorded_transaction(
    banks: Seq<(Seq<char>, BankLedgerModel)>,
    id: Seq<char>,
    t: TransactionModel,
) -> (Seq<(Seq<char>, BankLedgerModel)>, MessageModel) {
    let i = bank_index(banks, id).unwrap();
    let m = transaction_message(banks[i].1, id, t);
    (banks.update(i, (banks[i].0, with_recorded(banks[i].1, m))), m)
}

/// The record of the transaction in the ledger of `id`; a stopped run stays.
pub open spec fn record_run(run: TransferRun, id: Seq<char>, t: TransactionModel) -> TransferRun {
    if (run.error is Some) {
        run
    } else {
        TransferRun {
            banks: recorded_transaction(run.banks, id, t).0,
            sent: run.sent.push(recorded_transaction(run.banks, id, t).1),
            error: None,
        }
    }
}

/// Recording a transaction for a known bank keeps every bank's position.
proof fn lemma_record_keeps(run: TransferRun, id: Seq<char>, t: TransactionModel, other: Seq<char>)
    requires
        lookup(run.banks, id) is Some,
    ensures
        bank_index(record_run(run, id, t).banks, other) == bank_index(run.banks, other),
        record_run(run, id, t).banks.len() == run.banks.len(),
{
    if run.error is None {
        lemma_index_from(run.banks, id, 0);
        let i = bank_index(run.banks, id).unwrap();
        let (banks, m) = recorded_transaction(run.banks, id, t);
        lemma_index_update(run.banks, i, with_recorded(run.banks[i].1, m), other);
    }
}

/// The steps of a transfer that passed its checks: the debit, the credit, the
/// record in the sending bank, and, for another receiving bank, the record there.
pub open spec fn transfer_run(banks: Seq<(Seq<char>, BankLedgerModel)>, t: TransactionModel) -> TransferRun {
    let r1 = debit_run(TransferRun { banks, sent: Seq::empty(), error: None }, t);
    let r2 = credit_run(r1, t);
    let r3 = record_run(r2, t.from.bank, t);
    if t.from.bank != t.to.bank {
        record_run(r3, t.to.bank, t)
    } else {
        r3
    }
}

/// Whether the messages sent grew by `ms`.
pub open spec fn sent_grew(
    before: Seq<LedgerMessage>,
    after: Seq<LedgerMessage>,
    ms: Seq<crate::ledger::MessageModel>,
) -> bool {
    &&& after.len() == before.len() + ms.len()
    &&& after.subrange(0, before.len() as int) == before
    &&& forall|i: int| 0 <= i < ms.len() ==> (#[trigger] after[before.len() + i])@ == ms[i]
}

/// A step that adds keeps every bank's position.
pub proof fn lemma_then_add_keeps(run: TransferRun, id: Seq<char>, e: EntryModel, sig: Seq<char>, other: Seq<char>)
    ensures
        bank_index(then_add(run, id, e, sig).banks, other) == bank_index(run.banks, other),
        then_add(run, id, e, sig).banks.len() == run.banks.len(),
{
    if run.error is None {
        match add_outcome(run.banks, id, e, sig) {
            Ok((banks, m)) => {
                let i = bank_index(run.banks, id).unwrap();
                lemma_index_from(run.banks, id, 0);
                lemma_index_update(run.banks, i, banks[i].1, other);
            },
            Err(_) => {},
        }
    }
}

/// A step that sent `m` extends what was sent by the run so far.
proof fn lemma_sent_step(
    before: Seq<LedgerMessage>,
    mid: Seq<LedgerMessage>,
    after: Seq<LedgerMessage>,
    ms: Seq<crate::ledger::MessageModel>,
    m: crate::ledger::MessageModel,
)
    requires
        sent_grew(before, mid, ms),
        sent_after(mid, after, m),
    ensures
        sent_grew(before, after, ms.push(m)),
{
    assert(after.subrange(0, before.len() as int) =~= mid.subrange(0, before.len() as int));
    assert forall|i: int| 0 <= i < ms.push(m).len() implies (#[trigger] after[before.len() + i])@
        == ms.push(m)[i] by {
        if i < ms.len() {
            assert(after[before.len() + i] == mid[before.len() + i]);
        }
    }
}

impl Ledger {
    /// Takes `amount` from, or gives it to, the account of kind `a` in the
    /// latest state of the bank `id`, and records the new state under its
    /// owner, signed by the bank `id`.
    fn adjust(
        &mut self,
        id: &BankId,
        a: AccountType,
        amount: u64,
        credit: bool,
        sent: &mut Vec<LedgerMessage>,
    ) -> (r: Result<(), LedgerError>)
        requires
            credit ==> can_credit(old(self)@, id@, a, amount),
            !credit ==> {
                &&& lookup(old(self)@, id@) is Some
                &&& latest_account(lookup(old(self)@, id@).unwrap().entries, a) matches Some(acc)
                    && acc.balance_cents >= amount
            },
        ensures
            ledgers_distinct(old(self)@) ==> ledgers_distinct(final(self)@),
            ({
                let b = if credit {
                    credited(old(self)@, id@, a, amount)
                } else {
                    debited(old(self)@, id@, a, amount)
                };
                let e = EntryModel::UpdateBank(b);
                match add_outcome(old(self)@, b.owner, e, signed_by(old(self)@, id@, e)) {
                    Ok((banks, m)) => {
                        &&& r is Ok
                        &&& final(self)@ == banks
                        &&& sent_after(old(sent)@, final(sent)@, m)
                    },
                    Err(err) => {
                        &&& r == Err::<(), LedgerError>(err)
                        &&& final(self)@ == old(self)@
                        &&& final(sent)@ == old(sent)@
                    },
                }
            }),
    {
        let ledger = match self.ledger_for(id.clone()) {
            Some(l) => l,
            None => {
                return Err(LedgerError::UnknownBank);
            },
        };
        let mut new_bank = match ledger.bank() {
            Some(b) => b.clone(),
            None => {
                return Err(LedgerError::UnknownBank);
            },
        };
        let ghost b0 = new_bank@;
        proof {
            lemma_position_from(b0.accounts, a, 0);
        }
        match new_bank.account_mut(a) {
            Some(acc) => {
                if credit {
                    acc.balance_cents = acc.balance_cents + amount;
                } else {
                    acc.balance_cents = acc.balance_cents - amount;
                }
            },
            None => {
                return Err(LedgerError::UnknownBank);
            },
        }
        let ghost p = account_position(b0.accounts, a).unwrap();
        assert(new_bank@.accounts =~= b0.accounts.update(
            p,
            Account { type_: b0.accounts[p].type_, balance_cents: new_bank@.accounts[p].balance_cents },
        ));
        let new_entry = LedgerEntry::UpdateBank(new_bank.clone());
        let signature = match self.ledger_for(id.clone()) {
            Some(l) => l.bank_secret.sign(&new_entry),
            None => {
                return Err(LedgerError::UnknownBank);
            },
        };
        self.add(new_bank.owner.clone(), new_entry, signature, sent)
    }

    /// Records the transaction in the ledger of `id`: the bank signs the entry,
    /// the broker the entry too, under a header that links to the last key.
    fn record_transaction(&mut self, id: &BankId, t: &Transaction, sent: &mut Vec<LedgerMessage>)
        requires
            lookup(old(self)@, id@) is Some,
        ensures
            ledgers_distinct(old(self)@) ==> ledgers_distinct(final(self)@),
            final(self)@ == recorded_transaction(old(self)@, id@, t@).0,
            sent_after(old(sent)@, final(sent)@, recorded_transaction(old(self)@, id@, t@).1),
    {
        let ghost old_banks = self@;
        proof {
            lemma_index_from(old_banks, id@, 0);
        }
        let entry = LedgerEntry::Transaction { transaction: t.clone() };
        let ledger = match self.ledger_mut_for(id.clone()) {
            Some(l) => l,
            None => {
                return;
            },
        };
        let ghost l0 = ledger@;
        let header = LedgerBrokerHeader {
            bank_id: id.clone(),
            prev_signature: ledger.tail_signature(),
            bank_signature: ledger.bank_secret.sign(&entry),
        };
        let broker_signature = ledger.broker_secret.sign(&entry);
        let msg = LedgerMessage { broker_signature: broker_signature.clone(), header, entry };
        let ghost m = msg@;
        assert(m == transaction_message(l0, id@, t@));
        sent.push(msg.clone());
        let ghost old_j = journal(ledger.entries);
        let prior = journal_insert(&mut ledger.entries, broker_signature, msg);
        proof {
            lemma_insert_view(old_j, journal(ledger.entries), broker_signature, msg, prior is Some);
            assert(ledger@ == with_recorded(l0, m));
            assert(sent@.subrange(0, old(sent)@.len() as int) =~= old(sent)@);
        }
        proof {
            let i = bank_index(old_banks, id@).unwrap();
            let after = self@;
            assert(after == recorded_transaction(old_banks, id@, t@).0);
            if ledgers_distinct(old_banks) {
                assert forall|x: int, y: int| 0 <= x < y < after.len() implies (#[trigger] after[x]).0
                    != (#[trigger] after[y]).0 by {
                    assert(after[x].0 == old_banks[x].0 && after[y].0 == old_banks[y].0);
                }
            }
        }
    }

    /// The refusal that the checks of a transfer give, if any.
    fn check_transfer(&self, req: &RequestTransfer) -> (r: Option<ResponseTransfer>)
        ensures
            match refusal(self@, req.trans@, req.signature@) {
                Some(x) => r matches Some(resp) && reports(resp, x),
                None => r is None,
            },
    {
        let from_bank = match self.ledger_for(req.trans.from.bank.clone()) {
            Some(b) => b,
            None => {
                return Some(ResponseTransfer::InvalidBank { bank_id: req.trans.from.bank.clone() });
            },
        };
        let to_bank = match self.ledger_for(req.trans.to.bank.clone()) {
            Some(b) => b,
            None => {
                return Some(ResponseTransfer::InvalidBank { bank_id: req.trans.to.bank.clone() });
            },
        };
        let signature = from_bank.bank_secret.sign(&req.trans);
        if signature != req.signature {
            return Some(ResponseTransfer::InvalidSignature);
        }
        let from_acc = match from_bank.account(req.trans.from.account) {
            Some(b) => b,
            None => {
                return Some(
                    ResponseTransfer::InvalidAccount {
                        bank_id: req.trans.from.bank.clone(),
                        account: req.trans.from.account,
                    },
                );
            },
        };
        if to_bank.account(req.trans.to.account).is_none() {
            return Some(
                ResponseTransfer::InvalidAccount {
                    bank_id: req.trans.to.bank.clone(),
                    account: req.trans.to.account,
                },
            );
        }
        if req.trans.amount_cents > from_acc.balance_cents {
            return Some(
                ResponseTransfer::InsufficientFunds {
                    requested: req.trans.amount_cents,
                    available: from_acc.balance_cents,
                    bank_id: req.trans.to.bank.clone(),
                    account: req.trans.to.account,
                },
            );
        }
        None
    }
}

/// Whether the credit of a transfer can be made once its checks pass and its
/// debit is recorded: the receiving bank's latest state then has the account,
/// and its balance stays within a `u64`.
pub open spec fn credit_fits(banks: Seq<(Seq<char>, BankLedgerModel)>, t: TransactionModel, sig: Seq<char>) -> bool {
    let r1 = debit_run(TransferRun { banks, sent: Seq::empty(), error: None }, t);
    refusal(banks, t, sig) is None && r1.error is None ==> can_credit(
        r1.banks,
        t.to.bank,
        t.to.account,
        t.amount_cents,
    )
}

/// One step of a run, as the step's own contract gives it.
proof fn lemma_step(
    run: TransferRun,
    id: Seq<char>,
    e: EntryModel,
    sig: Seq<char>,
    before: Seq<LedgerMessage>,
    mid: Seq<LedgerMessage>,
    after: Seq<LedgerMessage>,
    banks_after: Seq<(Seq<char>, BankLedgerModel)>,
    res: Result<(), LedgerError>,
)
    requires
        run.error is None,
        sent_grew(before, mid, run.sent),
        match add_outcome(run.banks, id, e, sig) {
            Ok((banks, m)) => res is Ok && banks_after == banks && sent_after(mid, after, m),
            Err(err) => res == Err::<(), LedgerError>(err) && banks_after == run.banks && after
                == mid,
        },
    ensures
        banks_after == then_add(run, id, e, sig).banks,
        sent_grew(before, after, then_add(run, id, e, sig).sent),
        match res {
            Ok(_) => then_add(run, id, e, sig).error is None,
            Err(err) => then_add(run, id, e, sig).error == Some(err),
        },
{
    match add_outcome(run.banks, id, e, sig) {
        Ok((banks, m)) => {
            lemma_sent_step(before, mid, after, run.sent, m);
        },
        Err(_) => {},
    }
}

/// What a transfer of `t`, signed `sig`, gives: a refused transfer is answered
/// and changes nothing; one that passes its checks runs its steps, and is
/// answered `Transferred` or fails with the error of the step that failed.
pub open spec fn transfer_outcome(
    banks: Seq<(Seq<char>, BankLedgerModel)>,
    t: TransactionModel,
    sig: Seq<char>,
    r: Result<ResponseTransfer, LedgerError>,
    after: Seq<(Seq<char>, BankLedgerModel)>,
    sent_before: Seq<LedgerMessage>,
    sent_after_all: Seq<LedgerMessage>,
) -> bool {
    match refusal(banks, t, sig) {
        Some(x) => {
            &&& r matches Ok(resp) && reports(resp, x)
            &&& after == banks
            &&& sent_after_all == sent_before
        },
        None => {
            let run = transfer_run(banks, t);
            &&& after == run.banks
            &&& sent_grew(sent_before, sent_after_all, run.sent)
            &&& match run.error {
                None => r matches Ok(ResponseTransfer::Transferred),
                Some(e) => r matches Err(e2) && e2 == e,
            }
        },
    }
}

impl Ledger {
    /// Moves money between two accounts: after its checks, the sending bank's
    /// latest state is recorded with the amount taken, the receiving bank's
    /// with the amount given, and the transaction in the ledgers of both banks.
    pub fn transfer(&mut self, req: RequestTransfer, sent: &mut Vec<LedgerMessage>) -> (r: Result<
        ResponseTransfer,
        LedgerError,
    >)
        requires
            credit_fits(old(self)@, req.trans@, req.signature@),
        ensures
            ledgers_distinct(old(self)@) ==> ledgers_distinct(final(self)@),
            transfer_outcome(
                old(self)@,
                req.trans@,
                req.signature@,
                r,
                final(self)@,
                old(sent)@,
                final(sent)@,
            ),
    {
        match self.check_transfer(&req) {
            Some(resp) => {
                return Ok(resp);
            },
            None => {},
        }
        let ghost t = req.trans@;
        let ghost r0 = TransferRun { banks: self@, sent: Seq::empty(), error: None };
        let ghost r1 = debit_run(r0, t);
        let ghost r2 = credit_run(r1, t);
        let ghost r3 = record_run(r2, t.from.bank, t);
        assert(sent@.subrange(0, old(sent)@.len() as int) =~= old(sent)@);
        let amount = req.trans.amount_cents;
        let ghost mid = sent@;
        let ghost banks = self@;
        let res = self.adjust(&req.trans.from.bank, req.trans.from.account, amount, false, sent);
        proof {
            let d = debited(r0.banks, t.from.bank, t.from.account, t.amount_cents);
            let e = EntryModel::UpdateBank(d);
            lemma_step(r0, d.owner, e, signed_by(r0.banks, t.from.bank, e), old(sent)@, mid, sent@, self@, res);
        }
        if let Err(e) = res {
            return Err(e);
        }
        let ghost mid = sent@;
        let res = self.adjust(&req.trans.to.bank, req.trans.to.account, amount, true, sent);
        proof {
            let c = credited(r1.banks, t.to.bank, t.to.account, t.amount_cents);
            let e = EntryModel::UpdateBank(c);
            lemma_step(r1, c.owner, e, signed_by(r1.banks, t.to.bank, e), old(sent)@, mid, sent@, self@, res);
            lemma_then_add_keeps(r0, c.owner, e, signed_by(r1.banks, t.to.bank, e), t.from.bank);
        }
        if let Err(e) = res {
            return Err(e);
        }
        proof {
            let d = debited(r0.banks, t.from.bank, t.from.account, t.amount_cents);
            let e1 = EntryModel::UpdateBank(d);
            let c = credited(r1.banks, t.to.bank, t.to.account, t.amount_cents);
            let e2 = EntryModel::UpdateBank(c);
            lemma_then_add_keeps(r0, d.owner, e1, signed_by(r0.banks, t.from.bank, e1), t.from.bank);
            lemma_then_add_keeps(r0, d.owner, e1, signed_by(r0.banks, t.from.bank, e1), t.to.bank);
            lemma_then_add_keeps(r1, c.owner, e2, signed_by(r1.banks, t.to.bank, e2), t.from.bank);
            lemma_then_add_keeps(r1, c.owner, e2, signed_by(r1.banks, t.to.bank, e2), t.to.bank);
        }
        let ghost mid = sent@;
        proof {
            lemma_index_from(self@, t.from.bank, 0);
        }
        self.record_transaction(&req.trans.from.bank, &req.trans, sent);
        proof {
            lemma_sent_step(old(sent)@, mid, sent@, r2.sent, recorded_transaction(r2.banks, t.from.bank, t).1);
            lemma_record_keeps(r2, t.from.bank, t, t.to.bank);
        }
        if req.trans.from.bank != req.trans.to.bank {
            let ghost mid = sent@;
            proof {
                lemma_index_from(self@, t.to.bank, 0);
            }
            self.record_transaction(&req.trans.to.bank, &req.trans, sent);
            proof {
                lemma_sent_step(old(sent)@, mid, sent@, r3.sent, recorded_transaction(r3.banks, t.to.bank, t).1);
            }
        }
        Ok(ResponseTransfer::Transferred)
    }

    /// Whether the bank `id` can now be given `amount` in its account of kind `a`.
    fn credit_room(&self, id: &BankId, a: AccountType, amount: u64) -> (r: bool)
        ensures
            r == can_credit(self@, id@, a, amount),
    {
        match self.ledger_for(id.clone()) {
            None => false,
            Some(l) => match l.bank() {
                None => false,
                Some(b) => {
                    proof {
                        lemma_position_from(b.accounts@, a, 0);
                    }
                    match b.position(a) {
                        None => false,
                        Some(p) => amount <= u64::MAX - b.accounts[p].balance_cents,
                    }
                },
            },
        }
    }

    /// A transfer made only where its credit fits: the debit is first tried on
    /// a copy of the ledgers, and when the receiving balance would then leave
    /// a `u64` the answer is `None` and nothing changes.
    pub fn transfer_checked(&mut self, req: RequestTransfer, sent: &mut Vec<LedgerMessage>) -> (r:
        Option<Result<ResponseTransfer, LedgerError>>)
        ensures
            ledgers_distinct(old(self)@) ==> ledgers_distinct(final(self)@),
            r is None <==> !credit_fits(old(self)@, req.trans@, req.signature@),
            r is None ==> final(self)@ == old(self)@ && final(sent)@ == old(sent)@,
            r matches Some(res) ==> transfer_outcome(
                old(self)@,
                req.trans@,
                req.signature@,
                res,
                final(self)@,
                old(sent)@,
                final(sent)@,
            ),
    {
        if self.check_transfer(&req).is_none() {
            let mut trial = self.clone();
            let mut scratch: Vec<LedgerMessage> = Vec::new();
            let amount = req.trans.amount_cents;
            let res = trial.adjust(&req.trans.from.bank, req.trans.from.account, amount, false, &mut scratch);
            if res.is_ok() && !trial.credit_room(&req.trans.to.bank, req.trans.to.account, amount) {
                return None;
            }
        }
        Some(self.transfer(req, sent))
    }
}

/// Money is moved, not made: when a transfer between two different banks
/// passes its checks and its debit is recorded in the sending bank's own
/// ledger, the receiving bank's state is the one from before the transfer,
/// and the two states recorded by the debit and the credit hold together as
/// much money as the two banks held before; the sending account holds the
/// amount less and the receiving account the amount more.
pub proof fn law_transfer_conserves_money(
    banks: Seq<(Seq<char>, BankLedgerModel)>,
    t: TransactionModel,
    sig: Seq<char>,
)
    requires
        refusal(banks, t, sig) is None,
        credit_fits(banks, t, sig),
        t.from.bank != t.to.bank,
        debited(banks, t.from.bank, t.from.account, t.amount_cents).owner == t.from.bank,
    ensures
        ({
            let r1 = debit_run(TransferRun { banks, sent: Seq::empty(), error: None }, t);
            let bf = latest_bank(lookup(banks, t.from.bank).unwrap().entries).unwrap();
            let bt = latest_bank(lookup(banks, t.to.bank).unwrap().entries).unwrap();
            let d = debited(banks, t.from.bank, t.from.account, t.amount_cents);
            let c = credited(r1.banks, t.to.bank, t.to.account, t.amount_cents);
            &&& r1.error is None
            &&& c == credited(banks, t.to.bank, t.to.account, t.amount_cents)
            &&& sum_balances(d.accounts) == sum_balances(bf.accounts) - t.amount_cents
            &&& sum_balances(c.accounts) == sum_balances(bt.accounts) + t.amount_cents
            &&& sum_balances(d.accounts) + sum_balances(c.accounts) == sum_balances(bf.accounts)
                + sum_balances(bt.accounts)
        }),
{
    let f = t.from.bank;
    let to = t.to.bank;
    let r0 = TransferRun { banks, sent: Seq::empty(), error: None };
    let d = debited(banks, f, t.from.account, t.amount_cents);
    let e = EntryModel::UpdateBank(d);
    lemma_index_from(banks, f, 0);
    lemma_index_from(banks, to, 0);
    let i_f = bank_index(banks, f).unwrap();
    let i_t = bank_index(banks, to).unwrap();
    let r1 = debit_run(r0, t);
    match add_outcome(banks, d.owner, e, signed_by(banks, f, e)) {
        Ok((nb, m)) => {
            lemma_index_update(banks, i_f, nb[i_f].1, to);
            assert(nb[i_t] == banks[i_t]);
            assert(lookup(r1.banks, to) == lookup(banks, to));
        },
        Err(_) => {
            assert(false);
        },
    }
    let bf = latest_bank(lookup(banks, f).unwrap().entries).unwrap();
    let bt = latest_bank(lookup(banks, to).unwrap().entries).unwrap();
    lemma_position_from(bf.accounts, t.from.account, 0);
    lemma_position_from(bt.accounts, t.to.account, 0);
    let p = account_position(bf.accounts, t.from.account).unwrap();
    let q = account_position(bt.accounts, t.to.account).unwrap();
    lemma_sum_update(
        bf.accounts,
        p,
        Account {
            type_: bf.accounts[p].type_,
            balance_cents: (bf.accounts[p].balance_cents - t.amount_cents) as u64,
        },
    );
    lemma_sum_update(
        bt.accounts,
        q,
        Account {
            type_: bt.accounts[q].type_,
            balance_cents: (bt.accounts[q].balance_cents + t.amount_cents) as u64,
        },
    );
}

/// Within one bank, a transfer keeps the bank's money: when it passes its
/// checks and its debit is recorded, under a new key, in the bank's own
/// ledger, the credit applies to the state the debit recorded, and the state
/// the credit records holds as much money as the bank held before.
pub proof fn law_transfer_within_bank_conserves_money(
    banks: Seq<(Seq<char>, BankLedgerModel)>,
    t: TransactionModel,
    sig: Seq<char>,
)
    requires
        refusal(banks, t, sig) is None,
        credit_fits(banks, t, sig),
        t.from.bank == t.to.bank,
        debited(banks, t.from.bank, t.from.account, t.amount_cents).owner == t.from.bank,
        ({
            let d = debited(banks, t.from.bank, t.from.account, t.amount_cents);
            let l = lookup(banks, t.from.bank).unwrap();
            key_index_from(
                l.entries,
                signed_message(l, t.from.bank, EntryModel::UpdateBank(d)).broker_signature,
                0,
            ) is None
        }),
    ensures
        ({
            let r1 = debit_run(TransferRun { banks, sent: Seq::empty(), error: None }, t);
            let bf = latest_bank(lookup(banks, t.from.bank).unwrap().entries).unwrap();
            let c = credited(r1.banks, t.to.bank, t.to.account, t.amount_cents);
            &&& r1.error is None
            &&& latest_bank(lookup(r1.banks, t.from.bank).unwrap().entries) == Some(
                debited(banks, t.from.bank, t.from.account, t.amount_cents),
            )
            &&& sum_balances(c.accounts) == sum_balances(bf.accounts)
        }),
{
    let f = t.from.bank;
    let r0 = TransferRun { banks, sent: Seq::empty(), error: None };
    let d = debited(banks, f, t.from.account, t.amount_cents);
    let e = EntryModel::UpdateBank(d);
    lemma_index_from(banks, f, 0);
    let i_f = bank_index(banks, f).unwrap();
    let l = banks[i_f].1;
    let r1 = debit_run(r0, t);
    let m = signed_message(l, f, e);
    match add_outcome(banks, d.owner, e, signed_by(banks, f, e)) {
        Ok((nb, mm)) => {
            lemma_index_update(banks, i_f, nb[i_f].1, f);
            assert(nb[i_f].1.entries == l.entries.push((m.broker_signature, m)));
            assert(l.entries.push((m.broker_signature, m)).drop_last() =~= l.entries);
            assert(lookup(r1.banks, f) == Some(nb[i_f].1));
        },
        Err(_) => {
            assert(false);
        },
    }
    let bf = latest_bank(lookup(banks, f).unwrap().entries).unwrap();
    lemma_position_from(bf.accounts, t.from.account, 0);
    let p = account_position(bf.accounts, t.from.account).unwrap();
    lemma_position_from(d.accounts, t.to.account, 0);
    let q = account_position(d.accounts, t.to.account).unwrap();
    let da = Account {
        type_: bf.accounts[p].type_,
        balance_cents: (bf.accounts[p].balance_cents - t.amount_cents) as u64,
    };
    lemma_sum_update(bf.accounts, p, da);
    lemma_sum_update(
        d.accounts,
        q,
        Account {
            type_: d.accounts[q].type_,
            balance_cents: (d.accounts[q].balance_cents + t.amount_cents) as u64,
        },
    );
}

/// Recording a transaction under a key not yet in the journal leaves the
/// bank's latest state, and so its balances, as they were.
pub proof fn law_recording_a_transaction_keeps_balances(
    banks: Seq<(Seq<char>, BankLedgerModel)>,
    id: Seq<char>,
    t: TransactionModel,
)
    requires
        lookup(banks, id) is Some,
        key_index_from(
            lookup(banks, id).unwrap().entries,
            recorded_transaction(banks, id, t).1.broker_signature,
            0,
        ) is None,
    ensures
        latest_bank(lookup(recorded_transaction(banks, id, t).0, id).unwrap().entries) == latest_bank(
            lookup(banks, id).unwrap().entries,
        ),
{
    lemma_index_from(banks, id, 0);
    let i = bank_index(banks, id).unwrap();
    let l = banks[i].1;
    let (after, m) = recorded_transaction(banks, id, t);
    let l2 = with_recorded(l, m);
    assert(l2.entries == l.entries.push((m.broker_signature, m)));
    lemma_index_update(banks, i, l2, id);
    assert(l2.entries.drop_last() =~= l.entries);
}

/// Whether the record of the transaction `t` for the known bank `id` keeps its
/// message under a key not yet in the bank's journal.
pub open spec fn record_fresh(run: TransferRun, id: Seq<char>, t: TransactionModel) -> bool {
    key_index_from(
        lookup(run.banks, id).unwrap().entries,
        recorded_transaction(run.banks, id, t).1.broker_signature,
        0,
    ) is None
}

/// Whether the step that adds `e` for `id`, signed `sig`, to a run keeps its
/// message under a key not yet in the bank's journal.
pub open spec fn step_fresh(run: TransferRun, id: Seq<char>, e: EntryModel, sig: Seq<char>) -> bool {
    match add_outcome(run.banks, id, e, sig) {
        Ok((_, m)) => key_index_from(lookup(run.banks, id).unwrap().entries, m.broker_signature, 0) is None,
        Err(_) => true,
    }
}

/// Whether every message that a transfer records is kept under a key not yet
/// in its journal.
pub open spec fn transfer_keys_fresh(banks: Seq<(Seq<char>, BankLedgerModel)>, t: TransactionModel) -> bool {
    let r0 = TransferRun { banks, sent: Seq::empty(), error: None };
    let r1 = debit_run(r0, t);
    let r2 = credit_run(r1, t);
    let r3 = record_run(r2, t.from.bank, t);
    let d = debited(banks, t.from.bank, t.from.account, t.amount_cents);
    let c = credited(r1.banks, t.to.bank, t.to.account, t.amount_cents);
    &&& step_fresh(r0, d.owner, EntryModel::UpdateBank(d), signed_by(banks, t.from.bank, EntryModel::UpdateBank(d)))
    &&& step_fresh(r1, c.owner, EntryModel::UpdateBank(c), signed_by(r1.banks, t.to.bank, EntryModel::UpdateBank(c)))
    &&& record_fresh(r2, t.from.bank, t)
    &&& t.from.bank != t.to.bank ==> record_fresh(r3, t.to.bank, t)
}

/// Recording a new state of a bank under a key not yet in its journal makes
/// that state the bank's latest.
pub proof fn lemma_recorded_state_is_latest(
    banks: Seq<(Seq<char>, BankLedgerModel)>,
    id: Seq<char>,
    b: BankModel,
    sig: Seq<char>,
)
    requires
        add_outcome(banks, id, EntryModel::UpdateBank(b), sig) is Ok,
        key_index_from(
            lookup(banks, id).unwrap().entries,
            add_outcome(banks, id, EntryModel::UpdateBank(b), sig).unwrap().1.broker_signature,
            0,
        ) is None,
    ensures
        latest_bank(
            lookup(add_outcome(banks, id, EntryModel::UpdateBank(b), sig).unwrap().0, id).unwrap().entries,
        ) == Some(b),
{
    let e = EntryModel::UpdateBank(b);
    lemma_index_from(banks, id, 0);
    let i = bank_index(banks, id).unwrap();
    let l = banks[i].1;
    let (after, m) = add_outcome(banks, id, e, sig).unwrap();
    let l2 = with_recorded(l, m);
    assert(l2.entries == l.entries.push((m.broker_signature, m)));
    lemma_index_update(banks, i, l2, id);
}

/// The step that records a bank's new state `b` for `id`, signed by `id`: when
/// `id` is known and the key is new, it completes, `b` becomes the bank's
/// latest state, and the other banks keep their ledgers.
proof fn lemma_state_step(run: TransferRun, id: Seq<char>, b: BankModel)
    requires
        run.error is None,
        lookup(run.banks, id) is Some,
        step_fresh(run, id, EntryModel::UpdateBank(b), signed_by(run.banks, id, EntryModel::UpdateBank(b))),
    ensures
        ({
            let e = EntryModel::UpdateBank(b);
            let r = then_add(run, id, e, signed_by(run.banks, id, e));
            &&& r.error is None
            &&& lookup(r.banks, id) is Some
            &&& latest_bank(lookup(r.banks, id).unwrap().entries) == Some(b)
            &&& forall|other: Seq<char>| other != id ==> #[trigger] lookup(r.banks, other) == lookup(run.banks, other)
        }),
{
    let e = EntryModel::UpdateBank(b);
    let sig = signed_by(run.banks, id, e);
    lemma_index_from(run.banks, id, 0);
    assert(add_outcome(run.banks, id, e, sig) is Ok);
    lemma_recorded_state_is_latest(run.banks, id, b, sig);
    law_recording_keeps_other_banks(run.banks, id, e, sig);
    let (after, m) = add_outcome(run.banks, id, e, sig).unwrap();
    let i = bank_index(run.banks, id).unwrap();
    lemma_index_update(run.banks, i, with_recorded(run.banks[i].1, m), id);
    assert(then_add(run, id, e, sig).banks == after);
}

/// The step that records the transaction for `id`: when `id` is known and
/// the key is new, it leaves the latest state of every bank as it was.
proof fn lemma_record_step(run: TransferRun, id: Seq<char>, t: TransactionModel)
    requires
        run.error is None,
        lookup(run.banks, id) is Some,
        record_fresh(run, id, t),
    ensures
        ({
            let r = record_run(run, id, t);
            &&& r.error is None
            &&& lookup(r.banks, id) is Some
            &&& latest_bank(lookup(r.banks, id).unwrap().entries) == latest_bank(
                lookup(run.banks, id).unwrap().entries,
            )
            &&& forall|other: Seq<char>| other != id ==> #[trigger] lookup(r.banks, other) == lookup(run.banks, other)
        }),
{
    lemma_index_from(run.banks, id, 0);
    law_recording_a_transaction_keeps_balances(run.banks, id, t);
    let (after, m) = recorded_transaction(run.banks, id, t);
    let i = bank_index(run.banks, id).unwrap();
    assert forall|other: Seq<char>| other != id implies #[trigger] lookup(after, other) == lookup(run.banks, other) by {
        lemma_index_update(run.banks, i, with_recorded(run.banks[i].1, m), other);
        lemma_index_from(run.banks, other, 0);
    }
    lemma_index_update(run.banks, i, with_recorded(run.banks[i].1, m), id);
}

/// Money is moved, not made, in the ledgers themselves: when a transfer
/// between two different banks passes its checks, each bank's new state is
/// recorded under its own name and every message it records is kept under a
/// new key, the transfer completes, the two banks' latest states are the
/// debited and the credited ones, together they hold as much money as the
/// two banks held before, and every other bank keeps its ledger.
pub proof fn law_transfer_keeps_the_banks_money(
    banks: Seq<(Seq<char>, BankLedgerModel)>,
    t: TransactionModel,
    sig: Seq<char>,
)
    requires
        refusal(banks, t, sig) is None,
        credit_fits(banks, t, sig),
        t.from.bank != t.to.bank,
        debited(banks, t.from.bank, t.from.account, t.amount_cents).owner == t.from.bank,
        credited(banks, t.to.bank, t.to.account, t.amount_cents).owner == t.to.bank,
        transfer_keys_fresh(banks, t),
    ensures
        ({
            let run = transfer_run(banks, t);
            let bf = latest_bank(lookup(banks, t.from.bank).unwrap().entries).unwrap();
            let bt = latest_bank(lookup(banks, t.to.bank).unwrap().entries).unwrap();
            let af = latest_bank(lookup(run.banks, t.from.bank).unwrap().entries);
            let at = latest_bank(lookup(run.banks, t.to.bank).unwrap().entries);
            &&& run.error is None
            &&& af == Some(debited(banks, t.from.bank, t.from.account, t.amount_cents))
            &&& at == Some(credited(banks, t.to.bank, t.to.account, t.amount_cents))
            &&& sum_balances(af.unwrap().accounts) + sum_balances(at.unwrap().accounts)
                == sum_balances(bf.accounts) + sum_balances(bt.accounts)
            &&& forall|id: Seq<char>|
                id != t.from.bank && id != t.to.bank ==> #[trigger] lookup(run.banks, id) == lookup(banks, id)
        }),
{
    let f = t.from.bank;
    let to = t.to.bank;
    law_transfer_conserves_money(banks, t, sig);
    let r0 = TransferRun { banks, sent: Seq::empty(), error: None };
    let r1 = debit_run(r0, t);
    let r2 = credit_run(r1, t);
    let r3 = record_run(r2, f, t);
    let r4 = record_run(r3, to, t);
    let d = debited(banks, f, t.from.account, t.amount_cents);
    let c = credited(r1.banks, to, t.to.account, t.amount_cents);
    assert(lookup(banks, f) is Some);
    lemma_state_step(r0, f, d);
    assert(r1 == then_add(r0, f, EntryModel::UpdateBank(d), signed_by(r0.banks, f, EntryModel::UpdateBank(d))));
    assert(lookup(r1.banks, to) == lookup(banks, to));
    lemma_state_step(r1, to, c);
    assert(r2 == then_add(r1, to, EntryModel::UpdateBank(c), signed_by(r1.banks, to, EntryModel::UpdateBank(c))));
    assert(lookup(r2.banks, f) == lookup(r1.banks, f));
    lemma_record_step(r2, f, t);
    assert(lookup(r3.banks, to) == lookup(r2.banks, to));
    lemma_record_step(r3, to, t);
    assert(lookup(r4.banks, f) == lookup(r3.banks, f));
    assert forall|id: Seq<char>| id != f && id != to implies #[trigger] lookup(r4.banks, id) == lookup(banks, id) by {
        assert(lookup(r4.banks, id) == lookup(r3.banks, id));
        assert(lookup(r3.banks, id) == lookup(r2.banks, id));
        assert(lookup(r2.banks, id) == lookup(r1.banks, id));
        assert(lookup(r1.banks, id) == lookup(r0.banks, id));
    }
}
/// Within one bank, a transfer keeps the bank's money in the ledger itself:
/// when it passes its checks, the bank's new states are recorded under its
/// own name and every message it records is kept under a new key, the
/// transfer completes and the bank's latest state, the credited one, holds as
/// much money as the bank held before.
pub proof fn law_transfer_within_bank_keeps_its_money(
    banks: Seq<(Seq<char>, BankLedgerModel)>,
    t: TransactionModel,
    sig: Seq<char>,
)
    requires
        refusal(banks, t, sig) is None,
        credit_fits(banks, t, sig),
        t.from.bank == t.to.bank,
        debited(banks, t.from.bank, t.from.account, t.amount_cents).owner == t.from.bank,
        credited(
            debit_run(TransferRun { banks, sent: Seq::empty(), error: None }, t).banks,
            t.to.bank,
            t.to.account,
            t.amount_cents,
        ).owner == t.to.bank,
        transfer_keys_fresh(banks, t),
    ensures
        ({
            let run = transfer_run(banks, t);
            let bf = latest_bank(lookup(banks, t.from.bank).unwrap().entries).unwrap();
            let af = latest_bank(lookup(run.banks, t.from.bank).unwrap().entries);
            &&& run.error is None
            &&& af is Some
            &&& sum_balances(af.unwrap().accounts) == sum_balances(bf.accounts)
        }),
{
    let f = t.from.bank;
    let r0 = TransferRun { banks, sent: Seq::empty(), error: None };
    let r1 = debit_run(r0, t);
    let r2 = credit_run(r1, t);
    let d = debited(banks, f, t.from.account, t.amount_cents);
    let c = credited(r1.banks, f, t.to.account, t.amount_cents);
    lemma_index_from(banks, f, 0);
    assert(lookup(banks, f) is Some);
    lemma_state_step(r0, f, d);
    assert(r1 == then_add(r0, f, EntryModel::UpdateBank(d), signed_by(r0.banks, f, EntryModel::UpdateBank(d))));
    law_transfer_within_bank_conserves_money(banks, t, sig);
    lemma_state_step(r1, f, c);
    assert(r2 == then_add(r1, f, EntryModel::UpdateBank(c), signed_by(r1.banks, f, EntryModel::UpdateBank(c))));
    lemma_record_step(r2, f, t);
}

/// The record of a transaction holds the request's own transaction for the
/// bank it is recorded for, under a header that names the bank and links to
/// the journal's last key.
pub proof fn law_record_is_the_requests_transaction(l: BankLedgerModel, id: Seq<char>, t: TransactionModel)
    ensures
        transaction_message(l, id, t).entry == (EntryModel::Transaction { transaction: t }),
        transaction_message(l, id, t).header.bank_id == id,
        transaction_message(l, id, t).header.prev_signature == crate::ledger::tail_of(l.entries),
{
}

/// The record of a transaction carries the bank's signature of the request's
/// transaction, and the broker signs that same transaction.
pub proof fn law_record_is_signed_over_the_transaction(
    l: BankLedgerModel,
    id: Seq<char>,
    t: TransactionModel,
)
    ensures
        transaction_message(l, id, t).header.bank_signature == signature_hash(
            l.bank_secret,
            entry_layout(EntryModel::Transaction { transaction: t }),
        ),
        transaction_message(l, id, t).broker_signature == signature_hash(
            l.broker_secret,
            entry_layout(EntryModel::Transaction { transaction: t }),
        ),
{
}

/// Recording a transaction under a key not yet in the journal adds the
/// request's transaction, and only it, to the end of the bank's history.
pub proof fn law_recording_extends_the_history(
    banks: Seq<(Seq<char>, BankLedgerModel)>,
    id: Seq<char>,
    t: TransactionModel,
)
    requires
        lookup(banks, id) is Some,
        record_fresh(TransferRun { banks, sent: Seq::empty(), error: None }, id, t),
    ensures
        crate::ledger::transactions_of(lookup(recorded_transaction(banks, id, t).0, id).unwrap().entries)
            == crate::ledger::transactions_of(lookup(banks, id).unwrap().entries).push(t),
{
    lemma_index_from(banks, id, 0);
    let i = bank_index(banks, id).unwrap();
    let l = banks[i].1;
    let (after, m) = recorded_transaction(banks, id, t);
    let l2 = with_recorded(l, m);
    assert(l2.entries == l.entries.push((m.broker_signature, m)));
    lemma_index_update(banks, i, l2, id);
    law_record_is_the_requests_transaction(l, id, t);
    crate::ledger::law_history_keeps_every_transaction(l.entries, m.broker_signature, m);
}

/// A transfer is refused only for the reasons it lists: when both banks are
/// known, the signature is the sending bank's signature of the transaction,
/// both accounts exist in the banks' latest states and the sending account
/// holds the amount, nothing refuses it, whatever the receiving account holds.
pub proof fn law_transfer_refused_only_for_the_listed_reasons(
    banks: Seq<(Seq<char>, BankLedgerModel)>,
    t: TransactionModel,
    sig: Seq<char>,
)
    requires
        lookup(banks, t.from.bank) is Some,
        lookup(banks, t.to.bank) is Some,
        sig == signature_hash(lookup(banks, t.from.bank).unwrap().bank_secret, transaction_layout(t)),
        latest_account(lookup(banks, t.from.bank).unwrap().entries, t.from.account) matches Some(fa)
            && t.amount_cents <= fa.balance_cents,
        latest_account(lookup(banks, t.to.bank).unwrap().entries, t.to.account) is Some,
    ensures
        refusal(banks, t, sig) is None,
{
}

/// The funds check looks at the sending account alone: a transfer that
/// passes the other checks is refused for its funds exactly when the amount
/// exceeds what the sending account holds, and the refusal reports that
/// account's balance.
pub proof fn law_funds_check_is_the_senders(
    banks: Seq<(Seq<char>, BankLedgerModel)>,
    t: TransactionModel,
    sig: Seq<char>,
)
    requires
        lookup(banks, t.from.bank) is Some,
        lookup(banks, t.to.bank) is Some,
        sig == signature_hash(lookup(banks, t.from.bank).unwrap().bank_secret, transaction_layout(t)),
        latest_account(lookup(banks, t.from.bank).unwrap().entries, t.from.account) is Some,
        latest_account(lookup(banks, t.to.bank).unwrap().entries, t.to.account) is Some,
    ensures
        ({
            let fa = latest_account(lookup(banks, t.from.bank).unwrap().entries, t.from.account).unwrap();
            &&& t.amount_cents > fa.balance_cents <==> refusal(banks, t, sig) is Some
            &&& t.amount_cents > fa.balance_cents ==> refusal(banks, t, sig) == Some(
                TransferRefusal::InsufficientFunds(
                    t.amount_cents,
                    fa.balance_cents,
                    t.to.bank,
                    t.to.account,
                ),
            )
        }),
{
}

/// A debit takes the amount from the account of the given kind, and a credit
/// gives it to that account, in the bank's latest state: that account's
/// balance falls or rises by the amount, and the owner, the password and
/// every other account stay as they were.
pub proof fn law_debit_and_credit_move_the_amount(
    banks: Seq<(Seq<char>, BankLedgerModel)>,
    id: Seq<char>,
    a: AccountType,
    amount: u64,
)
    requires
        lookup(banks, id) is Some,
        latest_account(lookup(banks, id).unwrap().entries, a) is Some,
    ensures
        ({
            let b = latest_bank(lookup(banks, id).unwrap().entries).unwrap();
            let before = latest_account(lookup(banks, id).unwrap().entries, a).unwrap();
            let d = debited(banks, id, a, amount);
            let c = credited(banks, id, a, amount);
            &&& amount <= before.balance_cents ==> crate::bank::find_account(d.accounts, a) == Some(
                Account { type_: a, balance_cents: (before.balance_cents - amount) as u64 },
            )
            &&& before.balance_cents + amount <= u64::MAX ==> crate::bank::find_account(c.accounts, a)
                == Some(Account { type_: a, balance_cents: (before.balance_cents + amount) as u64 })
            &&& d.owner == b.owner && d.password == b.password && c.owner == b.owner && c.password
                == b.password
            &&& d.accounts.len() == b.accounts.len() && c.accounts.len() == b.accounts.len()
            &&& forall|j: int|
                0 <= j < b.accounts.len() && b.accounts[j].type_ != a ==> #[trigger] d.accounts[j]
                    == b.accounts[j] && c.accounts[j] == b.accounts[j]
        }),
{
    let b = latest_bank(lookup(banks, id).unwrap().entries).unwrap();
    lemma_position_from(b.accounts, a, 0);
    let p = account_position(b.accounts, a).unwrap();
    let d = debited(banks, id, a, amount);
    let c = credited(banks, id, a, amount);
    lemma_position_from(d.accounts, a, 0);
    lemma_position_from(c.accounts, a, 0);
    assert(account_position(d.accounts, a) == Some(p)) by {
        match account_position(d.accounts, a) {
            Some(q) => {
                if q < p {
                    assert(d.accounts[q] == b.accounts[q]);
                }
            },
            None => {
                assert(d.accounts[p].type_ == a);
            },
        }
    }
    assert(account_position(c.accounts, a) == Some(p)) by {
        match account_position(c.accounts, a) {
            Some(q) => {
                if q < p {
                    assert(c.accounts[q] == b.accounts[q]);
                }
            },
            None => {
                assert(c.accounts[p].type_ == a);
            },
        }
    }
}

} // verus!
