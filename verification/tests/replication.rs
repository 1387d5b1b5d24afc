use immutable_bank_model::account::{AccountRef, AccountType};
use immutable_bank_model::bank::Bank;
use immutable_bank_model::bank_id::BankId;
use immutable_bank_model::ledger::{Ledger, LedgerMessage};
use immutable_bank_model::ledger_type::LedgerEntry;
use immutable_bank_model::password_hash::PasswordHash;
use immutable_bank_model::requests::new_bank::RequestNewBank;
use immutable_bank_model::requests::transfer::RequestTransfer;
use immutable_bank_model::secret::LedgerSecret;
use immutable_bank_model::state::GeneralStateInner;
use immutable_bank_model::transaction::Transaction;

fn broker() -> LedgerSecret {
    LedgerSecret::from_static([9u8; 32], [8u8; 32], [7u8; 32], [6u8; 32])
}

fn secret_of(n: u8) -> LedgerSecret {
    LedgerSecret::from_static([n; 32], [n + 1; 32], [n + 2; 32], [n + 3; 32])
}

/// The messages one broker sends while alice and bob open banks and alice
/// pays bob.
fn history() -> Vec<LedgerMessage> {
    let mut ledger = Ledger::default();
    let mut sent = Vec::new();
    for (name, secret) in [("alice", secret_of(1)), ("bob", secret_of(20))] {
        let bank = Bank::new(BankId::from_name(name), PasswordHash::from_password("seed", name));
        ledger.new_bank(&broker(), RequestNewBank { secret, bank }, &mut sent).unwrap();
    }
    let trans = Transaction {
        from: AccountRef { bank: BankId::from_name("alice"), account: AccountType::Wallet },
        to: AccountRef { bank: BankId::from_name("bob"), account: AccountType::Wallet },
        description: "lunch".to_string(),
        amount_cents: 1_250,
    };
    let signature = secret_of(1).sign(&trans);
    ledger.transfer(RequestTransfer { signature, trans }, &mut sent).unwrap();
    sent
}

fn same_messages(a: &[LedgerMessage], b: &[LedgerMessage]) -> bool {
    a.len() == b.len() && a.iter().zip(b.iter()).all(|(x, y)| x.broker_signature == y.broker_signature)
}

#[test]
fn taking_in_never_records() {
    let msgs = history();
    assert_eq!(msgs.len(), 6);
    let mut state = GeneralStateInner::default();
    for m in &msgs {
        assert!(!state.process(&broker(), m));
    }
    assert_eq!(state.ledger.banks.len(), 2);
    let alice = state.ledger.ledger_for(BankId::from_name("alice")).unwrap();
    assert_eq!(alice.entries.len(), 0);
    // an opening message that reaches an empty journal is a duplicate: the
    // journal keeps the secret it was given
    assert!(alice.bank_secret != secret_of(1));
    assert!(state.existing_banks.is_empty());
}

#[test]
fn a_message_already_kept_is_refused_and_changes_nothing() {
    let msgs = history();
    let mut state = GeneralStateInner::default();
    state.restore(&broker(), msgs.clone());
    assert!(!state.process(&broker(), &msgs[0]));
    assert_eq!(state.ledger.entries_for(BankId::from_name("alice")).len(), 3);
}

#[test]
fn an_opening_message_for_a_known_journal_keeps_its_secret() {
    let msgs = history();
    let mut state = GeneralStateInner::default();
    state.restore(&broker(), vec![msgs[0].clone()]);
    let mut reopened = msgs[0].clone();
    if let LedgerEntry::NewBank { bank_secret, .. } = &mut reopened.entry {
        *bank_secret = secret_of(77);
    }
    reopened.broker_signature.hash.push('x');
    assert!(!state.process(&broker(), &reopened));
    let alice = state.ledger.ledger_for(BankId::from_name("alice")).unwrap();
    assert!(alice.bank_secret == secret_of(1));
    assert_eq!(alice.entries.len(), 1);
}

#[test]
fn receive_only_takes_messages_about_the_socket_bank() {
    let msgs = history();
    let mut state = GeneralStateInner::default();
    assert!(!state.receive(&broker(), &BankId::from_name("bob"), &msgs[0]));
    assert!(state.ledger.ledger_for(BankId::from_name("alice")).is_none());
    assert!(!state.receive(&broker(), &BankId::from_name("alice"), &msgs[0]));
    assert!(state.ledger.ledger_for(BankId::from_name("alice")).is_some());
}

#[test]
fn restore_puts_back_messages_without_checking_them() {
    let msgs = history();
    let mut forged = msgs[0].clone();
    if let LedgerEntry::NewBank { bank, .. } = &mut forged.entry {
        bank.accounts[0].balance_cents = 1_000_000_000;
    }
    let mut state = GeneralStateInner::default();
    state.restore(&broker(), vec![forged]);
    let wallet = state.ledger.ledger_for(BankId::from_name("alice")).unwrap().account(AccountType::Wallet);
    assert_eq!(wallet.unwrap().balance_cents, 1_000_000_000);
    assert_eq!(state.existing_banks, vec!["alice".to_string()]);
}

#[test]
fn restore_then_snapshot_gives_back_the_journals() {
    let msgs = history();
    let mut state = GeneralStateInner::default();
    state.restore(&broker(), msgs.clone());
    assert_eq!(state.existing_banks, vec!["alice".to_string(), "bob".to_string()]);
    let snap = state.snapshot();
    // bank after bank: alice's three messages, then bob's three
    let mut expected: Vec<LedgerMessage> =
        msgs.iter().filter(|m| m.header.bank_id.as_str() == "alice").cloned().collect();
    expected.extend(msgs.iter().filter(|m| m.header.bank_id.as_str() == "bob").cloned());
    assert!(same_messages(&snap, &expected));

    let mut again = GeneralStateInner::default();
    again.restore(&broker(), snap.clone());
    assert!(same_messages(&again.snapshot(), &snap));
}

#[test]
fn snapshot_of_an_empty_state_is_empty() {
    let state = GeneralStateInner::default();
    assert!(state.snapshot().is_empty());
}

#[test]
fn restoring_a_reopened_bank_notes_it_once() {
    let mut ledger = Ledger::default();
    let mut sent = Vec::new();
    for _ in 0..2 {
        let bank = Bank::new(BankId::from_name("alice"), PasswordHash::from_password("seed", "alice"));
        ledger.new_bank(&broker(), RequestNewBank { secret: secret_of(1), bank }, &mut sent).unwrap();
    }
    assert_eq!(sent.len(), 2);
    // both openings start an empty journal, so they carry the same key
    assert!(sent[0].broker_signature == sent[1].broker_signature);
    let mut state = GeneralStateInner::default();
    state.restore(&broker(), sent);
    assert_eq!(state.existing_banks, vec!["alice".to_string()]);
    assert_eq!(state.ledger.banks.len(), 1);
    assert_eq!(state.ledger.entries_for(BankId::from_name("alice")).len(), 1);
}

#[test]
fn an_opening_message_ahead_of_an_empty_journal_sets_its_secret() {
    let msgs = history();
    let mut ahead = msgs[0].clone();
    ahead.header.prev_signature = msgs[2].broker_signature.clone();
    let mut state = GeneralStateInner::default();
    assert!(!state.process(&broker(), &ahead));
    let alice = state.ledger.ledger_for(BankId::from_name("alice")).unwrap();
    assert!(alice.bank_secret == secret_of(1));
    assert_eq!(alice.entries.len(), 0);
}
