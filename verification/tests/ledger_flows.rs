use immutable_bank_model::account::{Account, AccountRef, AccountType};
use immutable_bank_model::bank::Bank;
use immutable_bank_model::bank_id::BankId;
use immutable_bank_model::error::LedgerError;
use immutable_bank_model::ledger::{Ledger, LedgerMessage};
use immutable_bank_model::ledger_type::LedgerEntry;
use immutable_bank_model::password_hash::PasswordHash;
use immutable_bank_model::requests::copy_bank::RequestCopyBank;
use immutable_bank_model::requests::new_bank::RequestNewBank;
use immutable_bank_model::requests::transfer::RequestTransfer;
use immutable_bank_model::requests::update_bank::RequestUpdateBank;
use immutable_bank_model::responses::copy_bank::ResponseCopyBank;
use immutable_bank_model::responses::create_bank::ResponseCreateBank;
use immutable_bank_model::responses::transfer::ResponseTransfer;
use immutable_bank_model::responses::update_bank::ResponseUpdatedBank;
use immutable_bank_model::secret::LedgerSecret;
use immutable_bank_model::signature::LedgerSignature;
use immutable_bank_model::transaction::Transaction;

fn broker() -> LedgerSecret {
    LedgerSecret::from_static([9u8; 32], [8u8; 32], [7u8; 32], [6u8; 32])
}

fn secret_of(n: u8) -> LedgerSecret {
    LedgerSecret::from_static([n; 32], [n + 1; 32], [n + 2; 32], [n + 3; 32])
}

fn bank_named(name: &str) -> Bank {
    Bank::new(BankId::from_name(name), PasswordHash::from_password("seed", name))
}

fn open(ledger: &mut Ledger, name: &str, secret: LedgerSecret, sent: &mut Vec<LedgerMessage>) {
    let req = RequestNewBank { secret, bank: bank_named(name) };
    let res = ledger.new_bank(&broker(), req, sent).unwrap();
    assert!(matches!(res, ResponseCreateBank::Created { .. }));
}

fn balance(ledger: &Ledger, name: &str, t: AccountType) -> u64 {
    ledger.ledger_for(BankId::from_name(name)).unwrap().account(t).unwrap().balance_cents
}

fn total(ledger: &Ledger, name: &str) -> u64 {
    ledger.bank(BankId::from_name(name)).unwrap().total_funds()
}

fn signed_transfer(
    secret: &LedgerSecret,
    from: &str,
    from_acc: AccountType,
    to: &str,
    to_acc: AccountType,
    amount: u64,
) -> RequestTransfer {
    let trans = Transaction {
        from: AccountRef { bank: BankId::from_name(from), account: from_acc },
        to: AccountRef { bank: BankId::from_name(to), account: to_acc },
        description: "rent".to_string(),
        amount_cents: amount,
    };
    let signature = secret.sign(&trans);
    RequestTransfer { signature, trans }
}

#[test]
fn new_bank_funds_wallet_and_savings() {
    let mut ledger = Ledger::default();
    let mut sent = Vec::new();
    let req = RequestNewBank { secret: secret_of(1), bank: bank_named("Alice") };
    let res = ledger.new_bank(&broker(), req, &mut sent).unwrap();
    match res {
        ResponseCreateBank::Created { bank } => {
            assert_eq!(bank.owner.as_str(), "alice");
            assert_eq!(bank.accounts[0].balance_cents, 100_000);
            assert_eq!(bank.accounts[1].balance_cents, 99_900_000);
        }
        other => panic!("unexpected {:?}", other),
    }
    assert_eq!(balance(&ledger, "alice", AccountType::Wallet), 100_000);
    assert_eq!(balance(&ledger, "alice", AccountType::Savings), 99_900_000);
    assert_eq!(total(&ledger, "alice"), 100_000_000);
    assert_eq!(sent.len(), 1);
    assert_eq!(ledger.entries_for(BankId::from_name("alice")).len(), 1);
}

#[test]
fn new_bank_leaves_a_printer_as_given() {
    let mut ledger = Ledger::default();
    let mut sent = Vec::new();
    let mut bank = bank_named("mint");
    bank.accounts.push(Account { type_: AccountType::Printer, balance_cents: 42 });
    let res = ledger.new_bank(&broker(), RequestNewBank { secret: secret_of(1), bank }, &mut sent);
    assert!(matches!(res, Ok(ResponseCreateBank::Created { .. })));
    assert_eq!(balance(&ledger, "mint", AccountType::Printer), 42);
}

#[test]
fn first_message_links_to_the_empty_tail_and_is_signed_twice() {
    let mut ledger = Ledger::default();
    let mut sent = Vec::new();
    open(&mut ledger, "alice", secret_of(1), &mut sent);
    let msg = &sent[0];
    assert_eq!(msg.header.bank_id.as_str(), "alice");
    assert!(msg.header.prev_signature == LedgerSignature::zero());
    assert!(msg.header.bank_signature == secret_of(1).sign(&msg.entry));
    assert!(msg.broker_signature == broker().sign(&msg.header));
    let tail = ledger.ledger_for(BankId::from_name("alice")).unwrap().tail_signature();
    assert!(tail == msg.broker_signature);
}

#[test]
fn new_bank_taken_by_another_secret_is_refused() {
    let mut ledger = Ledger::default();
    let mut sent = Vec::new();
    open(&mut ledger, "alice", secret_of(1), &mut sent);
    let req = RequestNewBank { secret: secret_of(50), bank: bank_named("ALICE") };
    match ledger.new_bank(&broker(), req, &mut sent).unwrap() {
        ResponseCreateBank::AlreadyExists { err_msg } => {
            assert_eq!(err_msg, "A bank with this ID already exists")
        }
        other => panic!("unexpected {:?}", other),
    }
    assert_eq!(sent.len(), 1);
    assert_eq!(ledger.entries_for(BankId::from_name("alice")).len(), 1);
}

#[test]
fn new_bank_with_the_same_secret_starts_the_ledger_afresh() {
    let mut ledger = Ledger::default();
    let mut sent = Vec::new();
    open(&mut ledger, "alice", secret_of(1), &mut sent);
    let req = signed_transfer(&secret_of(1), "alice", AccountType::Wallet, "alice", AccountType::Savings, 5);
    ledger.transfer(req, &mut sent).unwrap();
    assert_eq!(ledger.entries_for(BankId::from_name("alice")).len(), 4);
    open(&mut ledger, "alice", secret_of(1), &mut sent);
    assert_eq!(ledger.entries_for(BankId::from_name("alice")).len(), 1);
    assert_eq!(balance(&ledger, "alice", AccountType::Wallet), 100_000);
}

#[test]
fn update_bank_of_unknown_bank() {
    let mut ledger = Ledger::default();
    let mut sent = Vec::new();
    let bank = bank_named("nobody");
    let signature = secret_of(1).sign(&LedgerEntry::UpdateBank(bank.clone()));
    let res = ledger.update_bank(RequestUpdateBank { signature, bank }, &mut sent).unwrap();
    match res {
        ResponseUpdatedBank::InvalidBank { bank_id } => assert_eq!(bank_id.as_str(), "nobody"),
        other => panic!("unexpected {:?}", other),
    }
    assert!(sent.is_empty());
}

#[test]
fn update_bank_that_creates_money_is_refused() {
    let mut ledger = Ledger::default();
    let mut sent = Vec::new();
    open(&mut ledger, "alice", secret_of(1), &mut sent);
    let mut bank = ledger.bank(BankId::from_name("alice")).unwrap().clone();
    bank.accounts[0].balance_cents += 1;
    let signature = secret_of(1).sign(&LedgerEntry::UpdateBank(bank.clone()));
    match ledger.update_bank(RequestUpdateBank { signature, bank }, &mut sent).unwrap() {
        ResponseUpdatedBank::InvalidUpdate { err_msg } => assert_eq!(
            err_msg,
            "Money has either been created or destroy, this is not allowed, instead transfer the money."
        ),
        other => panic!("unexpected {:?}", other),
    }
    assert_eq!(sent.len(), 1);
}

#[test]
fn update_bank_that_moves_money_inside_is_recorded() {
    let mut ledger = Ledger::default();
    let mut sent = Vec::new();
    open(&mut ledger, "alice", secret_of(1), &mut sent);
    let mut bank = ledger.bank(BankId::from_name("alice")).unwrap().clone();
    bank.accounts[0].balance_cents += 700;
    bank.accounts[1].balance_cents -= 700;
    let signature = secret_of(1).sign(&LedgerEntry::UpdateBank(bank.clone()));
    match ledger.update_bank(RequestUpdateBank { signature, bank }, &mut sent).unwrap() {
        ResponseUpdatedBank::Updated { bank } => assert_eq!(bank.accounts[0].balance_cents, 100_700),
        other => panic!("unexpected {:?}", other),
    }
    assert_eq!(sent.len(), 2);
    assert_eq!(balance(&ledger, "alice", AccountType::Wallet), 100_700);
    assert_eq!(total(&ledger, "alice"), 100_000_000);
    assert!(sent[1].header.prev_signature == sent[0].broker_signature);
}

#[test]
fn update_bank_with_a_wrong_signature_fails() {
    let mut ledger = Ledger::default();
    let mut sent = Vec::new();
    open(&mut ledger, "alice", secret_of(1), &mut sent);
    let bank = ledger.bank(BankId::from_name("alice")).unwrap().clone();
    let signature = secret_of(60).sign(&LedgerEntry::UpdateBank(bank.clone()));
    let res = ledger.update_bank(RequestUpdateBank { signature, bank }, &mut sent);
    assert_eq!(res.unwrap_err(), LedgerError::InvalidBankSignature);
    assert_eq!(sent.len(), 1);
    assert_eq!(ledger.entries_for(BankId::from_name("alice")).len(), 1);
}

#[test]
fn copy_bank_answers() {
    let mut ledger = Ledger::default();
    let mut sent = Vec::new();
    open(&mut ledger, "alice", secret_of(1), &mut sent);
    let missing = RequestCopyBank {
        password: PasswordHash::from_password("seed", "bob"),
        bank: BankId::from_name("bob"),
    };
    match ledger.copy_bank(missing).unwrap() {
        ResponseCopyBank::DoesNotExist { bank_id } => assert_eq!(bank_id.as_str(), "bob"),
        other => panic!("unexpected {:?}", other),
    }
    let wrong = RequestCopyBank {
        password: PasswordHash::from_password("seed", "guess"),
        bank: BankId::from_name("alice"),
    };
    match ledger.copy_bank(wrong).unwrap() {
        ResponseCopyBank::Denied { err_msg } => assert_eq!(err_msg, "Invalid password."),
        other => panic!("unexpected {:?}", other),
    }
    let right = RequestCopyBank {
        password: PasswordHash::from_password("seed", "alice"),
        bank: BankId::from_name("alice"),
    };
    match ledger.copy_bank(right).unwrap() {
        ResponseCopyBank::Copied(copy) => {
            assert_eq!(copy.entries.len(), 1);
            assert!(copy.bank_secret == secret_of(1));
            assert!(copy.entries[0].broker_signature == sent[0].broker_signature);
        }
        other => panic!("unexpected {:?}", other),
    }
}

#[test]
fn transfer_between_banks_moves_the_money() {
    let mut ledger = Ledger::default();
    let mut sent = Vec::new();
    open(&mut ledger, "alice", secret_of(1), &mut sent);
    open(&mut ledger, "bob", secret_of(20), &mut sent);
    let before = total(&ledger, "alice") + total(&ledger, "bob");
    let req = signed_transfer(&secret_of(1), "alice", AccountType::Wallet, "bob", AccountType::Wallet, 2_500);
    let res = ledger.transfer(req, &mut sent).unwrap();
    assert!(matches!(res, ResponseTransfer::Transferred));
    assert_eq!(balance(&ledger, "alice", AccountType::Wallet), 97_500);
    assert_eq!(balance(&ledger, "bob", AccountType::Wallet), 102_500);
    assert_eq!(total(&ledger, "alice") + total(&ledger, "bob"), before);
    assert_eq!(sent.len(), 6);
    assert_eq!(ledger.transactions_for(BankId::from_name("alice")).len(), 1);
    assert_eq!(ledger.transactions_for(BankId::from_name("bob")).len(), 1);
    assert_eq!(ledger.transactions_for(BankId::from_name("bob"))[0].amount_cents, 2_500);
    assert_eq!(ledger.entries_for(BankId::from_name("alice")).len(), 3);
    assert_eq!(ledger.entries_for(BankId::from_name("bob")).len(), 3);
    // the records of the transaction: the broker signs the entry, and the
    // header links to the bank's last message
    let record = &sent[4];
    assert!(matches!(record.entry, LedgerEntry::Transaction { .. }));
    assert!(record.broker_signature == broker().sign(&record.entry));
    assert!(record.header.bank_signature == secret_of(1).sign(&record.entry));
    assert!(record.header.prev_signature == sent[2].broker_signature);
    assert!(sent[5].broker_signature == broker().sign(&sent[5].entry));
    assert!(sent[5].header.prev_signature == sent[3].broker_signature);
    assert_eq!(sent[5].header.bank_id.as_str(), "bob");
}

#[test]
fn transfer_within_a_bank_keeps_its_money() {
    let mut ledger = Ledger::default();
    let mut sent = Vec::new();
    open(&mut ledger, "alice", secret_of(1), &mut sent);
    let req = signed_transfer(&secret_of(1), "alice", AccountType::Savings, "alice", AccountType::Wallet, 900);
    let res = ledger.transfer(req, &mut sent).unwrap();
    assert!(matches!(res, ResponseTransfer::Transferred));
    assert_eq!(balance(&ledger, "alice", AccountType::Wallet), 100_900);
    assert_eq!(balance(&ledger, "alice", AccountType::Savings), 99_899_100);
    assert_eq!(total(&ledger, "alice"), 100_000_000);
    assert_eq!(sent.len(), 4);
    assert_eq!(ledger.transactions_for(BankId::from_name("alice")).len(), 1);
}

#[test]
fn transfer_refusals() {
    let mut ledger = Ledger::default();
    let mut sent = Vec::new();
    open(&mut ledger, "alice", secret_of(1), &mut sent);
    open(&mut ledger, "bob", secret_of(20), &mut sent);

    let req = signed_transfer(&secret_of(1), "carol", AccountType::Wallet, "bob", AccountType::Wallet, 1);
    match ledger.transfer(req, &mut sent).unwrap() {
        ResponseTransfer::InvalidBank { bank_id } => assert_eq!(bank_id.as_str(), "carol"),
        other => panic!("unexpected {:?}", other),
    }
    let req = signed_transfer(&secret_of(1), "alice", AccountType::Wallet, "carol", AccountType::Wallet, 1);
    match ledger.transfer(req, &mut sent).unwrap() {
        ResponseTransfer::InvalidBank { bank_id } => assert_eq!(bank_id.as_str(), "carol"),
        other => panic!("unexpected {:?}", other),
    }
    let req = signed_transfer(&secret_of(20), "alice", AccountType::Wallet, "bob", AccountType::Wallet, 1);
    assert!(matches!(ledger.transfer(req, &mut sent).unwrap(), ResponseTransfer::InvalidSignature));
    let req = signed_transfer(&secret_of(1), "alice", AccountType::Printer, "bob", AccountType::Wallet, 1);
    match ledger.transfer(req, &mut sent).unwrap() {
        ResponseTransfer::InvalidAccount { bank_id, account } => {
            assert_eq!(bank_id.as_str(), "alice");
            assert_eq!(account, AccountType::Printer);
        }
        other => panic!("unexpected {:?}", other),
    }
    let req = signed_transfer(&secret_of(1), "alice", AccountType::Wallet, "bob", AccountType::Printer, 1);
    match ledger.transfer(req, &mut sent).unwrap() {
        ResponseTransfer::InvalidAccount { bank_id, account } => {
            assert_eq!(bank_id.as_str(), "bob");
            assert_eq!(account, AccountType::Printer);
        }
        other => panic!("unexpected {:?}", other),
    }
    let req = signed_transfer(&secret_of(1), "alice", AccountType::Wallet, "bob", AccountType::Savings, 100_001);
    match ledger.transfer(req, &mut sent).unwrap() {
        ResponseTransfer::InsufficientFunds { requested, available, bank_id, account } => {
            assert_eq!(requested, 100_001);
            assert_eq!(available, 100_000);
            assert_eq!(bank_id.as_str(), "bob");
            assert_eq!(account, AccountType::Savings);
        }
        other => panic!("unexpected {:?}", other),
    }
    assert_eq!(sent.len(), 2);
    assert_eq!(balance(&ledger, "alice", AccountType::Wallet), 100_000);
}

#[test]
fn transfer_of_the_whole_balance_is_allowed() {
    let mut ledger = Ledger::default();
    let mut sent = Vec::new();
    open(&mut ledger, "alice", secret_of(1), &mut sent);
    open(&mut ledger, "bob", secret_of(20), &mut sent);
    let req = signed_transfer(&secret_of(1), "alice", AccountType::Wallet, "bob", AccountType::Savings, 100_000);
    assert!(matches!(ledger.transfer(req, &mut sent).unwrap(), ResponseTransfer::Transferred));
    assert_eq!(balance(&ledger, "alice", AccountType::Wallet), 0);
    assert_eq!(balance(&ledger, "bob", AccountType::Savings), 100_000_000);
}

#[test]
fn transfer_checked_refuses_a_credit_that_overflows() {
    let mut ledger = Ledger::default();
    let mut sent = Vec::new();
    open(&mut ledger, "alice", secret_of(1), &mut sent);
    let mut mint = bank_named("mint");
    mint.accounts.push(Account { type_: AccountType::Printer, balance_cents: u64::MAX - 10 });
    let res = ledger.new_bank(&broker(), RequestNewBank { secret: secret_of(30), bank: mint }, &mut sent);
    assert!(res.is_ok());
    let req = signed_transfer(&secret_of(1), "alice", AccountType::Wallet, "mint", AccountType::Printer, 11);
    assert!(ledger.transfer_checked(req, &mut sent).is_none());
    assert_eq!(sent.len(), 2);
    assert_eq!(balance(&ledger, "alice", AccountType::Wallet), 100_000);

    let req = signed_transfer(&secret_of(1), "alice", AccountType::Wallet, "mint", AccountType::Printer, 10);
    let res = ledger.transfer_checked(req, &mut sent).unwrap().unwrap();
    assert!(matches!(res, ResponseTransfer::Transferred));
    assert_eq!(balance(&ledger, "mint", AccountType::Printer), u64::MAX);
}

#[test]
fn checked_total_funds_detects_overflow() {
    let mut bank = bank_named("mint");
    bank.accounts[0].balance_cents = 5;
    bank.accounts[1].balance_cents = 7;
    assert_eq!(bank.checked_total_funds(), Some(12));
    bank.accounts.push(Account { type_: AccountType::Printer, balance_cents: u64::MAX - 11 });
    assert_eq!(bank.checked_total_funds(), None);
}

#[test]
fn ledger_add_checks_the_bank_and_the_signature() {
    let mut ledger = Ledger::default();
    let mut sent = Vec::new();
    let entry = LedgerEntry::UpdateBank(bank_named("ghost"));
    let sig = secret_of(1).sign(&entry);
    let res = ledger.add(BankId::from_name("ghost"), entry, sig, &mut sent);
    assert_eq!(res.unwrap_err(), LedgerError::UnknownBank);

    open(&mut ledger, "alice", secret_of(1), &mut sent);
    let entry = LedgerEntry::UpdateBank(ledger.bank(BankId::from_name("alice")).unwrap().clone());
    let bad = secret_of(2).sign(&entry);
    let res = ledger.add(BankId::from_name("alice"), entry.clone(), bad, &mut sent);
    assert_eq!(res.unwrap_err(), LedgerError::InvalidBankSignature);
    let good = secret_of(1).sign(&entry);
    assert!(ledger.add(BankId::from_name("alice"), entry, good, &mut sent).is_ok());
    assert_eq!(sent.len(), 2);
    assert_eq!(ledger.entries_for(BankId::from_name("alice")).len(), 2);
}

#[test]
fn new_entry_keeps_the_entry() {
    let e = Ledger::new_entry(LedgerEntry::UpdateBank(bank_named("alice")));
    match e.entry {
        LedgerEntry::UpdateBank(b) => assert_eq!(b.owner.as_str(), "alice"),
        other => panic!("unexpected {:?}", other),
    }
}

#[test]
fn unknown_bank_has_no_entries_or_transactions() {
    let ledger = Ledger::default();
    assert!(ledger.ledger_for(BankId::from_name("x")).is_none());
    assert!(ledger.bank(BankId::from_name("x")).is_none());
    assert!(ledger.entries_for(BankId::from_name("x")).is_empty());
    assert!(ledger.transactions_for(BankId::from_name("x")).is_empty());
}

#[test]
fn ledger_mut_for_reaches_the_bank() {
    let mut ledger = Ledger::default();
    let mut sent = Vec::new();
    open(&mut ledger, "alice", secret_of(1), &mut sent);
    assert!(ledger.ledger_mut_for(BankId::from_name("bob")).is_none());
    let l = ledger.ledger_mut_for(BankId::from_name("alice")).unwrap();
    assert_eq!(l.entries.len(), 1);
}
