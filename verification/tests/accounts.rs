use immutable_bank_model::account::{Account, AccountRef, AccountType};
use immutable_bank_model::bank::Bank;
use immutable_bank_model::bank_id::BankId;
use immutable_bank_model::password_hash::PasswordHash;
use immutable_bank_model::pretty::{pretty_print_cents, pretty_print_u64};

fn sample_bank() -> Bank {
    Bank::new(BankId::from_name("Alice"), PasswordHash::from_password("seed", "pw"))
}

#[test]
fn account_kinds_move_and_send() {
    assert!(AccountType::Wallet.can_move_money());
    assert!(AccountType::Savings.can_move_money());
    assert!(!AccountType::Printer.can_move_money());
    assert!(AccountType::Wallet.can_send_money());
    assert!(!AccountType::Savings.can_send_money());
    assert!(!AccountType::Printer.can_send_money());
}

#[test]
fn every_kind_that_sends_also_moves() {
    for t in [AccountType::Wallet, AccountType::Savings, AccountType::Printer] {
        assert!(!t.can_send_money() || t.can_move_money());
    }
}

#[test]
fn account_kind_labels() {
    assert_eq!(AccountType::Wallet.to_string(), "Wallet Account");
    assert_eq!(AccountType::Savings.to_string(), "Savings Account");
    assert_eq!(AccountType::Printer.to_string(), "Money Printer");
}

#[test]
fn new_bank_has_empty_wallet_and_savings() {
    let mut bank = sample_bank();
    assert_eq!(bank.accounts.len(), 2);
    assert_eq!(bank.accounts[0].type_, AccountType::Wallet);
    assert_eq!(bank.accounts[1].type_, AccountType::Savings);
    assert_eq!(bank.total_funds(), 0);
    assert!(bank.account(AccountType::Printer).is_none());
    assert_eq!(bank.account(AccountType::Savings).unwrap().balance_cents, 0);
}

#[test]
fn bank_id_is_owner() {
    let bank = sample_bank();
    assert_eq!(bank.id().as_str(), "alice");
}

#[test]
fn account_mut_changes_first_account_of_kind() {
    let mut bank = sample_bank();
    bank.accounts.push(Account { type_: AccountType::Wallet, balance_cents: 7 });
    bank.account_mut(AccountType::Wallet).unwrap().balance_cents = 500;
    assert_eq!(bank.accounts[0].balance_cents, 500);
    assert_eq!(bank.accounts[2].balance_cents, 7);
    assert_eq!(bank.total_funds(), 507);
    assert!(bank.account_mut(AccountType::Printer).is_none());
}

#[test]
fn total_funds_sums_balances() {
    let mut bank = sample_bank();
    bank.accounts[0].balance_cents = 100_000;
    bank.accounts[1].balance_cents = 99_900_000;
    bank.accounts.push(Account { type_: AccountType::Printer, balance_cents: 1 });
    assert_eq!(bank.total_funds(), 100_000_001);
}

#[test]
fn bank_id_lowercases_and_displays_in_brackets() {
    let id = BankId::from_name("MiXeD Bank");
    assert_eq!(id.as_str(), "mixed bank");
    assert_eq!(id.to_string(), "(mixed bank)");
    let stored = BankId::from_stored_name("Kept".to_string());
    assert_eq!(stored.as_str(), "Kept");
}

#[test]
fn account_ref_display() {
    let r = AccountRef { bank: BankId::from_name("bob"), account: AccountType::Savings };
    assert_eq!(r.to_string(), "(bob)(Savings Account)");
}

#[test]
fn pretty_cents() {
    assert_eq!(pretty_print_cents(0), "$0.00");
    assert_eq!(pretty_print_cents(5), "$0.05");
    assert_eq!(pretty_print_cents(1234), "$12.34");
    assert_eq!(pretty_print_cents(100_000), "$1,000.00");
    assert_eq!(pretty_print_cents(99_900_000), "$999,000.00");
    assert_eq!(pretty_print_cents(123_456_789), "$1,234,567.89");
    assert_eq!(pretty_print_cents(u64::MAX), "$184,467,440,737,095,516.15");
}

#[test]
fn pretty_u64_groups_by_three() {
    assert_eq!(pretty_print_u64(0), "0");
    assert_eq!(pretty_print_u64(999), "999");
    assert_eq!(pretty_print_u64(1000), "1,000");
    assert_eq!(pretty_print_u64(123456), "123,456");
    assert_eq!(pretty_print_u64(1234567), "1,234,567");
}

#[test]
fn password_hash_chains_digests() {
    let h = PasswordHash::from_password("seed", "secret");
    let expected = sha256::digest(
        format!("{}-{}", sha256::digest("seed".as_bytes()), sha256::digest("secret".as_bytes()))
            .as_bytes(),
    );
    assert_eq!(h.as_str(), expected);
    assert_eq!(h.to_string(), format!("({})", expected));
    assert!(h == PasswordHash::from_password("seed", "secret"));
    assert!(h != PasswordHash::from_password("seed", "other"));
}

#[test]
fn cents_text_gives_back_the_cents() {
    for total in [0u64, 5, 99, 100, 123_456, 100_000_000, u64::MAX] {
        let text = pretty_print_cents(total);
        let digits: String = text.chars().filter(|c| !matches!(c, '$' | ',' | '.')).collect();
        assert_eq!(digits.parse::<u64>().unwrap(), total);
    }
}
