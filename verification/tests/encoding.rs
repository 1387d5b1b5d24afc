use base64::Engine;
use immutable_bank_model::account::{Account, AccountRef, AccountType};
use immutable_bank_model::bank::Bank;
use immutable_bank_model::bank_id::BankId;
use immutable_bank_model::encode::Encode;
use immutable_bank_model::ledger::LedgerBrokerHeader;
use immutable_bank_model::ledger_type::LedgerEntry;
use immutable_bank_model::password_hash::PasswordHash;
use immutable_bank_model::secret::LedgerSecret;
use immutable_bank_model::signature::LedgerSignature;
use immutable_bank_model::transaction::Transaction;

fn layout<E: Encode>(e: &E) -> Vec<u8> {
    let mut out = Vec::new();
    e.encode_into(&mut out).unwrap();
    out
}

fn secret() -> LedgerSecret {
    LedgerSecret::from_static([1u8; 32], [2u8; 32], [3u8; 32], [4u8; 32])
}

fn key_bytes() -> Vec<u8> {
    let mut v = vec![1u8; 32];
    v.extend_from_slice(&[2u8; 32]);
    v.extend_from_slice(&[3u8; 32]);
    v.extend_from_slice(&[4u8; 32]);
    v
}

fn transaction() -> Transaction {
    Transaction {
        from: AccountRef { bank: BankId::from_name("Alice"), account: AccountType::Wallet },
        to: AccountRef { bank: BankId::from_name("bob"), account: AccountType::Savings },
        description: "rent".to_string(),
        amount_cents: 500,
    }
}

fn bank() -> Bank {
    Bank {
        owner: BankId::from_name("alice"),
        password: PasswordHash::from_stored_hash("h".to_string()),
        accounts: vec![
            Account { type_: AccountType::Wallet, balance_cents: 7 },
            Account { type_: AccountType::Printer, balance_cents: 9 },
        ],
    }
}

#[test]
fn transaction_layout_is_bincode_of_its_fields() {
    let expected = bincode::serialize(&(
        ("alice".to_string(), 0u32),
        ("bob".to_string(), 1u32),
        "rent".to_string(),
        500u64,
    ))
    .unwrap();
    assert_eq!(layout(&transaction()), expected);
}

#[test]
fn bank_layout_is_bincode_of_its_fields() {
    let accounts: Vec<(u32, u64)> = vec![(0, 7), (2, 9)];
    let expected = bincode::serialize(&("alice".to_string(), "h".to_string(), accounts)).unwrap();
    assert_eq!(layout(&bank()), expected);
}

#[test]
fn entry_layouts_start_with_the_variant_index() {
    let accounts: Vec<(u32, u64)> = vec![(0, 7), (2, 9)];
    let b64 = |v: [u8; 32]| base64::engine::general_purpose::STANDARD.encode(v);
    let new_bank = LedgerEntry::NewBank { bank_secret: secret(), bank: bank() };
    let expected = bincode::serialize(&(
        0u32,
        (b64([1u8; 32]), b64([2u8; 32]), b64([3u8; 32]), b64([4u8; 32])),
        ("alice".to_string(), "h".to_string(), accounts.clone()),
    ))
    .unwrap();
    assert_eq!(layout(&new_bank), expected);

    let update = LedgerEntry::UpdateBank(bank());
    let expected =
        bincode::serialize(&(1u32, ("alice".to_string(), "h".to_string(), accounts))).unwrap();
    assert_eq!(layout(&update), expected);

    let t = LedgerEntry::Transaction { transaction: transaction() };
    let expected = bincode::serialize(&(
        2u32,
        ("alice".to_string(), 0u32),
        ("bob".to_string(), 1u32),
        "rent".to_string(),
        500u64,
    ))
    .unwrap();
    assert_eq!(layout(&t), expected);
}

#[test]
fn header_layout_is_bincode_of_its_fields() {
    let header = LedgerBrokerHeader {
        bank_id: BankId::from_name("alice"),
        prev_signature: LedgerSignature { hash: "p".to_string() },
        bank_signature: LedgerSignature { hash: "bs".to_string() },
    };
    let expected =
        bincode::serialize(&("alice".to_string(), "p".to_string(), "bs".to_string())).unwrap();
    assert_eq!(layout(&header), expected);
}

#[test]
fn sign_is_the_sha256_of_the_secret_then_the_layout() {
    let t = transaction();
    let mut data = key_bytes();
    data.extend_from_slice(&layout(&t));
    assert_eq!(secret().sign(&t).hash, sha256::digest(&data[..]));
    assert_eq!(secret().sign(&t).to_string().len(), 64);
}

#[test]
fn sign_ext_covers_both_values() {
    let t = transaction();
    let b = bank();
    let mut data = key_bytes();
    data.extend_from_slice(&layout(&t));
    data.extend_from_slice(&layout(&b));
    assert_eq!(secret().sign_ext(&t, &b).hash, sha256::digest(&data[..]));
}

#[test]
fn different_secrets_sign_differently() {
    let other = LedgerSecret::from_static([1u8; 32], [2u8; 32], [3u8; 32], [5u8; 32]);
    assert!(secret().sign(&transaction()) != other.sign(&transaction()));
    assert!(secret() != other);
    assert!(secret() == LedgerSecret::from_static([1u8; 32], [2u8; 32], [3u8; 32], [4u8; 32]));
}

#[test]
fn secret_blocks_round_trip() {
    let (a, b, c, d) = secret().blocks();
    assert_eq!(a, [1u8; 32]);
    assert_eq!(b, [2u8; 32]);
    assert_eq!(c, [3u8; 32]);
    assert_eq!(d, [4u8; 32]);
}

#[test]
fn fresh_secrets_differ() {
    assert!(LedgerSecret::new() != LedgerSecret::new());
}

#[test]
fn random_signature_is_a_hex_digest() {
    let s = LedgerSignature::random();
    assert_eq!(s.hash.len(), 64);
    assert!(s.hash.chars().all(|c| c.is_ascii_hexdigit()));
    assert!(LedgerSignature::zero().hash.is_empty());
}

#[test]
fn texts_of_entries_and_transactions() {
    assert_eq!(transaction().to_string(), "[$5.00 (alice)(Wallet Account)->(bob)(Savings Account)]");
    assert_eq!(
        LedgerEntry::Transaction { transaction: transaction() }.to_string(),
        "LedgerEntry::Transaction ([$5.00 (alice)(Wallet Account)->(bob)(Savings Account)])"
    );
    assert_eq!(LedgerEntry::UpdateBank(bank()).to_string(), "LedgerEntry::UpdateBank ((alice))");
    assert_eq!(
        LedgerEntry::NewBank { bank_secret: secret(), bank: bank() }.to_string(),
        "LedgerEntry::NewBank ((alice))"
    );
    assert_eq!(transaction().from.to_string(), "(alice)(Wallet Account)");
}
