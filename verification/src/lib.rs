//! Model of the immutable bank: banks, accounts, a signed append-only ledger per
//! bank and the operations that extend it.

pub mod account;
pub mod bank;
pub mod bank_id;
pub mod base64_array;
pub mod digest;
pub mod encode;
pub mod error;
pub mod header;
pub mod journal;
pub mod ledger;
pub mod ledger_entry;
pub mod ledger_type;
pub mod logic;
pub mod password_hash;
pub mod pretty;
pub mod random;
pub mod requests;
pub mod responses;
pub mod secret;
pub mod signature;
pub mod state;
pub mod transaction;
pub mod web;
