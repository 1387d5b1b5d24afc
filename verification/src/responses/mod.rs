pub mod copy_bank;
pub mod create_bank;
pub mod transfer;
pub mod update_bank;
