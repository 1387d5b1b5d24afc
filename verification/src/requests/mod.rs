pub mod copy_bank;
pub mod new_bank;
pub mod transfer;
pub mod update_bank;
