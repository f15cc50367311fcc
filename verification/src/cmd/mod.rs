//! What the commands decide and say.

pub mod grep;
pub mod init;
pub mod install;
pub mod laws;
pub mod login;
pub mod mount;
pub mod provision;
pub mod startup;
pub mod status;
pub mod unmount;
