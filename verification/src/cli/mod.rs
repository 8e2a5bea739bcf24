pub mod daemon;
pub mod device;
pub mod export;
pub mod import;
pub mod init;
pub mod scan;
pub mod status;
pub mod sync_cmd;
