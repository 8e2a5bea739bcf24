pub mod device;
pub mod entry;
pub mod merge;
pub mod store;
pub mod merge_laws;
