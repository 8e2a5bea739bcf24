//! Personal word-frequency database: the data model, the weighted merge of two
//! device databases, the sync cooldown trigger, the device registry and the
//! decision steps of the command-line tool, each with its contract.

pub mod adapter;
pub mod cli;
pub mod config;
pub mod db;
pub mod error;
pub mod ffi;
pub mod sync;
pub mod text;
pub mod time;
