pub mod rime;
pub mod scan;
pub mod rime_laws;
pub mod scan_laws;
