pub mod trigger;
