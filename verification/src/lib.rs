//! Per-category line and byte counts of newline-delimited JSON logs.

pub mod register;
pub mod decode;
pub mod scan;
pub mod store;
pub mod parser;
pub mod shared;
pub mod laws;
pub mod sample;
