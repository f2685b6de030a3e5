//! Reading frames from a slice of bytes.

pub mod parser;
