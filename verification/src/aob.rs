//! The array-of-bytes (AOB) scanning interface: a pattern with a boolean
//! per-byte mask (a byte is either fully matched or fully wildcarded), its
//! parsers, and the simple, grouped and chunked scanners built on the same
//! matching model as the core engine.

pub mod ida_pattern;
pub mod parser;
pub mod pattern;
pub mod scanner;
pub mod tokenizer;
