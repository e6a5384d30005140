//! Parsing primitives for a symbol-name decoder that reads its input as a
//! stream: every parser answers with a result, with a structural error, or
//! with a request for more bytes.

pub mod parser;
