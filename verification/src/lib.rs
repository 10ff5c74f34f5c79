//! A JSON-like text reader: a tokenizer and a recursive-descent parser over
//! a generic lookahead cursor, reporting precise line/column positions on
//! malformed input.

pub mod element_stream;
pub mod location;
pub mod parser;
pub mod roundtrip;
pub mod tokenizer;
