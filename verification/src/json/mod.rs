//! JSON: values, the grammar, the parser, the writer and paths.

pub mod grammar;
pub mod parse;
pub mod path;
pub mod roundtrip;
pub mod value;
pub mod write;
