//! The parser-combinator engine.

pub mod ast;
pub mod state;
pub mod parser;
pub mod text;
pub mod sequence;
pub mod repeat;
pub mod laws;
