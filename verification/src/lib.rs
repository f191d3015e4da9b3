//! The core of a compiler front end for a small functional language:
//! a parser-combinator engine over a position-tracking state, a type store
//! with a unification-driven constraint solver, and a lowering of
//! canonical expressions to a block-structured SSA form.

pub mod region;
pub mod parse;
pub mod symbol;
pub mod text;
pub mod subs;
pub mod storage;
pub mod can;
pub mod ir;
pub mod types;
pub mod gen;
pub mod constraint;
pub mod solve;
pub mod backend;
