//! Tags for the syntactic productions a parser may be working on.

use vstd::prelude::*;

verus! {

/// The production being attempted. It plays no part in parsing itself:
/// it travels with the state so that a failure can name what was being read.
#[derive(Debug, Clone, Copy, PartialEq, Eq, Structural)]
pub enum Attempting {
    List,
    Keyword,
    StringLiteral,
    RecordLiteral,
    RecordFieldLabel,
    InterpolatedString,
    NumberLiteral,
    UnicodeEscape,
    ClosureParams,
    ClosureBody,
    Def,
    Module,
    Record,
    Identifier,
    ConcreteType,
    TypeVariable,
    WhenCondition,
    WhenBranch,
    Expression,
}

} // verus!
