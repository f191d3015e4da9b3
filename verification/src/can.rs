//! Canonical expressions: what is left of the source once names are
//! resolved and every literal carries its type variable.

use vstd::prelude::*;
use crate::region::Located;
use crate::subs::Variable;
use crate::symbol::Symbol;

verus! {

/// A pattern on the left of a definition or at the head of a branch.
#[derive(Debug, Clone, Copy, PartialEq, Eq, Structural)]
pub enum Pattern {
    /// A name to bind.
    Identifier(Symbol),
    /// An integer to compare with.
    IntLiteral(i64),
    /// A floating-point number to compare with, as its IEEE 754 bits.
    FloatLiteral(u64),
    /// Anything.
    Underscore,
}

/// A definition: a pattern and the expression bound to it.
#[derive(Debug, PartialEq, Eq)]
pub struct Def {
    pub loc_pattern: Located<Pattern>,
    pub loc_expr: Located<Expr>,
}

/// A canonical expression.
#[derive(Debug, PartialEq, Eq)]
pub enum Expr {
    /// An integer literal with its type variable.
    Int(Variable, i64),
    /// A floating-point literal with its type variable, as its IEEE 754 bits.
    Float(Variable, u64),
    /// A string literal.
    Str(String),
    /// A block string literal.
    BlockStr(String),
    /// A use of a bound name.
    Var { resolved_symbol: Symbol },
    /// A choice by the value of a condition.
    When { loc_cond: Box<Located<Expr>>, branches: Vec<(Located<Pattern>, Located<Expr>)> },
    /// A definition that cannot refer to itself, and the expression it is
    /// in scope for.
    LetNonRec(Box<Def>, Box<Located<Expr>>),
    /// A list of expressions.
    List(Vec<Located<Expr>>),
    /// The record without fields.
    EmptyRecord,
}

/// A top-level procedure.
#[derive(Debug, PartialEq, Eq)]
pub struct Procedure {
    pub name: Symbol,
    pub body: Expr,
}

impl Expr {
    /// The number of expressions that code is made for when this one is
    /// lowered: itself and, in a binding or a choice of two, its parts.
    pub open spec fn weight(&self) -> nat
        decreases *self,
    {
        match self {
            Expr::When { loc_cond, branches } => if branches@.len() == 2 {
                1 + loc_cond.value.weight() + branches@[0].1.value.weight()
                    + branches@[1].1.value.weight()
            } else {
                1
            },
            Expr::LetNonRec(def, loc_ret) => 1 + def.loc_expr.value.weight()
                + loc_ret.value.weight(),
            _ => 1,
        }
    }
}

} // verus!
