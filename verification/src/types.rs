//! The names of the built-in types that lowering knows.

use vstd::prelude::*;

verus! {

/// The module of the type of all numbers.
pub const MOD_NUM: &'static str = "Num";

/// The type of all numbers; its argument says which kind.
pub const TYPE_NUM: &'static str = "Num";

/// The module of the integer kind.
pub const MOD_INT: &'static str = "Int";

/// The argument of `Num.Num` for integers.
pub const TYPE_INTEGER: &'static str = "Integer";

/// The module of the floating-point kind.
pub const MOD_FLOAT: &'static str = "Float";

/// The argument of `Num.Num` for floating-point numbers.
pub const TYPE_FLOATINGPOINT: &'static str = "FloatingPoint";

/// The module of strings.
pub const MOD_STR: &'static str = "Str";

/// The type of strings.
pub const TYPE_STR: &'static str = "Str";

} // verus!
