//! Lowering canonical expressions to basic blocks.
//!
//! A literal becomes a constant. A binding gets a stack slot in the entry
//! block, a store of the bound value and, wherever the name is used, a
//! load. A choice between two branches becomes a comparison, a block for
//! each branch, and a block where the two meet and a phi picks the value.
//! Whatever cannot be lowered yet ends the lowering with an error that
//! names it.

use vstd::prelude::*;
use vstd::string::*;
use crate::can::{Expr, Pattern, Procedure};
use crate::ir::{
    flag_ok, lemma_pointer_ok_grows, lemma_value_ok_grows, pointer_ok, value_ok, BasicType,
    BasicValue, BlockLabel, Incoming, Instr, IrBuilder, IrBuilderView, Operand, SlotPointer,
};
use crate::subs::{Content, ContentView, FlatType, FlatTypeView, Subs, Variable};
use crate::symbol::Symbol;
use crate::text::same_text;
use crate::types::{
    MOD_FLOAT, MOD_INT, MOD_NUM, MOD_STR, TYPE_FLOATINGPOINT, TYPE_INTEGER, TYPE_NUM, TYPE_STR,
};

verus! {

/// Why an expression could not be lowered.
#[derive(Debug, Clone, Copy, PartialEq, Eq, Structural)]
pub enum CompileError {
    /// The expression is of a form that is not lowered yet.
    UnsupportedExpr,
    /// A choice has fewer than two branches.
    TooFewBranches,
    /// A choice has more than two branches.
    TooManyBranches,
    /// A definition binds something other than a name.
    UnsupportedDefPattern,
    /// A branch matches an integer against something other than an integer
    /// literal.
    UnsupportedIntPattern,
    /// A branch matches a floating-point number against something other
    /// than a floating-point literal.
    UnsupportedFloatPattern,
    /// The two branches of a choice yield values of different types.
    BranchTypeMismatch,
    /// A name is used that nothing in scope binds.
    UnboundSymbol(Symbol),
    /// A type variable is not in the type store.
    UnknownVariable(Variable),
    /// The content is no structure, so it has no basic type.
    UnsupportedContent,
    /// The structure is no applied type.
    UnsupportedFlatType,
    /// The applied type is not `Num.Num`.
    UnsupportedApply,
    /// `Num.Num` is not applied to exactly one argument.
    WrongArgumentCount,
    /// The argument of `Num.Num` is neither `Int.Integer` nor
    /// `Float.FloatingPoint`.
    UnrecognizedNumericType,
    /// The value is not of the type that the content stands for.
    ValueKindMismatch,
}

/// What the lowering reads besides the expression: the procedures of the
/// module and the solved types.
pub struct Env {
    pub procedures: Vec<Procedure>,
    pub subs: Subs,
}

/// The names in scope, each with the content of its type and its stack
/// slot. A scope is never changed: a binding makes a new scope in front of
/// the one it was made in.
pub enum Scope<'s> {
    Empty,
    Bound { symbol: Symbol, content: &'s Content, pointer: SlotPointer, outer: &'s Scope<'s> },
}

impl<'s> View for Scope<'s> {
    type V = Map<Symbol, (ContentView, SlotPointer)>;

    open spec fn view(&self) -> Map<Symbol, (ContentView, SlotPointer)> {
        self.bindings()
    }
}

impl<'s> Scope<'s> {
    /// What each name in scope is bound to. A binding hides the bindings of
    /// the same name behind it.
    pub open spec fn bindings(&self) -> Map<Symbol, (ContentView, SlotPointer)>
        decreases self,
    {
        match self {
            Scope::Empty => Map::empty(),
            Scope::Bound { symbol, content, pointer, outer } => outer.bindings().insert(
                *symbol,
                (content@, *pointer),
            ),
        }
    }

    /// The content and the slot that `symbol` is bound to, if it is bound.
    pub fn get(&self, symbol: Symbol) -> (bound: Option<(&'s Content, SlotPointer)>)
        ensures
            match bound {
                Some((content, pointer)) => self@.contains_key(symbol) && self@[symbol] == (
                    content@,
                    pointer,
                ),
                None => !self@.contains_key(symbol),
            },
        decreases self,
    {
        match self {
            Scope::Empty => None,
            Scope::Bound { symbol: bound, content, pointer, outer } => {
                if bound.0 == symbol.0 {
                    Some((*content, *pointer))
                } else {
                    outer.get(symbol)
                }
            },
        }
    }
}

/// Whether the content is the type `module_name.name` without arguments.
pub open spec fn is_plain_type(
    module_name: Seq<char>,
    name: Seq<char>,
    args: Seq<Variable>,
    expected_module: Seq<char>,
    expected_name: Seq<char>,
) -> bool {
    module_name == expected_module && name == expected_name && args.len() == 0
}

/// The kind of number that the argument of `Num.Num` stands for.
pub open spec fn numeric_type(content: ContentView) -> Result<BasicType, CompileError> {
    match content {
        ContentView::Structure(FlatTypeView::Apply { module_name, name, args }) => {
            if is_plain_type(module_name, name, args, MOD_FLOAT@, TYPE_FLOATINGPOINT@) {
                Ok(BasicType::Float)
            } else if is_plain_type(module_name, name, args, MOD_INT@, TYPE_INTEGER@) {
                Ok(BasicType::Int)
            } else {
                Err(CompileError::UnrecognizedNumericType)
            }
        },
        ContentView::Structure(_) => Err(CompileError::UnsupportedFlatType),
        _ => Err(CompileError::UnsupportedContent),
    }
}

/// The basic type of values of the type that `content` stands for:
/// `Num.Num` of `Int.Integer` is a 64-bit integer, `Num.Num` of
/// `Float.FloatingPoint` a 64-bit floating-point number.
pub open spec fn basic_type(subs: &Subs, content: ContentView) -> Result<BasicType, CompileError> {
    match content {
        ContentView::Structure(FlatTypeView::Apply { module_name, name, args }) => {
            if module_name == MOD_NUM@ && name == TYPE_NUM@ {
                if args.len() != 1 {
                    Err(CompileError::WrongArgumentCount)
                } else if !subs.has(args[0]) {
                    Err(CompileError::UnknownVariable(args[0]))
                } else {
                    numeric_type(subs.content_of(args[0]))
                }
            } else {
                Err(CompileError::UnsupportedApply)
            }
        },
        ContentView::Structure(_) => Err(CompileError::UnsupportedFlatType),
        _ => Err(CompileError::UnsupportedContent),
    }
}

/// The kind of number that the argument of `Num.Num` stands for.
pub fn num_to_basic_type(content: &Content) -> (result: Result<BasicType, CompileError>)
    ensures
        result == numeric_type(content@),
{
    match content {
        Content::Structure(flat_type) => match flat_type {
            FlatType::Apply { module_name, name, args } => {
                let module_name = module_name.as_str();
                let name = name.as_str();
                if same_text(module_name, MOD_FLOAT) && same_text(name, TYPE_FLOATINGPOINT)
                    && args.len() == 0 {
                    Ok(BasicType::Float)
                } else if same_text(module_name, MOD_INT) && same_text(name, TYPE_INTEGER)
                    && args.len() == 0 {
                    Ok(BasicType::Int)
                } else {
                    Err(CompileError::UnrecognizedNumericType)
                }
            },
            _ => Err(CompileError::UnsupportedFlatType),
        },
        _ => Err(CompileError::UnsupportedContent),
    }
}

/// The basic type of values of the type that `content` stands for.
pub fn content_to_basic_type(content: &Content, subs: &Subs) -> (result: Result<
    BasicType,
    CompileError,
>)
    requires
        subs.redirects_down(),
    ensures
        result == basic_type(subs, content@),
{
    match content {
        Content::Structure(flat_type) => match flat_type {
            FlatType::Apply { module_name, name, args } => {
                if same_text(module_name.as_str(), MOD_NUM) && same_text(name.as_str(), TYPE_NUM) {
                    if args.len() != 1 {
                        Err(CompileError::WrongArgumentCount)
                    } else {
                        let arg = args[0];
                        if !subs.contains(arg) {
                            Err(CompileError::UnknownVariable(arg))
                        } else {
                            let arg_content = subs.get_without_compacting(arg);
                            num_to_basic_type(&arg_content)
                        }
                    }
                } else {
                    Err(CompileError::UnsupportedApply)
                }
            },
            _ => Err(CompileError::UnsupportedFlatType),
        },
        _ => Err(CompileError::UnsupportedContent),
    }
}

/// `value`, if it is of the kind of number that `content` stands for.
pub open spec fn numeric_value(content: ContentView, value: BasicValue) -> Result<
    BasicValue,
    CompileError,
> {
    match numeric_type(content) {
        Ok(kind) => if value.kind == kind {
            Ok(value)
        } else {
            Err(CompileError::ValueKindMismatch)
        },
        Err(error) => Err(error),
    }
}

/// Takes `value` as a number of the kind that `content`, the argument of
/// `Num.Num`, stands for.
pub fn num_to_bv(content: &Content, value: BasicValue) -> (result: Result<BasicValue, CompileError>)
    ensures
        result == numeric_value(content@, value),
{
    match num_to_basic_type(content) {
        Ok(kind) => {
            let matches = match (kind, value.kind) {
                (BasicType::Int, BasicType::Int) => true,
                (BasicType::Float, BasicType::Float) => true,
                _ => false,
            };
            if matches {
                Ok(value)
            } else {
                Err(CompileError::ValueKindMismatch)
            }
        },
        Err(error) => Err(error),
    }
}

/// The content of the type `Str.Str`.
pub open spec fn str_content() -> ContentView {
    ContentView::Structure(
        FlatTypeView::Apply { module_name: MOD_STR@, name: TYPE_STR@, args: Seq::empty() },
    )
}

/// The content of the type of an expression whose type can be read off:
/// a literal, or a name in scope.
pub open spec fn content_for(
    subs: &Subs,
    scope: Map<Symbol, (ContentView, SlotPointer)>,
    expr: &Expr,
) -> Result<ContentView, CompileError> {
    match expr {
        Expr::Int(var, _) | Expr::Float(var, _) => if subs.has(*var) {
            Ok(subs.content_of(*var))
        } else {
            Err(CompileError::UnknownVariable(*var))
        },
        Expr::Str(_) | Expr::BlockStr(_) => Ok(str_content()),
        Expr::Var { resolved_symbol } => if scope.contains_key(*resolved_symbol) {
            Ok(scope[*resolved_symbol].0)
        } else {
            Err(CompileError::UnboundSymbol(*resolved_symbol))
        },
        _ => Err(CompileError::UnsupportedExpr),
    }
}

/// The content of the type of an expression whose type can be read off.
fn content_from_expr(scope: &Scope<'_>, subs: &Subs, expr: &Expr) -> (result: Result<
    Content,
    CompileError,
>)
    requires
        subs.redirects_down(),
    ensures
        match result {
            Ok(content) => content_for(subs, scope@, expr) == Ok::<ContentView, CompileError>(
                content@,
            ),
            Err(error) => content_for(subs, scope@, expr) == Err::<ContentView, CompileError>(
                error,
            ),
        },
{
    match expr {
        Expr::Int(var, _) | Expr::Float(var, _) => {
            if subs.contains(*var) {
                Ok(subs.get_without_compacting(*var))
            } else {
                Err(CompileError::UnknownVariable(*var))
            }
        },
        Expr::Str(_) | Expr::BlockStr(_) => Ok(
            Content::Structure(
                FlatType::Apply {
                    module_name: MOD_STR.to_owned(),
                    name: TYPE_STR.to_owned(),
                    args: Vec::new(),
                },
            ),
        ),
        Expr::Var { resolved_symbol } => match scope.get(*resolved_symbol) {
            Some((content, _)) => Ok(content.duplicate()),
            None => Err(CompileError::UnboundSymbol(*resolved_symbol)),
        },
        _ => Err(CompileError::UnsupportedExpr),
    }
}

/// The constant for an integer literal.
pub open spec fn int_const(num: i64) -> BasicValue {
    BasicValue { kind: BasicType::Int, operand: Operand::ConstInt(num) }
}

/// The constant for a floating-point literal, given as its bits.
pub open spec fn float_const(bits: u64) -> BasicValue {
    BasicValue { kind: BasicType::Float, operand: Operand::ConstFloat(bits) }
}

/// The value that the next instruction of `builder` yields, taken as `kind`.
pub open spec fn next_value(builder: IrBuilderView, kind: BasicType) -> BasicValue {
    BasicValue { kind, operand: Operand::Result(builder.next_id()) }
}

/// The comparison of a condition's value with the literal of a pattern: an
/// integer with an integer literal, a floating-point number with a
/// floating-point literal.
pub open spec fn comparison(condition: BasicValue, pattern: Pattern) -> Result<
    Instr,
    CompileError,
> {
    match condition.kind {
        BasicType::Float => match pattern {
            Pattern::FloatLiteral(bits) => Ok(
                Instr::FloatCompare { left: condition, right: float_const(bits) },
            ),
            _ => Err(CompileError::UnsupportedFloatPattern),
        },
        BasicType::Int => match pattern {
            Pattern::IntLiteral(num) => Ok(
                Instr::IntCompare { left: condition, right: int_const(num) },
            ),
            _ => Err(CompileError::UnsupportedIntPattern),
        },
    }
}

/// The two ends of a choice: for each branch its value and the block that
/// control leaves it from.
pub struct Arms {
    pub then_value: BasicValue,
    pub then_block: usize,
    pub else_value: BasicValue,
    pub else_block: usize,
}

/// The value of `expr` and the builder after the code for it was written,
/// or the first error and the builder as it stood then.
pub open spec fn lower(
    subs: &Subs,
    scope: Map<Symbol, (ContentView, SlotPointer)>,
    builder: IrBuilderView,
    expr: &Expr,
) -> (Result<BasicValue, CompileError>, IrBuilderView)
    decreases expr.weight(), 0nat,
{
    match expr {
        Expr::Int(_, num) => (Ok(int_const(*num)), builder),
        Expr::Float(_, bits) => (Ok(float_const(*bits)), builder),
        Expr::When { loc_cond, branches } => {
            if branches@.len() < 2 {
                (Err(CompileError::TooFewBranches), builder)
            } else if branches@.len() > 2 {
                (Err(CompileError::TooManyBranches), builder)
            } else {
                lower_when(
                    subs,
                    scope,
                    builder,
                    &loc_cond.value,
                    branches@[0].0.value,
                    &branches@[0].1.value,
                    &branches@[1].1.value,
                )
            }
        },
        Expr::LetNonRec(def, loc_ret) => match def.loc_pattern.value {
            Pattern::Identifier(symbol) => match content_for(subs, scope, &def.loc_expr.value) {
                Err(error) => (Err(error), builder),
                Ok(content) => {
                    let (bound, written) = lower(subs, scope, builder, &def.loc_expr.value);
                    match bound {
                        Err(error) => (Err(error), written),
                        Ok(value) => match basic_type(subs, content) {
                            Err(error) => (Err(error), written),
                            Ok(ty) => {
                                let pointer = SlotPointer { slot: written.next_id(), pointee: ty };
                                let stored = written.alloca_in_entry(ty, symbol).emit(
                                    Instr::Store { pointer, value },
                                );
                                lower(
                                    subs,
                                    scope.insert(symbol, (content, pointer)),
                                    stored,
                                    &loc_ret.value,
                                )
                            },
                        },
                    }
                },
            },
            _ => (Err(CompileError::UnsupportedDefPattern), builder),
        },
        Expr::Var { resolved_symbol } => {
            if scope.contains_key(*resolved_symbol) {
                let pointer = scope[*resolved_symbol].1;
                (
                    Ok(next_value(builder, pointer.pointee)),
                    builder.emit(Instr::Load { pointer, symbol: *resolved_symbol }),
                )
            } else {
                (Err(CompileError::UnboundSymbol(*resolved_symbol)), builder)
            }
        },
        _ => (Err(CompileError::UnsupportedExpr), builder),
    }
}

/// A choice of two: the condition, its comparison with the pattern of the
/// first branch, the two branches, and a phi where they meet. The phi has
/// the type of the branches' values, which must be one type.
pub open spec fn lower_when(
    subs: &Subs,
    scope: Map<Symbol, (ContentView, SlotPointer)>,
    builder: IrBuilderView,
    cond_expr: &Expr,
    pattern: Pattern,
    branch_expr: &Expr,
    else_expr: &Expr,
) -> (Result<BasicValue, CompileError>, IrBuilderView)
    decreases cond_expr.weight() + branch_expr.weight() + else_expr.weight(), 2nat,
{
    let (condition, written) = lower(subs, scope, builder, cond_expr);
    match condition {
        Err(error) => (Err(error), written),
        Ok(value) => match comparison(value, pattern) {
            Err(error) => (Err(error), written),
            Ok(compare) => {
                let (arms, merged) = lower_branches(
                    subs,
                    scope,
                    written.emit(compare),
                    written.next_id(),
                    branch_expr,
                    else_expr,
                );
                match arms {
                    Err(error) => (Err(error), merged),
                    Ok(arms) => {
                        if arms.then_value.kind != arms.else_value.kind {
                            (Err(CompileError::BranchTypeMismatch), merged)
                        } else {
                            let ty = arms.then_value.kind;
                            (
                                Ok(next_value(merged, ty)),
                                merged.emit(
                                    Instr::Phi {
                                        ty,
                                        first: Incoming {
                                            value: arms.then_value,
                                            block: arms.then_block,
                                        },
                                        second: Incoming {
                                            value: arms.else_value,
                                            block: arms.else_block,
                                        },
                                    },
                                ),
                            )
                        }
                    },
                }
            },
        },
    }
}

/// The two branches of a choice: three new blocks, for the first branch,
/// the second, and where they meet; a branch on the comparison; each
/// branch's code in its block, ended by a jump to the meeting block; and
/// the builder left at the meeting block.
pub open spec fn lower_branches(
    subs: &Subs,
    scope: Map<Symbol, (ContentView, SlotPointer)>,
    builder: IrBuilderView,
    condition: usize,
    branch_expr: &Expr,
    else_expr: &Expr,
) -> (Result<Arms, CompileError>, IrBuilderView)
    decreases branch_expr.weight() + else_expr.weight(), 1nat,
{
    let then_block = builder.blocks.len() as usize;
    let else_block = (builder.blocks.len() + 1) as usize;
    let cont_block = (builder.blocks.len() + 2) as usize;
    let branched = builder.append_block(BlockLabel::Then).append_block(
        BlockLabel::Else,
    ).append_block(BlockLabel::CaseCont).emit(
        Instr::ConditionalBranch { condition, then_block, else_block },
    );
    let (first, after_then) = lower(subs, scope, branched.at_end_of(then_block as int), branch_expr);
    match first {
        Err(error) => (Err(error), after_then),
        Ok(then_value) => {
            let then_done = after_then.emit(Instr::Branch { target: cont_block });
            let (second, after_else) = lower(
                subs,
                scope,
                then_done.at_end_of(else_block as int),
                else_expr,
            );
            match second {
                Err(error) => (Err(error), after_else),
                Ok(else_value) => {
                    let else_done = after_else.emit(Instr::Branch { target: cont_block });
                    (
                        Ok(
                            Arms {
                                then_value,
                                then_block: then_done.position as usize,
                                else_value,
                                else_block: else_done.position as usize,
                            },
                        ),
                        else_done.at_end_of(cont_block as int),
                    )
                },
            }
        },
    }
}

/// Whether every name in scope is bound to a stack slot that the function
/// has.
pub open spec fn scope_sound(
    scope: Map<Symbol, (ContentView, SlotPointer)>,
    builder: IrBuilderView,
) -> bool {
    forall|symbol: Symbol| #[trigger]
        scope.contains_key(symbol) ==> pointer_ok(
            builder.instrs,
            scope[symbol].1,
            builder.instrs.len() as int,
        )
}

/// Whether the lowering of an expression kept the function sound: if the
/// function was sound and the scope fitted it, the function is sound, the
/// scope still fits it, and the value, if there is one, can be used by
/// what is written next.
pub open spec fn kept_sound(
    scope: Map<Symbol, (ContentView, SlotPointer)>,
    before: IrBuilderView,
    after: IrBuilderView,
    result: Result<BasicValue, CompileError>,
) -> bool {
    before.sound() && scope_sound(scope, before) ==> {
        &&& after.sound()
        &&& scope_sound(scope, after)
        &&& result matches Ok(value) ==> value_ok(after.instrs, value, after.instrs.len() as int)
    }
}

/// A scope that fits a function fits what the function grows to.
pub proof fn lemma_scope_grows(
    scope: Map<Symbol, (ContentView, SlotPointer)>,
    earlier: IrBuilderView,
    later: IrBuilderView,
)
    requires
        scope_sound(scope, earlier),
        earlier.grows_to(later),
    ensures
        scope_sound(scope, later),
{
    assert forall|symbol: Symbol| #[trigger] scope.contains_key(symbol) implies pointer_ok(
        later.instrs,
        scope[symbol].1,
        later.instrs.len() as int,
    ) by {
        lemma_pointer_ok_grows(
            earlier.instrs,
            later.instrs,
            scope[symbol].1,
            earlier.instrs.len() as int,
            later.instrs.len() as int,
        );
    }
}

/// Lowers an expression that stands alone: no name is in scope.
pub fn compile_standalone_expr(env: &Env, builder: &mut IrBuilder, expr: &Expr) -> (result: Result<
    BasicValue,
    CompileError,
>)
    requires
        env.subs.redirects_down(),
        old(builder)@.wf(),
    ensures
        (result, final(builder)@) == lower(&env.subs, Map::empty(), old(builder)@, expr),
        final(builder)@.wf(),
        old(builder)@.grows_to(final(builder)@),
        old(builder)@.sound() ==> final(builder)@.sound() && (result matches Ok(value)
            ==> value_ok(final(builder)@.instrs, value, final(builder)@.instrs.len() as int)),
{
    compile_expr(env, &Scope::Empty, builder, expr)
}

/// Lowers an expression in a scope.
pub fn compile_expr(env: &Env, scope: &Scope<'_>, builder: &mut IrBuilder, expr: &Expr) -> (result:
    Result<BasicValue, CompileError>)
    requires
        env.subs.redirects_down(),
        old(builder)@.wf(),
    ensures
        (result, final(builder)@) == lower(&env.subs, scope@, old(builder)@, expr),
        final(builder)@.wf(),
        old(builder)@.grows_to(final(builder)@),
        kept_sound(scope@, old(builder)@, final(builder)@, result),
    decreases expr.weight(), 0nat,
{
    let ghost start = builder@;
    proof {
        if start.sound() && scope_sound(scope@, start) {
            lemma_scope_grows(scope@, start, start);
        }
    }
    match expr {
        Expr::Int(_, num) => Ok(BasicValue { kind: BasicType::Int, operand: Operand::ConstInt(*num) }),
        Expr::Float(_, bits) => Ok(
            BasicValue { kind: BasicType::Float, operand: Operand::ConstFloat(*bits) },
        ),
        Expr::When { loc_cond, branches } => {
            if branches.len() < 2 {
                Err(CompileError::TooFewBranches)
            } else if branches.len() > 2 {
                Err(CompileError::TooManyBranches)
            } else {
                compile_when_branch(
                    env,
                    scope,
                    builder,
                    &loc_cond.value,
                    branches[0].0.value,
                    &branches[0].1.value,
                    &branches[1].1.value,
                )
            }
        },
        Expr::LetNonRec(def, loc_ret) => match def.loc_pattern.value {
            Pattern::Identifier(symbol) => {
                let bound = &def.loc_expr.value;
                let content = match content_from_expr(scope, &env.subs, bound) {
                    Ok(content) => content,
                    Err(error) => {
                        return Err(error);
                    },
                };
                let value = match compile_expr(env, scope, builder, bound) {
                    Ok(value) => value,
                    Err(error) => {
                        return Err(error);
                    },
                };
                let ty = match content_to_basic_type(&content, &env.subs) {
                    Ok(ty) => ty,
                    Err(error) => {
                        return Err(error);
                    },
                };
                let ghost bound_at = builder@;
                let alloca = create_entry_block_alloca(builder, ty, symbol);
                proof {
                    if start.sound() && scope_sound(scope@, start) {
                        lemma_value_ok_grows(
                            bound_at.instrs,
                            builder@.instrs,
                            value,
                            bound_at.instrs.len() as int,
                            builder@.instrs.len() as int,
                        );
                    }
                }
                builder.build_store(alloca, value);
                // The binding is in scope for the body only: the bound
                // expression was lowered before it was made.
                let inner = Scope::Bound { symbol, content: &content, pointer: alloca, outer: scope };
                let ghost stored = builder@;
                proof {
                    if start.sound() && scope_sound(scope@, start) {
                        lemma_scope_grows(scope@, bound_at, stored);
                        assert forall|name: Symbol| #[trigger] inner@.contains_key(name) implies pointer_ok(
                            stored.instrs,
                            inner@[name].1,
                            stored.instrs.len() as int,
                        ) by {
                            if name != symbol {
                                assert(scope@.contains_key(name));
                            }
                        }
                    }
                }
                let result = compile_expr(env, &inner, builder, &loc_ret.value);
                proof {
                    if start.sound() && scope_sound(scope@, start) {
                        lemma_scope_grows(scope@, stored, builder@);
                    }
                }
                result
            },
            _ => Err(CompileError::UnsupportedDefPattern),
        },
        Expr::Var { resolved_symbol } => match scope.get(*resolved_symbol) {
            Some((_, pointer)) => {
                let value = builder.build_load(pointer, *resolved_symbol);
                proof {
                    if start.sound() && scope_sound(scope@, start) {
                        assert(scope@.contains_key(*resolved_symbol));
                        lemma_scope_grows(scope@, start, builder@);
                    }
                }
                Ok(value)
            },
            None => Err(CompileError::UnboundSymbol(*resolved_symbol)),
        },
        _ => Err(CompileError::UnsupportedExpr),
    }
}

/// Reserves a stack slot in the entry block of the function. Slots live
/// there, whatever block the code that uses them is in, so that they can be
/// turned into registers later.
fn create_entry_block_alloca(builder: &mut IrBuilder, basic_type: BasicType, symbol: Symbol) -> (pointer:
    SlotPointer)
    requires
        old(builder)@.wf(),
    ensures
        final(builder)@ == old(builder)@.alloca_in_entry(basic_type, symbol),
        pointer == (SlotPointer { slot: old(builder)@.next_id(), pointee: basic_type }),
        final(builder)@.wf(),
        old(builder)@.grows_to(final(builder)@),
        old(builder)@.sound() ==> final(builder)@.sound() && pointer_ok(
            final(builder)@.instrs,
            pointer,
            final(builder)@.instrs.len() as int,
        ),
{
    builder.build_entry_alloca(basic_type, symbol)
}

/// Lowers a choice of two branches.
fn compile_when_branch(
    env: &Env,
    scope: &Scope<'_>,
    builder: &mut IrBuilder,
    cond_expr: &Expr,
    pattern: Pattern,
    branch_expr: &Expr,
    else_expr: &Expr,
) -> (result: Result<BasicValue, CompileError>)
    requires
        env.subs.redirects_down(),
        old(builder)@.wf(),
    ensures
        (result, final(builder)@) == lower_when(
            &env.subs,
            scope@,
            old(builder)@,
            cond_expr,
            pattern,
            branch_expr,
            else_expr,
        ),
        final(builder)@.wf(),
        old(builder)@.grows_to(final(builder)@),
        kept_sound(scope@, old(builder)@, final(builder)@, result),
    decreases cond_expr.weight() + branch_expr.weight() + else_expr.weight(), 2nat,
{
    let ghost start = builder@;
    let condition = match compile_expr(env, scope, builder, cond_expr) {
        Ok(value) => value,
        Err(error) => {
            return Err(error);
        },
    };
    let compare = match condition.kind {
        BasicType::Float => match pattern {
            Pattern::FloatLiteral(bits) => {
                let target = BasicValue { kind: BasicType::Float, operand: Operand::ConstFloat(bits) };
                builder.build_float_compare(condition, target)
            },
            _ => {
                return Err(CompileError::UnsupportedFloatPattern);
            },
        },
        BasicType::Int => match pattern {
            Pattern::IntLiteral(num) => {
                let target = BasicValue { kind: BasicType::Int, operand: Operand::ConstInt(num) };
                builder.build_int_compare(condition, target)
            },
            _ => {
                return Err(CompileError::UnsupportedIntPattern);
            },
        },
    };
    let ghost compared = builder@;
    proof {
        if start.sound() && scope_sound(scope@, start) {
            lemma_scope_grows(scope@, start, compared);
        }
    }
    let arms = match two_way_branch(env, scope, builder, compare, branch_expr, else_expr) {
        Ok(arms) => arms,
        Err(error) => {
            return Err(error);
        },
    };
    let same_kind = match (arms.then_value.kind, arms.else_value.kind) {
        (BasicType::Int, BasicType::Int) => true,
        (BasicType::Float, BasicType::Float) => true,
        _ => false,
    };
    if !same_kind {
        return Err(CompileError::BranchTypeMismatch);
    }
    Ok(
        builder.build_phi(
            arms.then_value.kind,
            Incoming { value: arms.then_value, block: arms.then_block },
            Incoming { value: arms.else_value, block: arms.else_block },
        ),
    )
}

/// Lowers the two branches of a choice into blocks of their own and leaves
/// the builder at the block where they meet.
fn two_way_branch(
    env: &Env,
    scope: &Scope<'_>,
    builder: &mut IrBuilder,
    comparison: usize,
    branch_expr: &Expr,
    else_expr: &Expr,
) -> (result: Result<Arms, CompileError>)
    requires
        env.subs.redirects_down(),
        old(builder)@.wf(),
    ensures
        (result, final(builder)@) == lower_branches(
            &env.subs,
            scope@,
            old(builder)@,
            comparison,
            branch_expr,
            else_expr,
        ),
        final(builder)@.wf(),
        old(builder)@.grows_to(final(builder)@),
        old(builder)@.sound() && scope_sound(scope@, old(builder)@) && flag_ok(
            old(builder)@.instrs,
            comparison,
            old(builder)@.instrs.len() as int,
        ) ==> {
            &&& final(builder)@.sound()
            &&& scope_sound(scope@, final(builder)@)
            &&& result matches Ok(arms) ==> {
                &&& value_ok(
                    final(builder)@.instrs,
                    arms.then_value,
                    final(builder)@.instrs.len() as int,
                )
                &&& value_ok(
                    final(builder)@.instrs,
                    arms.else_value,
                    final(builder)@.instrs.len() as int,
                )
                &&& arms.then_block < final(builder)@.blocks.len()
                &&& arms.else_block < final(builder)@.blocks.len()
            }
        },
    decreases branch_expr.weight() + else_expr.weight(), 1nat,
{
    let ghost start = builder@;
    let ghost fits = start.sound() && scope_sound(scope@, start) && flag_ok(
        start.instrs,
        comparison,
        start.instrs.len() as int,
    );
    let then_bb = builder.append_basic_block(BlockLabel::Then);
    let else_bb = builder.append_basic_block(BlockLabel::Else);
    let cont_bb = builder.append_basic_block(BlockLabel::CaseCont);
    builder.build_conditional_branch(comparison, then_bb, else_bb);

    builder.position_at_end(then_bb);
    proof {
        if fits {
            lemma_scope_grows(scope@, start, builder@);
        }
    }
    let then_value = match compile_expr(env, scope, builder, branch_expr) {
        Ok(value) => value,
        Err(error) => {
            return Err(error);
        },
    };
    let ghost then_at = builder@;
    builder.build_unconditional_branch(cont_bb);
    let then_block = builder.get_insert_block();

    builder.position_at_end(else_bb);
    proof {
        if fits {
            lemma_scope_grows(scope@, then_at, builder@);
        }
    }
    let else_value = match compile_expr(env, scope, builder, else_expr) {
        Ok(value) => value,
        Err(error) => {
            return Err(error);
        },
    };
    let ghost else_at = builder@;
    builder.build_unconditional_branch(cont_bb);
    let else_block = builder.get_insert_block();

    builder.position_at_end(cont_bb);
    proof {
        if fits {
            lemma_scope_grows(scope@, else_at, builder@);
            lemma_value_ok_grows(
                then_at.instrs,
                builder@.instrs,
                then_value,
                then_at.instrs.len() as int,
                builder@.instrs.len() as int,
            );
            lemma_value_ok_grows(
                else_at.instrs,
                builder@.instrs,
                else_value,
                else_at.instrs.len() as int,
                builder@.instrs.len() as int,
            );
        }
    }
    Ok(Arms { then_value, then_block, else_value, else_block })
}

} // verus!
