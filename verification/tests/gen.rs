use roc_core::can::{Def, Expr, Pattern, Procedure};
use roc_core::gen::{
    compile_expr, compile_standalone_expr, content_to_basic_type, num_to_basic_type, num_to_bv,
    CompileError, Env, Scope,
};
use roc_core::ir::{
    BasicType, BasicValue, BlockLabel, Incoming, Instr, IrBuilder, Operand, Placed, SlotPointer,
};
use roc_core::region::{Located, Region};
use roc_core::subs::{Content, FlatType, Subs, Variable};
use roc_core::symbol::Symbol;
use std::collections::HashMap;

fn at<T>(value: T) -> Located<T> {
    Located { region: Region { start_line: 0, start_col: 0, end_line: 0, end_col: 0 }, value }
}

fn apply(module_name: &str, name: &str, args: Vec<Variable>) -> Content {
    Content::Structure(FlatType::Apply {
        module_name: module_name.to_string(),
        name: name.to_string(),
        args,
    })
}

/// A store with the integer and the floating-point number type, and the
/// variables of `Num Integer` and `Num FloatingPoint`.
fn number_env() -> (Env, Variable, Variable) {
    let mut subs = Subs::new();
    let integer = subs.fresh(apply("Int", "Integer", vec![])).unwrap();
    let floating = subs.fresh(apply("Float", "FloatingPoint", vec![])).unwrap();
    let int = subs.fresh(apply("Num", "Num", vec![integer])).unwrap();
    let float = subs.fresh(apply("Num", "Num", vec![floating])).unwrap();
    (Env { procedures: Vec::new(), subs }, int, float)
}

fn let_in(symbol: Symbol, bound: Expr, body: Expr) -> Expr {
    Expr::LetNonRec(
        Box::new(Def { loc_pattern: at(Pattern::Identifier(symbol)), loc_expr: at(bound) }),
        Box::new(at(body)),
    )
}

fn when(cond: Expr, pattern: Pattern, then: Expr, otherwise: Expr) -> Expr {
    Expr::When {
        loc_cond: Box::new(at(cond)),
        branches: vec![(at(pattern), at(then)), (at(Pattern::Underscore), at(otherwise))],
    }
}

fn var(symbol: Symbol) -> Expr {
    Expr::Var { resolved_symbol: symbol }
}

fn int_value(num: i64) -> BasicValue {
    BasicValue { kind: BasicType::Int, operand: Operand::ConstInt(num) }
}

fn float_value(value: f64) -> BasicValue {
    BasicValue { kind: BasicType::Float, operand: Operand::ConstFloat(value.to_bits()) }
}

#[derive(Debug, Clone, Copy, PartialEq)]
enum Run {
    Int(i64),
    Float(f64),
    Flag(bool),
}

/// The instructions of a builder, in the order in which they were written.
fn written(builder: &IrBuilder) -> Vec<Instr> {
    builder.function.instrs.iter().map(|placed| placed.instr).collect()
}

/// Runs a function from its entry block to the end of the block that has no
/// branch, and yields what `result` is there.
fn execute(builder: &IrBuilder, result: BasicValue) -> Run {
    let function = &builder.function;
    let mut registers: HashMap<usize, Run> = HashMap::new();
    let mut memory: HashMap<usize, Run> = HashMap::new();
    let read = |value: &BasicValue, registers: &HashMap<usize, Run>| match value.operand {
        Operand::ConstInt(num) => Run::Int(num),
        Operand::ConstFloat(bits) => Run::Float(f64::from_bits(bits)),
        Operand::Result(id) => registers[&id],
    };
    let mut block = 0usize;
    let mut previous = usize::MAX;
    let mut steps = 0;
    'blocks: loop {
        for id in builder.block_body(block) {
            steps += 1;
            assert!(steps < 10_000);
            assert_eq!(function.instrs[id].block, block);
            match function.instrs[id].instr {
                Instr::Alloca { .. } => {}
                Instr::Store { pointer, value } => {
                    let value = read(&value, &registers);
                    memory.insert(pointer.slot, value);
                }
                Instr::Load { pointer, .. } => {
                    registers.insert(id, memory[&pointer.slot]);
                }
                Instr::IntCompare { left, right } => {
                    let flag = match (read(&left, &registers), read(&right, &registers)) {
                        (Run::Int(a), Run::Int(b)) => a == b,
                        other => panic!("not integers: {:?}", other),
                    };
                    registers.insert(id, Run::Flag(flag));
                }
                Instr::FloatCompare { left, right } => {
                    let flag = match (read(&left, &registers), read(&right, &registers)) {
                        (Run::Float(a), Run::Float(b)) => a == b,
                        other => panic!("not floats: {:?}", other),
                    };
                    registers.insert(id, Run::Flag(flag));
                }
                Instr::ConditionalBranch { condition, then_block, else_block } => {
                    previous = block;
                    block = match registers[&condition] {
                        Run::Flag(true) => then_block,
                        Run::Flag(false) => else_block,
                        other => panic!("not a flag: {:?}", other),
                    };
                    continue 'blocks;
                }
                Instr::Branch { target } => {
                    previous = block;
                    block = target;
                    continue 'blocks;
                }
                Instr::Phi { first, second, .. } => {
                    let chosen = if previous == first.block {
                        first.value
                    } else {
                        assert_eq!(previous, second.block);
                        second.value
                    };
                    let value = read(&chosen, &registers);
                    registers.insert(id, value);
                }
            }
        }
        return read(&result, &registers);
    }
}

fn compile(env: &Env, expr: &Expr) -> (Result<BasicValue, CompileError>, IrBuilder) {
    let mut builder = IrBuilder::new();
    let result = compile_standalone_expr(env, &mut builder, expr);
    (result, builder)
}

fn run(env: &Env, expr: &Expr) -> Run {
    let (result, builder) = compile(env, expr);
    execute(&builder, result.unwrap())
}

#[test]
fn new_builder_has_an_empty_entry_block() {
    let builder = IrBuilder::new();
    assert_eq!(builder.position, 0);
    assert!(builder.function.instrs.is_empty());
    assert_eq!(builder.function.blocks, vec![BlockLabel::Entry]);
    assert!(builder.block_body(0).is_empty());
    assert!(builder.check());
}

#[test]
fn builder_numbers_instructions_in_order() {
    let mut builder = IrBuilder::new();
    let pointer = builder.build_entry_alloca(BasicType::Int, Symbol(1));
    assert_eq!(pointer, SlotPointer { slot: 0, pointee: BasicType::Int });
    builder.build_store(pointer, int_value(5));
    let loaded = builder.build_load(pointer, Symbol(1));
    assert_eq!(loaded, BasicValue { kind: BasicType::Int, operand: Operand::Result(2) });
    let flag = builder.build_int_compare(loaded, int_value(5));
    assert_eq!(flag, 3);
    let then_block = builder.append_basic_block(BlockLabel::Then);
    let else_block = builder.append_basic_block(BlockLabel::Else);
    assert_eq!((then_block, else_block), (1, 2));
    builder.build_conditional_branch(flag, then_block, else_block);
    builder.position_at_end(then_block);
    assert_eq!(builder.get_insert_block(), 1);
    builder.build_unconditional_branch(else_block);
    builder.position_at_end(else_block);
    let merged = builder.build_phi(
        BasicType::Int,
        Incoming { value: int_value(1), block: 0 },
        Incoming { value: int_value(2), block: 1 },
    );
    assert_eq!(merged.operand, Operand::Result(6));
    let other = builder.build_float_compare(float_value(1.0), float_value(2.0));
    assert_eq!(other, 7);
    // A later slot goes in front of everything in the entry block.
    let second = builder.build_entry_alloca(BasicType::Float, Symbol(2));
    assert_eq!(second.slot, 8);
    assert_eq!(builder.block_body(0), vec![8, 0, 1, 2, 3, 4]);
    assert_eq!(builder.block_body(1), vec![5]);
    assert_eq!(builder.block_body(2), vec![6, 7]);
    assert!(builder.block_body(3).is_empty());
    assert_eq!(builder.function.instrs.len(), 9);
    assert_eq!(
        builder.function.instrs[5],
        Placed { block: 1, instr: Instr::Branch { target: 2 } }
    );
    assert_eq!(builder.function.instrs[8].block, 0);
}

#[test]
fn int_literal_is_a_constant() {
    let (env, int, _) = number_env();
    let (result, builder) = compile(&env, &Expr::Int(int, 42));
    assert_eq!(result, Ok(int_value(42)));
    assert!(builder.function.instrs.is_empty());
    assert_eq!(compile(&env, &Expr::Int(int, -1)).0, Ok(int_value(-1)));
}

#[test]
fn float_literal_is_a_constant() {
    let (env, _, float) = number_env();
    let (result, builder) = compile(&env, &Expr::Float(float, 1.5f64.to_bits()));
    assert_eq!(result, Ok(float_value(1.5)));
    assert!(builder.function.instrs.is_empty());
}

#[test]
fn let_binding_allocates_stores_and_loads() {
    let (env, int, _) = number_env();
    let n = Symbol(1);
    let expr = let_in(n, Expr::Int(int, 7), var(n));
    let (result, builder) = compile(&env, &expr);
    let slot = SlotPointer { slot: 0, pointee: BasicType::Int };
    assert_eq!(result, Ok(BasicValue { kind: BasicType::Int, operand: Operand::Result(2) }));
    assert_eq!(
        written(&builder),
        vec![
            Instr::Alloca { ty: BasicType::Int, symbol: n },
            Instr::Store { pointer: slot, value: int_value(7) },
            Instr::Load { pointer: slot, symbol: n },
        ]
    );
    assert_eq!(builder.function.blocks.len(), 1);
    assert_eq!(builder.block_body(0), vec![0, 1, 2]);
    assert_eq!(builder.position, 0);
    assert!(builder.check());
    assert_eq!(execute(&builder, result.unwrap()), Run::Int(7));
}

#[test]
fn float_binding_has_a_float_slot() {
    let (env, _, float) = number_env();
    let x = Symbol(9);
    let expr = let_in(x, Expr::Float(float, 2.25f64.to_bits()), var(x));
    let (result, builder) = compile(&env, &expr);
    assert_eq!(written(&builder)[0], Instr::Alloca { ty: BasicType::Float, symbol: x });
    assert_eq!(result.unwrap().kind, BasicType::Float);
    assert_eq!(run(&env, &expr), Run::Float(2.25));
}

#[test]
fn nested_bindings_keep_their_slots_in_the_entry_block() {
    let (env, int, _) = number_env();
    let (a, b) = (Symbol(1), Symbol(2));
    // let a = 1 in let b = a in when b is 1 -> (let a = 5 in a), _ -> a
    let inner = when(
        var(b),
        Pattern::IntLiteral(1),
        let_in(a, Expr::Int(int, 5), var(a)),
        var(a),
    );
    let expr = let_in(a, Expr::Int(int, 1), let_in(b, var(a), inner));
    let (result, builder) = compile(&env, &expr);
    let function = &builder.function;
    for placed in &function.instrs {
        let is_alloca = matches!(placed.instr, Instr::Alloca { .. });
        assert!(placed.block == 0 || !is_alloca);
    }
    let entry = builder.block_body(0);
    let allocas =
        entry.iter().filter(|id| matches!(function.instrs[**id].instr, Instr::Alloca { .. })).count();
    assert_eq!(allocas, 3);
    // The slots stand in front of everything else, the latest first.
    assert_eq!(&entry[..3], &[8, 3, 0]);
    assert!(matches!(function.instrs[entry[0]].instr, Instr::Alloca { symbol, .. } if symbol == a));
    assert!(builder.check());
    assert_eq!(execute(&builder, result.unwrap()), Run::Int(5));
}

#[test]
fn inner_binding_does_not_change_the_outer_scope() {
    let (env, int, _) = number_env();
    let a = Symbol(1);
    // let a = 1 in when 0 is 0 -> (let a = 5 in a), _ -> a ; the else branch reads the outer a
    let expr = let_in(
        a,
        Expr::Int(int, 1),
        when(Expr::Int(int, 0), Pattern::IntLiteral(1), let_in(a, Expr::Int(int, 5), var(a)), var(a)),
    );
    assert_eq!(run(&env, &expr), Run::Int(1));
}

#[test]
fn when_builds_three_blocks_and_a_phi() {
    let (env, int, _) = number_env();
    let expr = when(Expr::Int(int, 2), Pattern::IntLiteral(2), Expr::Int(int, 10), Expr::Int(int, 20));
    let (result, builder) = compile(&env, &expr);
    let function = &builder.function;
    assert_eq!(
        written(&builder),
        vec![
            Instr::IntCompare { left: int_value(2), right: int_value(2) },
            Instr::ConditionalBranch { condition: 0, then_block: 1, else_block: 2 },
            Instr::Branch { target: 3 },
            Instr::Branch { target: 3 },
            Instr::Phi {
                ty: BasicType::Int,
                first: Incoming { value: int_value(10), block: 1 },
                second: Incoming { value: int_value(20), block: 2 },
            },
        ]
    );
    assert_eq!(
        function.blocks,
        vec![BlockLabel::Entry, BlockLabel::Then, BlockLabel::Else, BlockLabel::CaseCont]
    );
    assert_eq!(builder.block_body(0), vec![0, 1]);
    assert_eq!(builder.block_body(1), vec![2]);
    assert_eq!(builder.block_body(2), vec![3]);
    assert_eq!(builder.block_body(3), vec![4]);
    assert!(builder.check());
    assert_eq!(builder.position, 3);
    assert_eq!(result, Ok(BasicValue { kind: BasicType::Int, operand: Operand::Result(4) }));
    assert_eq!(execute(&builder, result.unwrap()), Run::Int(10));
}

#[test]
fn when_takes_the_else_branch() {
    let (env, int, _) = number_env();
    let expr = when(Expr::Int(int, 3), Pattern::IntLiteral(2), Expr::Int(int, 10), Expr::Int(int, 20));
    assert_eq!(run(&env, &expr), Run::Int(20));
}

#[test]
fn when_on_floats_compares_floats() {
    let (env, _, float) = number_env();
    let literal = |value: f64| Expr::Float(float, value.to_bits());
    let expr = when(literal(0.5), Pattern::FloatLiteral(0.5f64.to_bits()), literal(1.0), literal(2.0));
    let (result, builder) = compile(&env, &expr);
    assert_eq!(
        written(&builder)[0],
        Instr::FloatCompare { left: float_value(0.5), right: float_value(0.5) }
    );
    assert_eq!(result.unwrap().kind, BasicType::Float);
    assert_eq!(run(&env, &expr), Run::Float(1.0));
    let other = when(literal(0.25), Pattern::FloatLiteral(0.5f64.to_bits()), literal(1.0), literal(2.0));
    assert_eq!(run(&env, &other), Run::Float(2.0));
}

#[test]
fn nested_when_merges_from_the_inner_meeting_block() {
    let (env, int, _) = number_env();
    let inner = when(Expr::Int(int, 1), Pattern::IntLiteral(1), Expr::Int(int, 7), Expr::Int(int, 8));
    let expr = when(Expr::Int(int, 4), Pattern::IntLiteral(4), inner, Expr::Int(int, 9));
    let (result, builder) = compile(&env, &expr);
    let function = &builder.function;
    assert_eq!(function.blocks.len(), 7);
    let last = *builder.block_body(3).last().unwrap();
    match function.instrs[last].instr {
        // Control leaves the first branch from the inner meeting block.
        Instr::Phi { first, second, .. } => {
            assert_eq!(first.block, 6);
            assert_eq!(second.block, 2);
        }
        other => panic!("not a phi: {:?}", other),
    }
    assert_eq!(builder.position, 3);
    assert_eq!(execute(&builder, result.unwrap()), Run::Int(7));
}

#[test]
fn when_needs_two_branches() {
    let (env, int, _) = number_env();
    let branch = |n: i64| (at(Pattern::IntLiteral(n)), at(Expr::Int(int, n)));
    let with = |branches| Expr::When { loc_cond: Box::new(at(Expr::Int(int, 1))), branches };
    assert_eq!(compile(&env, &with(vec![])).0, Err(CompileError::TooFewBranches));
    assert_eq!(compile(&env, &with(vec![branch(1)])).0, Err(CompileError::TooFewBranches));
    let three = with(vec![branch(1), branch(2), branch(3)]);
    let (result, builder) = compile(&env, &three);
    assert_eq!(result, Err(CompileError::TooManyBranches));
    assert!(builder.function.instrs.is_empty());
}

#[test]
fn when_needs_a_literal_of_the_conditions_kind() {
    let (env, int, float) = number_env();
    let one = || Expr::Int(int, 1);
    let half = || Expr::Float(float, 0.5f64.to_bits());
    for pattern in [Pattern::Underscore, Pattern::Identifier(Symbol(1)), Pattern::FloatLiteral(0)] {
        assert_eq!(
            compile(&env, &when(one(), pattern, one(), one())).0,
            Err(CompileError::UnsupportedIntPattern)
        );
    }
    for pattern in [Pattern::Underscore, Pattern::Identifier(Symbol(1)), Pattern::IntLiteral(0)] {
        assert_eq!(
            compile(&env, &when(half(), pattern, one(), one())).0,
            Err(CompileError::UnsupportedFloatPattern)
        );
    }
}

#[test]
fn when_needs_branches_of_one_type() {
    let (env, int, float) = number_env();
    let expr = when(
        Expr::Int(int, 1),
        Pattern::IntLiteral(1),
        Expr::Int(int, 1),
        Expr::Float(float, 1.0f64.to_bits()),
    );
    assert_eq!(compile(&env, &expr).0, Err(CompileError::BranchTypeMismatch));
}

#[test]
fn unbound_name_is_an_error() {
    let (env, int, _) = number_env();
    assert_eq!(compile(&env, &var(Symbol(3))).0, Err(CompileError::UnboundSymbol(Symbol(3))));
    // A binding is not in scope in the expression it binds.
    let expr = let_in(Symbol(3), var(Symbol(3)), Expr::Int(int, 0));
    assert_eq!(compile(&env, &expr).0, Err(CompileError::UnboundSymbol(Symbol(3))));
}

#[test]
fn unsupported_forms_are_errors() {
    let (env, int, _) = number_env();
    assert_eq!(compile(&env, &Expr::EmptyRecord).0, Err(CompileError::UnsupportedExpr));
    assert_eq!(compile(&env, &Expr::List(vec![])).0, Err(CompileError::UnsupportedExpr));
    assert_eq!(compile(&env, &Expr::Str("hi".to_string())).0, Err(CompileError::UnsupportedExpr));
    let bad_pattern = Expr::LetNonRec(
        Box::new(Def { loc_pattern: at(Pattern::Underscore), loc_expr: at(Expr::Int(int, 1)) }),
        Box::new(at(Expr::Int(int, 2))),
    );
    assert_eq!(compile(&env, &bad_pattern).0, Err(CompileError::UnsupportedDefPattern));
    // The type of a bound list cannot be read off.
    let list = let_in(Symbol(1), Expr::List(vec![]), Expr::Int(int, 2));
    assert_eq!(compile(&env, &list).0, Err(CompileError::UnsupportedExpr));
    // A string has a type, but no basic type.
    let text = let_in(Symbol(1), Expr::Str("hi".to_string()), Expr::Int(int, 2));
    assert_eq!(compile(&env, &text).0, Err(CompileError::UnsupportedExpr));
    let block = let_in(Symbol(1), Expr::BlockStr("hi".to_string()), Expr::Int(int, 2));
    assert_eq!(compile(&env, &block).0, Err(CompileError::UnsupportedExpr));
}

#[test]
fn literal_with_an_unknown_variable_is_an_error() {
    let (env, _, _) = number_env();
    let expr = let_in(Symbol(1), Expr::Int(Variable(99), 1), var(Symbol(1)));
    assert_eq!(compile(&env, &expr).0, Err(CompileError::UnknownVariable(Variable(99))));
}

#[test]
fn compile_expr_reads_the_scope() {
    let (env, _, _) = number_env();
    let content = apply("Num", "Num", vec![Variable(0)]);
    let mut builder = IrBuilder::new();
    let pointer = builder.build_entry_alloca(BasicType::Int, Symbol(4));
    let scope = Scope::Bound { symbol: Symbol(4), content: &content, pointer, outer: &Scope::Empty };
    let result = compile_expr(&env, &scope, &mut builder, &var(Symbol(4)));
    assert_eq!(result, Ok(BasicValue { kind: BasicType::Int, operand: Operand::Result(1) }));
    assert_eq!(written(&builder)[1], Instr::Load { pointer, symbol: Symbol(4) });
    let (found, slot) = scope.get(Symbol(4)).unwrap();
    assert_eq!(found, &content);
    assert_eq!(slot, pointer);
    assert!(scope.get(Symbol(5)).is_none());
}

#[test]
fn basic_type_of_numbers() {
    let (env, int, float) = number_env();
    let int_content = env.subs.get_without_compacting(int);
    let float_content = env.subs.get_without_compacting(float);
    assert_eq!(content_to_basic_type(&int_content, &env.subs), Ok(BasicType::Int));
    assert_eq!(content_to_basic_type(&float_content, &env.subs), Ok(BasicType::Float));
}

#[test]
fn basic_type_of_other_contents() {
    let (mut env, int, _) = number_env();
    let text = env.subs.fresh(apply("Str", "Str", vec![])).unwrap();
    let odd = env.subs.fresh(apply("Num", "Num", vec![text])).unwrap();
    let subs = &env.subs;
    let of = |content: Content| content_to_basic_type(&content, subs);
    assert_eq!(of(Content::FlexVar(None)), Err(CompileError::UnsupportedContent));
    assert_eq!(of(Content::RigidVar("a".to_string())), Err(CompileError::UnsupportedContent));
    assert_eq!(of(Content::Error), Err(CompileError::UnsupportedContent));
    assert_eq!(of(Content::Alias(Symbol(1), vec![], int)), Err(CompileError::UnsupportedContent));
    assert_eq!(
        of(Content::Structure(FlatType::EmptyRecord)),
        Err(CompileError::UnsupportedFlatType)
    );
    assert_eq!(
        of(Content::Structure(FlatType::Func(vec![], int))),
        Err(CompileError::UnsupportedFlatType)
    );
    assert_eq!(of(apply("Str", "Str", vec![])), Err(CompileError::UnsupportedApply));
    assert_eq!(of(apply("Num", "Int", vec![int])), Err(CompileError::UnsupportedApply));
    assert_eq!(of(apply("Num", "Num", vec![])), Err(CompileError::WrongArgumentCount));
    assert_eq!(of(apply("Num", "Num", vec![int, int])), Err(CompileError::WrongArgumentCount));
    assert_eq!(
        of(apply("Num", "Num", vec![Variable(77)])),
        Err(CompileError::UnknownVariable(Variable(77)))
    );
    assert_eq!(of(subs.get_without_compacting(odd)), Err(CompileError::UnrecognizedNumericType));
}

#[test]
fn numeric_type_of_contents() {
    let of = |content: Content| num_to_basic_type(&content);
    assert_eq!(of(apply("Int", "Integer", vec![])), Ok(BasicType::Int));
    assert_eq!(of(apply("Float", "FloatingPoint", vec![])), Ok(BasicType::Float));
    assert_eq!(
        of(apply("Int", "Integer", vec![Variable(0)])),
        Err(CompileError::UnrecognizedNumericType)
    );
    assert_eq!(of(apply("Int", "FloatingPoint", vec![])), Err(CompileError::UnrecognizedNumericType));
    assert_eq!(of(apply("Float", "Integer", vec![])), Err(CompileError::UnrecognizedNumericType));
    assert_eq!(of(Content::Structure(FlatType::EmptyRecord)), Err(CompileError::UnsupportedFlatType));
    assert_eq!(of(Content::FlexVar(None)), Err(CompileError::UnsupportedContent));
}

#[test]
fn numeric_value_must_be_of_the_contents_kind() {
    let integer = apply("Int", "Integer", vec![]);
    let floating = apply("Float", "FloatingPoint", vec![]);
    assert_eq!(num_to_bv(&integer, int_value(3)), Ok(int_value(3)));
    assert_eq!(num_to_bv(&floating, float_value(3.0)), Ok(float_value(3.0)));
    assert_eq!(num_to_bv(&integer, float_value(3.0)), Err(CompileError::ValueKindMismatch));
    assert_eq!(num_to_bv(&floating, int_value(3)), Err(CompileError::ValueKindMismatch));
    assert_eq!(
        num_to_bv(&apply("Str", "Str", vec![]), int_value(3)),
        Err(CompileError::UnrecognizedNumericType)
    );
    assert_eq!(num_to_bv(&Content::Error, int_value(3)), Err(CompileError::UnsupportedContent));
}

#[test]
fn procedures_travel_with_the_env() {
    let (mut env, int, _) = number_env();
    env.procedures.push(Procedure { name: Symbol(1), body: Expr::Int(int, 1) });
    assert_eq!(compile(&env, &Expr::Int(int, 2)).0, Ok(int_value(2)));
    assert_eq!(env.procedures.len(), 1);
}

#[test]
fn check_finds_what_is_not_sound() {
    let sound = || {
        let mut builder = IrBuilder::new();
        let pointer = builder.build_entry_alloca(BasicType::Int, Symbol(1));
        builder.build_store(pointer, int_value(1));
        builder.build_load(pointer, Symbol(1));
        builder
    };
    assert!(sound().check());
    let broken = |change: fn(&mut IrBuilder)| {
        let mut builder = sound();
        change(&mut builder);
        builder.check()
    };
    // A value that is used before it is made.
    assert!(!broken(|b| {
        let value = BasicValue { kind: BasicType::Int, operand: Operand::Result(3) };
        b.build_store(SlotPointer { slot: 0, pointee: BasicType::Int }, value);
    }));
    // A value of the wrong kind.
    assert!(!broken(|b| {
        let value = BasicValue { kind: BasicType::Float, operand: Operand::Result(2) };
        b.build_int_compare(value, value);
    }));
    assert!(!broken(|b| {
        b.build_int_compare(float_value(1.0), float_value(1.0));
    }));
    assert!(!broken(|b| {
        let value = BasicValue { kind: BasicType::Float, operand: Operand::ConstInt(1) };
        b.build_float_compare(value, value);
    }));
    // A slot that is none, or of another type.
    assert!(!broken(|b| {
        b.build_load(SlotPointer { slot: 1, pointee: BasicType::Int }, Symbol(1));
    }));
    assert!(!broken(|b| {
        b.build_load(SlotPointer { slot: 0, pointee: BasicType::Float }, Symbol(1));
    }));
    // A branch on what is no comparison, or to a block that is not there.
    assert!(!broken(|b| {
        b.build_conditional_branch(2, 0, 0);
    }));
    assert!(!broken(|b| {
        b.build_unconditional_branch(1);
    }));
    assert!(!broken(|b| {
        let flag = b.build_int_compare(int_value(1), int_value(1));
        b.build_conditional_branch(flag, 0, 4);
    }));
    // A phi whose values are not of its type.
    assert!(!broken(|b| {
        let one = Incoming { value: int_value(1), block: 0 };
        b.build_phi(BasicType::Float, one, one);
    }));
    // An instruction in a block that is not there, a slot outside the entry block,
    // and a builder that stands nowhere.
    assert!(!broken(|b| b.function.instrs[1].block = 7));
    assert!(!broken(|b| {
        b.append_basic_block(BlockLabel::Then);
        b.function.instrs[0].block = 1;
    }));
    assert!(!broken(|b| b.position = 1));
    assert!(!broken(|b| b.function.blocks.clear()));
    // What is sound stays so.
    assert!(broken(|b| {
        let flag = b.build_int_compare(int_value(1), int_value(2));
        let then_block = b.append_basic_block(BlockLabel::Then);
        b.build_conditional_branch(flag, then_block, 0);
        let loaded = BasicValue { kind: BasicType::Int, operand: Operand::Result(2) };
        let one = Incoming { value: loaded, block: 0 };
        b.build_phi(BasicType::Int, one, one);
    }));
}
