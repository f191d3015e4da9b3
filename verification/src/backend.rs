//! Writing a lowered function out to LLVM.
//!
//! The instructions are built in the order in which they were written, each
//! at the end of its block; stack slots are built at the front of the entry
//! block. What LLVM does with the calls is not known here: the values and
//! blocks it hands back are carried around and handed in again. What is
//! known, and checked before the first call, is that the function is sound:
//! every value, slot, comparison and block that a call is handed was made
//! by an earlier call.

use vstd::prelude::*;
use crate::ir::{
    check_value, instr_ok, value_ok, BasicType, BasicValue, BlockLabel, Instr, IrBuilder,
    IrBuilderView, Operand, Placed,
};

verus! {

/// An LLVM context. Its values are carried, never looked into.
#[verifier::external_type_specification]
#[verifier::external_body]
pub struct ExContext(inkwell::context::Context);

/// An LLVM instruction builder. Its values are carried, never looked into.
#[verifier::external_type_specification]
#[verifier::external_body]
pub struct ExLlvmBuilder<'ctx>(inkwell::builder::Builder<'ctx>);

/// The error of an LLVM builder call. Which error it is is not looked at.
#[verifier::external_type_specification]
#[verifier::external_body]
pub struct ExBuilderError(inkwell::builder::BuilderError);

/// A basic block of an LLVM function. Its values are carried, never looked into.
#[verifier::external_type_specification]
#[verifier::external_body]
pub struct ExBasicBlock<'ctx>(inkwell::basic_block::BasicBlock<'ctx>);

/// An LLVM value of a basic type. Its variants are told apart by
/// [`as_int_value`] and [`as_float_value`] only.
#[verifier::external_type_specification]
#[verifier::external_body]
pub struct ExBasicValueEnum<'ctx>(inkwell::values::BasicValueEnum<'ctx>);

/// An LLVM integer value. Its values are carried, never looked into.
#[verifier::external_type_specification]
#[verifier::external_body]
pub struct ExIntValue<'ctx>(inkwell::values::IntValue<'ctx>);

/// An LLVM floating-point value. Its values are carried, never looked into.
#[verifier::external_type_specification]
#[verifier::external_body]
pub struct ExFloatValue<'ctx>(inkwell::values::FloatValue<'ctx>);

/// An LLVM pointer value. Its values are carried, never looked into.
#[verifier::external_type_specification]
#[verifier::external_body]
pub struct ExPointerValue<'ctx>(inkwell::values::PointerValue<'ctx>);

/// An LLVM instruction. Its values are carried, never looked into.
#[verifier::external_type_specification]
#[verifier::external_body]
pub struct ExInstructionValue<'ctx>(inkwell::values::InstructionValue<'ctx>);

/// An LLVM phi node. Its values are carried, never looked into.
#[verifier::external_type_specification]
#[verifier::external_body]
pub struct ExPhiValue<'ctx>(inkwell::values::PhiValue<'ctx>);

/// An LLVM function. Its values are carried, never looked into.
#[verifier::external_type_specification]
#[verifier::external_body]
pub struct ExFunctionValue<'ctx>(inkwell::values::FunctionValue<'ctx>);

/// An LLVM basic type. Its values are carried, never looked into.
#[verifier::external_type_specification]
#[verifier::external_body]
pub struct ExBasicTypeEnum<'ctx>(inkwell::types::BasicTypeEnum<'ctx>);

/// The LLVM objects that a function is written with.
pub struct Backend<'ctx, 'env> {
    pub context: &'ctx inkwell::context::Context,
    pub builder: &'env inkwell::builder::Builder<'ctx>,
}

/// A stack slot that LLVM reserved for a value of a basic type. Only
/// [`build_alloca`] makes one.
#[derive(Clone, Copy)]
pub struct StackSlot<'ctx> {
    pointer: inkwell::values::PointerValue<'ctx>,
}

/// What LLVM made for one instruction.
#[derive(Clone, Copy)]
pub enum Made<'ctx> {
    /// Nothing that a later instruction uses.
    Nothing,
    /// A stack slot.
    Slot(StackSlot<'ctx>),
    /// A value.
    Value(inkwell::values::BasicValueEnum<'ctx>),
    /// The outcome of a comparison.
    Flag(inkwell::values::IntValue<'ctx>),
}

/// Why a function could not be written out.
#[derive(Debug, Clone, Copy, PartialEq, Eq, Structural)]
pub enum RealizeError {
    /// The function, or the value asked for, is not sound.
    Malformed,
    /// The LLVM function has no block to start in.
    NoEntryBlock,
    /// The LLVM builder refused a call.
    Builder,
    /// LLVM made a value of another kind than the instruction yields.
    KindMismatch,
}

/// Calls `Context::i64_type` and turns the type into a `BasicTypeEnum` with
/// `BasicType::as_basic_type_enum`. Nothing is claimed of the type.
#[verifier::external_body]
fn llvm_int_type<'ctx>(context: &'ctx inkwell::context::Context) -> (ty:
    inkwell::types::BasicTypeEnum<'ctx>) {
    inkwell::types::BasicType::as_basic_type_enum(&context.i64_type())
}

/// Calls `Context::f64_type` and turns the type into a `BasicTypeEnum` with
/// `BasicType::as_basic_type_enum`. Nothing is claimed of the type.
#[verifier::external_body]
fn llvm_float_type<'ctx>(context: &'ctx inkwell::context::Context) -> (ty:
    inkwell::types::BasicTypeEnum<'ctx>) {
    inkwell::types::BasicType::as_basic_type_enum(&context.f64_type())
}

/// Calls `IntType::const_int`, without sign extension, on the type of
/// 64-bit integers, and turns the constant into a `BasicValueEnum`.
/// Nothing is claimed of the constant.
#[verifier::external_body]
fn const_int<'ctx>(context: &'ctx inkwell::context::Context, bits: u64) -> (value:
    inkwell::values::BasicValueEnum<'ctx>) {
    inkwell::values::BasicValue::as_basic_value_enum(&context.i64_type().const_int(bits, false))
}

/// Calls `Builder::build_bit_cast`, with an empty name, to cast the 64-bit
/// integer constant of the given bits to the 64-bit floating-point type.
/// The builder's own error comes back as it is; nothing is claimed of the
/// value.
#[verifier::external_body]
fn const_float<'ctx>(
    context: &'ctx inkwell::context::Context,
    builder: &inkwell::builder::Builder<'ctx>,
    bits: u64,
) -> (cast: Result<inkwell::values::BasicValueEnum<'ctx>, inkwell::builder::BuilderError>) {
    builder.build_bit_cast(context.i64_type().const_int(bits, false), context.f64_type(), "")
}

/// Tells the variants of `BasicValueEnum` apart: the integer, if the value
/// is one.
#[verifier::external_body]
fn as_int_value<'ctx>(value: inkwell::values::BasicValueEnum<'ctx>) -> (integer: Option<
    inkwell::values::IntValue<'ctx>,
>) {
    match value {
        inkwell::values::BasicValueEnum::IntValue(inner) => Some(inner),
        inkwell::values::BasicValueEnum::ArrayValue(_) => None,
        inkwell::values::BasicValueEnum::FloatValue(_) => None,
        inkwell::values::BasicValueEnum::PointerValue(_) => None,
        inkwell::values::BasicValueEnum::StructValue(_) => None,
        inkwell::values::BasicValueEnum::VectorValue(_) => None,
    }
}

/// Tells the variants of `BasicValueEnum` apart: the floating-point number,
/// if the value is one.
#[verifier::external_body]
fn as_float_value<'ctx>(value: inkwell::values::BasicValueEnum<'ctx>) -> (number: Option<
    inkwell::values::FloatValue<'ctx>,
>) {
    match value {
        inkwell::values::BasicValueEnum::FloatValue(inner) => Some(inner),
        inkwell::values::BasicValueEnum::ArrayValue(_) => None,
        inkwell::values::BasicValueEnum::IntValue(_) => None,
        inkwell::values::BasicValueEnum::PointerValue(_) => None,
        inkwell::values::BasicValueEnum::StructValue(_) => None,
        inkwell::values::BasicValueEnum::VectorValue(_) => None,
    }
}

/// Calls `FunctionValue::get_first_basic_block`. Nothing is claimed of what
/// it returns.
#[verifier::external_body]
fn get_first_basic_block<'ctx>(function: inkwell::values::FunctionValue<'ctx>) -> (block: Option<
    inkwell::basic_block::BasicBlock<'ctx>,
>) {
    function.get_first_basic_block()
}

/// Calls `BasicBlock::get_first_instruction`. Nothing is claimed of what it
/// returns.
#[verifier::external_body]
fn get_first_instruction<'ctx>(block: inkwell::basic_block::BasicBlock<'ctx>) -> (first: Option<
    inkwell::values::InstructionValue<'ctx>,
>) {
    block.get_first_instruction()
}

/// Calls `Context::append_basic_block`. Nothing is claimed of the block it
/// returns.
#[verifier::external_body]
fn append_basic_block<'ctx>(
    context: &'ctx inkwell::context::Context,
    function: inkwell::values::FunctionValue<'ctx>,
    name: &str,
) -> (block: inkwell::basic_block::BasicBlock<'ctx>) {
    context.append_basic_block(function, name)
}

/// Calls `Builder::position_at_end`.
#[verifier::external_body]
fn position_at_end<'ctx>(
    builder: &inkwell::builder::Builder<'ctx>,
    block: inkwell::basic_block::BasicBlock<'ctx>,
) {
    builder.position_at_end(block)
}

/// Calls `Builder::position_before`.
#[verifier::external_body]
fn position_before<'ctx>(
    builder: &inkwell::builder::Builder<'ctx>,
    instruction: &inkwell::values::InstructionValue<'ctx>,
) {
    builder.position_before(instruction)
}

/// Calls `Builder::build_alloca` for a basic type. The builder's own error
/// comes back as it is; nothing is claimed of the slot.
#[verifier::external_body]
fn build_alloca<'ctx>(
    builder: &inkwell::builder::Builder<'ctx>,
    ty: inkwell::types::BasicTypeEnum<'ctx>,
    name: &str,
) -> (slot: Result<StackSlot<'ctx>, inkwell::builder::BuilderError>) {
    match builder.build_alloca(ty, name) {
        Ok(pointer) => Ok(StackSlot { pointer }),
        Err(error) => Err(error),
    }
}

/// Calls `Builder::build_store`. The builder's own error comes back as it
/// is; the instruction is dropped.
#[verifier::external_body]
fn build_store<'ctx>(
    builder: &inkwell::builder::Builder<'ctx>,
    slot: StackSlot<'ctx>,
    value: inkwell::values::BasicValueEnum<'ctx>,
) -> (stored: Result<(), inkwell::builder::BuilderError>) {
    match builder.build_store(slot.pointer, value) {
        Ok(_) => Ok(()),
        Err(error) => Err(error),
    }
}

/// Calls `Builder::build_load` on a slot that [`build_alloca`] made, so
/// that what is loaded is of a basic type. The builder's own error comes
/// back as it is; nothing is claimed of the value.
#[verifier::external_body]
fn build_load<'ctx>(builder: &inkwell::builder::Builder<'ctx>, slot: StackSlot<'ctx>, name: &str) -> (loaded:
    Result<inkwell::values::BasicValueEnum<'ctx>, inkwell::builder::BuilderError>) {
    builder.build_load(slot.pointer, name)
}

/// Calls `Builder::build_int_compare` with the predicate `EQ`. The
/// builder's own error comes back as it is; nothing is claimed of the
/// outcome.
#[verifier::external_body]
fn build_int_compare<'ctx>(
    builder: &inkwell::builder::Builder<'ctx>,
    left: inkwell::values::IntValue<'ctx>,
    right: inkwell::values::IntValue<'ctx>,
    name: &str,
) -> (flag: Result<inkwell::values::IntValue<'ctx>, inkwell::builder::BuilderError>) {
    builder.build_int_compare(inkwell::IntPredicate::EQ, left, right, name)
}

/// Calls `Builder::build_float_compare` with the predicate `OEQ`. The
/// builder's own error comes back as it is; nothing is claimed of the
/// outcome.
#[verifier::external_body]
fn build_float_compare<'ctx>(
    builder: &inkwell::builder::Builder<'ctx>,
    left: inkwell::values::FloatValue<'ctx>,
    right: inkwell::values::FloatValue<'ctx>,
    name: &str,
) -> (flag: Result<inkwell::values::IntValue<'ctx>, inkwell::builder::BuilderError>) {
    builder.build_float_compare(inkwell::FloatPredicate::OEQ, left, right, name)
}

/// Calls `Builder::build_conditional_branch`. The builder's own error
/// comes back as it is; the instruction is dropped.
#[verifier::external_body]
fn build_conditional_branch<'ctx>(
    builder: &inkwell::builder::Builder<'ctx>,
    flag: inkwell::values::IntValue<'ctx>,
    then_block: inkwell::basic_block::BasicBlock<'ctx>,
    else_block: inkwell::basic_block::BasicBlock<'ctx>,
) -> (branched: Result<(), inkwell::builder::BuilderError>) {
    match builder.build_conditional_branch(flag, then_block, else_block) {
        Ok(_) => Ok(()),
        Err(error) => Err(error),
    }
}

/// Calls `Builder::build_unconditional_branch`. The builder's own error
/// comes back as it is; the instruction is dropped.
#[verifier::external_body]
fn build_unconditional_branch<'ctx>(
    builder: &inkwell::builder::Builder<'ctx>,
    target: inkwell::basic_block::BasicBlock<'ctx>,
) -> (branched: Result<(), inkwell::builder::BuilderError>) {
    match builder.build_unconditional_branch(target) {
        Ok(_) => Ok(()),
        Err(error) => Err(error),
    }
}

/// Calls `Builder::build_phi` for a basic type. The builder's own error
/// comes back as it is; nothing is claimed of the phi.
#[verifier::external_body]
fn build_phi<'ctx>(
    builder: &inkwell::builder::Builder<'ctx>,
    ty: inkwell::types::BasicTypeEnum<'ctx>,
    name: &str,
) -> (phi: Result<inkwell::values::PhiValue<'ctx>, inkwell::builder::BuilderError>) {
    builder.build_phi(ty, name)
}

/// Calls `PhiValue::add_incoming` with two values and the blocks they come
/// from.
#[verifier::external_body]
fn add_incoming<'ctx>(
    phi: inkwell::values::PhiValue<'ctx>,
    first: inkwell::values::BasicValueEnum<'ctx>,
    first_block: inkwell::basic_block::BasicBlock<'ctx>,
    second: inkwell::values::BasicValueEnum<'ctx>,
    second_block: inkwell::basic_block::BasicBlock<'ctx>,
) {
    phi.add_incoming(&[(&first, first_block), (&second, second_block)])
}

/// Calls `PhiValue::as_basic_value` on a phi that [`build_phi`] made, so
/// that it is of a basic type. Nothing is claimed of the value.
#[verifier::external_body]
fn phi_as_basic_value<'ctx>(phi: inkwell::values::PhiValue<'ctx>) -> (value:
    inkwell::values::BasicValueEnum<'ctx>) {
    phi.as_basic_value()
}

/// Whether what LLVM made for an instruction is what the instruction
/// yields: a slot for a reservation, a value for a load or a phi, a flag
/// for a comparison, nothing for the others.
pub open spec fn fits<'ctx>(made: Made<'ctx>, instr: Instr) -> bool {
    match instr {
        Instr::Alloca { .. } => made is Slot,
        Instr::Load { .. } | Instr::Phi { .. } => made is Value,
        Instr::IntCompare { .. } | Instr::FloatCompare { .. } => made is Flag,
        _ => made is Nothing,
    }
}

/// Whether `made` holds what LLVM made for the first instructions of
/// `instrs`, one for one.
pub open spec fn all_fit<'ctx>(made: Seq<Made<'ctx>>, instrs: Seq<Placed>) -> bool {
    &&& made.len() <= instrs.len()
    &&& forall|i: int| 0 <= i < made.len() ==> fits(#[trigger] made[i], instrs[i].instr)
}

/// The name that a block of a label gets in LLVM.
pub open spec fn name_of(label: BlockLabel) -> Seq<char> {
    match label {
        BlockLabel::Entry => "entry"@,
        BlockLabel::Then => "then"@,
        BlockLabel::Else => "else"@,
        BlockLabel::CaseCont => "casecont"@,
    }
}

/// The name that a block of a label gets.
fn block_name(label: BlockLabel) -> (name: &'static str)
    ensures
        name@ == name_of(label),
{
    match label {
        BlockLabel::Entry => "entry",
        BlockLabel::Then => "then",
        BlockLabel::Else => "else",
        BlockLabel::CaseCont => "casecont",
    }
}

/// The LLVM type for a basic type: of the two types that LLVM gave, the
/// type of 64-bit integers for `Int`, the type of 64-bit floating-point
/// numbers for `Float`.
fn llvm_type<'ctx>(
    int_type: inkwell::types::BasicTypeEnum<'ctx>,
    float_type: inkwell::types::BasicTypeEnum<'ctx>,
    ty: BasicType,
) -> (chosen: inkwell::types::BasicTypeEnum<'ctx>)
    ensures
        chosen == match ty {
            BasicType::Int => int_type,
            BasicType::Float => float_type,
        },
{
    match ty {
        BasicType::Int => int_type,
        BasicType::Float => float_type,
    }
}

/// The LLVM value for `value`: a constant, or what an earlier instruction
/// made. A floating-point constant is made from its bits by a cast, which
/// LLVM folds.
fn llvm_value<'ctx>(backend: &Backend<'ctx, '_>, made: &Vec<Made<'ctx>>, value: BasicValue) -> (result:
    Result<inkwell::values::BasicValueEnum<'ctx>, RealizeError>)
    requires
        value.operand matches Operand::Result(id) ==> id < made@.len() && made@[id as int] is Value,
    ensures
        match value.operand {
            Operand::ConstInt(_) => result is Ok,
            Operand::ConstFloat(_) => result matches Err(error) ==> error == RealizeError::Builder,
            Operand::Result(id) => result == Ok::<
                inkwell::values::BasicValueEnum<'ctx>,
                RealizeError,
            >(made@[id as int]->Value_0),
        },
{
    match value.operand {
        Operand::ConstInt(num) => {
            let bits = #[verifier::truncate] (num as u64);
            Ok(const_int(backend.context, bits))
        },
        Operand::ConstFloat(bits) => match const_float(backend.context, backend.builder, bits) {
            Ok(value) => Ok(value),
            Err(_) => Err(RealizeError::Builder),
        },
        Operand::Result(id) => match made[id] {
            Made::Value(value) => Ok(value),
            _ => Err(RealizeError::KindMismatch),
        },
    }
}

/// Writes the function of `builder` into the LLVM function `parent`, whose
/// first block stands for the entry block, leaves the LLVM builder where
/// `builder` stands, and yields the LLVM value for `result`.
///
/// Nothing is written, and `Malformed` comes back, exactly when the
/// function is not well formed and sound or `result` is no value of it.
/// Otherwise the outcome is LLVM's: the value, or the first refusal.
pub fn realize<'ctx>(
    backend: &Backend<'ctx, '_>,
    parent: inkwell::values::FunctionValue<'ctx>,
    builder: &IrBuilder,
    result: BasicValue,
) -> (value: Result<inkwell::values::BasicValueEnum<'ctx>, RealizeError>)
    ensures
        value matches Err(RealizeError::Malformed) <==> !(builder@.wf() && builder@.sound()
            && value_ok(builder@.instrs, result, builder@.instrs.len() as int)),
{
    if !builder.check() || !check_value(&builder.function.instrs, result, builder.function.instrs.len()) {
        return Err(RealizeError::Malformed);
    }
    let entry = match get_first_basic_block(parent) {
        Some(entry) => entry,
        None => {
            return Err(RealizeError::NoEntryBlock);
        },
    };
    let count = builder.function.blocks.len();
    let mut blocks: Vec<inkwell::basic_block::BasicBlock<'ctx>> = Vec::new();
    blocks.push(entry);
    let mut b: usize = 1;
    while b < count
        invariant
            1 <= b <= count,
            count == builder@.blocks.len(),
            blocks@.len() == b,
        decreases count - b,
    {
        let block = append_basic_block(backend.context, parent, block_name(builder.function.blocks[b]));
        blocks.push(block);
        b += 1;
    }
    let n = builder.function.instrs.len();
    let mut made: Vec<Made<'ctx>> = Vec::new();
    let mut i: usize = 0;
    while i < n
        invariant
            i <= n,
            n == builder@.instrs.len(),
            builder@.wf(),
            builder@.sound(),
            value_ok(builder@.instrs, result, builder@.instrs.len() as int),
            blocks@.len() == builder@.blocks.len(),
            made@.len() == i,
            all_fit(made@, builder@.instrs),
        decreases n - i,
    {
        let placed = builder.function.instrs[i];
        proof {
            reveal(IrBuilderView::sound);
            assert(builder@.instrs[i as int] == placed);
            assert(instr_ok(builder@.instrs, builder@.blocks.len() as int, placed.instr, i as int));
        }
        let next = match write(backend, entry, &blocks, &made, placed) {
            Ok(next) => next,
            Err(error) => {
                return Err(error);
            },
        };
        made.push(next);
        i += 1;
    }
    position_at_end(backend.builder, blocks[builder.position]);
    llvm_value(backend, &made, result)
}

/// Writes one instruction and yields what LLVM made for it.
fn write<'ctx>(
    backend: &Backend<'ctx, '_>,
    entry: inkwell::basic_block::BasicBlock<'ctx>,
    blocks: &Vec<inkwell::basic_block::BasicBlock<'ctx>>,
    made: &Vec<Made<'ctx>>,
    placed: Placed,
) -> (result: Result<Made<'ctx>, RealizeError>)
    requires
        placed.block < blocks@.len(),
        exists|instrs: Seq<Placed>|
            #![trigger all_fit(made@, instrs)]
            all_fit(made@, instrs) && instr_ok(
                instrs,
                blocks@.len() as int,
                placed.instr,
                made@.len() as int,
            ),
    ensures
        !(result matches Err(RealizeError::Malformed)),
        result matches Ok(next) ==> fits(next, placed.instr),
{
    let ghost instrs = choose|instrs: Seq<Placed>|
        #![trigger all_fit(made@, instrs)]
        all_fit(made@, instrs) && instr_ok(
            instrs,
            blocks@.len() as int,
            placed.instr,
            made@.len() as int,
        );
    match placed.instr {
        Instr::Alloca { ty, .. } => {
            match get_first_instruction(entry) {
                Some(first) => position_before(backend.builder, &first),
                None => position_at_end(backend.builder, entry),
            }
            let slot_type = llvm_type(
                llvm_int_type(backend.context),
                llvm_float_type(backend.context),
                ty,
            );
            match build_alloca(backend.builder, slot_type, "slot") {
                Ok(slot) => Ok(Made::Slot(slot)),
                Err(_) => Err(RealizeError::Builder),
            }
        },
        Instr::Store { pointer, value } => {
            position_at_end(backend.builder, blocks[placed.block]);
            let value = match llvm_value(backend, made, value) {
                Ok(value) => value,
                Err(error) => {
                    return Err(error);
                },
            };
            match made[pointer.slot] {
                Made::Slot(slot) => match build_store(backend.builder, slot, value) {
                    Ok(_) => Ok(Made::Nothing),
                    Err(_) => Err(RealizeError::Builder),
                },
                _ => Err(RealizeError::KindMismatch),
            }
        },
        Instr::Load { pointer, .. } => {
            position_at_end(backend.builder, blocks[placed.block]);
            match made[pointer.slot] {
                Made::Slot(slot) => match build_load(backend.builder, slot, "value") {
                    Ok(value) => Ok(Made::Value(value)),
                    Err(_) => Err(RealizeError::Builder),
                },
                _ => Err(RealizeError::KindMismatch),
            }
        },
        Instr::IntCompare { left, right } => {
            position_at_end(backend.builder, blocks[placed.block]);
            let left = match llvm_value(backend, made, left) {
                Ok(value) => value,
                Err(error) => {
                    return Err(error);
                },
            };
            let right = match llvm_value(backend, made, right) {
                Ok(value) => value,
                Err(error) => {
                    return Err(error);
                },
            };
            match (as_int_value(left), as_int_value(right)) {
                (Some(left), Some(right)) => match build_int_compare(
                    backend.builder,
                    left,
                    right,
                    "whencond",
                ) {
                    Ok(flag) => Ok(Made::Flag(flag)),
                    Err(_) => Err(RealizeError::Builder),
                },
                _ => Err(RealizeError::KindMismatch),
            }
        },
        Instr::FloatCompare { left, right } => {
            position_at_end(backend.builder, blocks[placed.block]);
            let left = match llvm_value(backend, made, left) {
                Ok(value) => value,
                Err(error) => {
                    return Err(error);
                },
            };
            let right = match llvm_value(backend, made, right) {
                Ok(value) => value,
                Err(error) => {
                    return Err(error);
                },
            };
            match (as_float_value(left), as_float_value(right)) {
                (Some(left), Some(right)) => match build_float_compare(
                    backend.builder,
                    left,
                    right,
                    "whencond",
                ) {
                    Ok(flag) => Ok(Made::Flag(flag)),
                    Err(_) => Err(RealizeError::Builder),
                },
                _ => Err(RealizeError::KindMismatch),
            }
        },
        Instr::ConditionalBranch { condition, then_block, else_block } => {
            position_at_end(backend.builder, blocks[placed.block]);
            match made[condition] {
                Made::Flag(flag) => match build_conditional_branch(
                    backend.builder,
                    flag,
                    blocks[then_block],
                    blocks[else_block],
                ) {
                    Ok(_) => Ok(Made::Nothing),
                    Err(_) => Err(RealizeError::Builder),
                },
                _ => Err(RealizeError::KindMismatch),
            }
        },
        Instr::Branch { target } => {
            position_at_end(backend.builder, blocks[placed.block]);
            match build_unconditional_branch(backend.builder, blocks[target]) {
                Ok(_) => Ok(Made::Nothing),
                Err(_) => Err(RealizeError::Builder),
            }
        },
        Instr::Phi { ty, first, second } => {
            position_at_end(backend.builder, blocks[placed.block]);
            let first_value = match llvm_value(backend, made, first.value) {
                Ok(value) => value,
                Err(error) => {
                    return Err(error);
                },
            };
            let second_value = match llvm_value(backend, made, second.value) {
                Ok(value) => value,
                Err(error) => {
                    return Err(error);
                },
            };
            let phi_type = llvm_type(
                llvm_int_type(backend.context),
                llvm_float_type(backend.context),
                ty,
            );
            match build_phi(backend.builder, phi_type, "casetmp") {
                Ok(phi) => {
                    add_incoming(
                        phi,
                        first_value,
                        blocks[first.block],
                        second_value,
                        blocks[second.block],
                    );
                    Ok(Made::Value(phi_as_basic_value(phi)))
                },
                Err(_) => Err(RealizeError::Builder),
            }
        },
    }
}

} // verus!
