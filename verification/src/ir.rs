//! The form that expressions are lowered to: a function of basic blocks in
//! static single assignment, and the builder that writes one.
//!
//! A function is kept as the list of its instructions in the order in
//! which they were written, each with the block it was put in. The number
//! of an instruction is its place in that list, and a value that an
//! instruction yields is named by that number. Within a block the
//! instructions run in the order in which they were written, with one
//! exception: stack slots are reserved at the front of the entry block,
//! the latest first, wherever the builder stood when they were asked for.

use vstd::prelude::*;
use crate::symbol::Symbol;

verus! {

/// The type of a value in a register.
#[derive(Debug, Clone, Copy, PartialEq, Eq, Structural)]
pub enum BasicType {
    /// A 64-bit integer.
    Int,
    /// A 64-bit floating-point number.
    Float,
}

/// Where a value comes from.
#[derive(Debug, Clone, Copy, PartialEq, Eq, Structural)]
pub enum Operand {
    /// A 64-bit integer constant.
    ConstInt(i64),
    /// A 64-bit floating-point constant, as its IEEE 754 bits.
    ConstFloat(u64),
    /// What the instruction with this number yields.
    Result(usize),
}

/// A value of a basic type.
#[derive(Debug, Clone, Copy, PartialEq, Eq, Structural)]
pub struct BasicValue {
    pub kind: BasicType,
    pub operand: Operand,
}

/// The address of a stack slot: the number of the instruction that
/// reserves it, and the type of what it holds.
#[derive(Debug, Clone, Copy, PartialEq, Eq, Structural)]
pub struct SlotPointer {
    pub slot: usize,
    pub pointee: BasicType,
}

/// What a block is for.
#[derive(Debug, Clone, Copy, PartialEq, Eq, Structural)]
pub enum BlockLabel {
    Entry,
    Then,
    Else,
    CaseCont,
}

/// A value and the block that control comes from when it is chosen.
#[derive(Debug, Clone, Copy, PartialEq, Eq, Structural)]
pub struct Incoming {
    pub value: BasicValue,
    pub block: usize,
}

/// One instruction. Blocks are named by their place in the function.
#[derive(Debug, Clone, Copy, PartialEq, Eq, Structural)]
pub enum Instr {
    /// Reserves a stack slot for the value of `symbol`.
    Alloca { ty: BasicType, symbol: Symbol },
    /// Writes `value` to a stack slot.
    Store { pointer: SlotPointer, value: BasicValue },
    /// Reads the value of `symbol` from its stack slot.
    Load { pointer: SlotPointer, symbol: Symbol },
    /// Whether two integers are equal.
    IntCompare { left: BasicValue, right: BasicValue },
    /// Whether two floating-point numbers are ordered and equal.
    FloatCompare { left: BasicValue, right: BasicValue },
    /// Goes to `then_block` if the comparison with the number `condition`
    /// held, else to `else_block`.
    ConditionalBranch { condition: usize, then_block: usize, else_block: usize },
    /// Goes to `target`.
    Branch { target: usize },
    /// The value that came from whichever of two blocks ran before.
    Phi { ty: BasicType, first: Incoming, second: Incoming },
}

/// An instruction and the block it was put in.
#[derive(Debug, Clone, Copy, PartialEq, Eq, Structural)]
pub struct Placed {
    pub block: usize,
    pub instr: Instr,
}

/// A function under construction: its instructions in the order in which
/// they were written, and the labels of its blocks. The first block is the
/// entry block.
#[derive(Debug, PartialEq, Eq)]
pub struct Function {
    pub instrs: Vec<Placed>,
    pub blocks: Vec<BlockLabel>,
}

/// A function and the block at whose end instructions are put.
#[derive(Debug, PartialEq, Eq)]
pub struct IrBuilder {
    pub function: Function,
    pub position: usize,
}

/// The mathematical content of an [`IrBuilder`].
pub struct IrBuilderView {
    pub instrs: Seq<Placed>,
    pub blocks: Seq<BlockLabel>,
    pub position: int,
}

impl View for IrBuilder {
    type V = IrBuilderView;

    open spec fn view(&self) -> IrBuilderView {
        IrBuilderView {
            instrs: self.function.instrs@,
            blocks: self.function.blocks@,
            position: self.position as int,
        }
    }
}

/// The type of the value that an instruction yields, if it yields one.
pub open spec fn yields(instr: Instr) -> Option<BasicType> {
    match instr {
        Instr::Load { pointer, .. } => Some(pointer.pointee),
        Instr::Phi { ty, .. } => Some(ty),
        _ => None,
    }
}

/// Whether `value` can be used by the instruction with the number `at`: it
/// is a constant of its kind, or what an earlier instruction yields, of
/// that kind.
pub open spec fn value_ok(instrs: Seq<Placed>, value: BasicValue, at: int) -> bool {
    match value.operand {
        Operand::ConstInt(_) => value.kind == BasicType::Int,
        Operand::ConstFloat(_) => value.kind == BasicType::Float,
        Operand::Result(id) => id < at && id < instrs.len() && yields(instrs[id as int].instr)
            == Some(value.kind),
    }
}

/// Whether `pointer` can be used by the instruction with the number `at`:
/// an earlier instruction reserves a slot of its type.
pub open spec fn pointer_ok(instrs: Seq<Placed>, pointer: SlotPointer, at: int) -> bool {
    &&& pointer.slot < at
    &&& pointer.slot < instrs.len()
    &&& instrs[pointer.slot as int].instr matches Instr::Alloca { ty, .. } && ty == pointer.pointee
}

/// Whether the instruction with the number `id` is a comparison that comes
/// before the instruction with the number `at`.
pub open spec fn flag_ok(instrs: Seq<Placed>, id: usize, at: int) -> bool {
    &&& id < at
    &&& id < instrs.len()
    &&& instrs[id as int].instr is IntCompare || instrs[id as int].instr is FloatCompare
}

/// Whether `instr` can stand at the place `at` in a function of `blocks`
/// blocks: what it uses comes before it and is of the kind it needs, and
/// the blocks it names are there.
pub open spec fn instr_ok(instrs: Seq<Placed>, blocks: int, instr: Instr, at: int) -> bool {
    match instr {
        Instr::Alloca { .. } => true,
        Instr::Store { pointer, value } => pointer_ok(instrs, pointer, at) && value_ok(
            instrs,
            value,
            at,
        ),
        Instr::Load { pointer, .. } => pointer_ok(instrs, pointer, at),
        Instr::IntCompare { left, right } => {
            &&& value_ok(instrs, left, at)
            &&& value_ok(instrs, right, at)
            &&& left.kind == BasicType::Int
            &&& right.kind == BasicType::Int
        },
        Instr::FloatCompare { left, right } => {
            &&& value_ok(instrs, left, at)
            &&& value_ok(instrs, right, at)
            &&& left.kind == BasicType::Float
            &&& right.kind == BasicType::Float
        },
        Instr::ConditionalBranch { condition, then_block, else_block } => {
            &&& flag_ok(instrs, condition, at)
            &&& then_block < blocks
            &&& else_block < blocks
        },
        Instr::Branch { target } => target < blocks,
        Instr::Phi { ty, first, second } => {
            &&& value_ok(instrs, first.value, at)
            &&& value_ok(instrs, second.value, at)
            &&& first.value.kind == ty
            &&& second.value.kind == ty
            &&& first.block < blocks
            &&& second.block < blocks
        },
    }
}

/// The numbers of the stack slots among the first `n` instructions, the
/// latest first.
pub open spec fn slots(instrs: Seq<Placed>, n: int) -> Seq<usize>
    decreases n,
{
    if n <= 0 {
        Seq::empty()
    } else if instrs[n - 1].instr is Alloca {
        seq![(n - 1) as usize] + slots(instrs, n - 1)
    } else {
        slots(instrs, n - 1)
    }
}

/// The numbers of the instructions of `block` among the first `n`, stack
/// slots left out, in the order in which they were written.
pub open spec fn code(instrs: Seq<Placed>, block: int, n: int) -> Seq<usize>
    decreases n,
{
    if n <= 0 {
        Seq::empty()
    } else if instrs[n - 1].block == block && !(instrs[n - 1].instr is Alloca) {
        code(instrs, block, n - 1).push((n - 1) as usize)
    } else {
        code(instrs, block, n - 1)
    }
}

impl IrBuilderView {
    /// There is an entry block, the builder stands in a block, every
    /// instruction is in a block, and every stack slot is reserved in the
    /// entry block.
    pub open spec fn wf(self) -> bool {
        &&& self.blocks.len() >= 1
        &&& 0 <= self.position < self.blocks.len()
        &&& forall|i: int|
            0 <= i < self.instrs.len() ==> (#[trigger] self.instrs[i]).block < self.blocks.len()
        &&& self.slots_in_entry()
    }

    /// Whether every stack slot is reserved in the entry block.
    pub open spec fn slots_in_entry(self) -> bool {
        forall|i: int|
            0 <= i < self.instrs.len() && (#[trigger] self.instrs[i]).instr is Alloca
                ==> self.instrs[i].block == 0
    }

    /// Whether every instruction uses only what comes before it, of the
    /// kind it needs, and names only blocks that are there.
    #[verifier::opaque]
    pub open spec fn sound(self) -> bool {
        forall|i: int|
            0 <= i < self.instrs.len() ==> instr_ok(
                self.instrs,
                self.blocks.len() as int,
                (#[trigger] self.instrs[i]).instr,
                i,
            )
    }

    /// The numbers of the instructions of `block`, in the order in which
    /// they run: in the entry block the stack slots first, the latest
    /// first; then what was written to the block, in order.
    pub open spec fn body(self, block: int) -> Seq<usize> {
        if block == 0 {
            slots(self.instrs, self.instrs.len() as int) + code(
                self.instrs,
                block,
                self.instrs.len() as int,
            )
        } else {
            code(self.instrs, block, self.instrs.len() as int)
        }
    }

    /// Whether `later` may come of this builder by writing more code: what
    /// was written is still there under its number, and the blocks are
    /// still there under their labels.
    pub open spec fn grows_to(self, later: IrBuilderView) -> bool {
        &&& self.instrs.len() <= later.instrs.len()
        &&& forall|i: int| 0 <= i < self.instrs.len() ==> #[trigger] later.instrs[i] == self.instrs[i]
        &&& self.blocks.len() <= later.blocks.len()
        &&& forall|b: int| 0 <= b < self.blocks.len() ==> #[trigger] later.blocks[b] == self.blocks[b]
    }

    /// The number that the next instruction gets.
    pub open spec fn next_id(self) -> usize {
        self.instrs.len() as usize
    }

    /// The builder after `instr` was put at the end of the current block.
    pub open spec fn emit(self, instr: Instr) -> IrBuilderView {
        IrBuilderView {
            instrs: self.instrs.push(Placed { block: self.position as usize, instr }),
            ..self
        }
    }

    /// The builder after a stack slot was reserved at the front of the
    /// entry block.
    pub open spec fn alloca_in_entry(self, ty: BasicType, symbol: Symbol) -> IrBuilderView {
        IrBuilderView {
            instrs: self.instrs.push(Placed { block: 0, instr: Instr::Alloca { ty, symbol } }),
            ..self
        }
    }

    /// The builder after an empty block was added behind the others.
    pub open spec fn append_block(self, label: BlockLabel) -> IrBuilderView {
        IrBuilderView { blocks: self.blocks.push(label), ..self }
    }

    /// The builder writing to the end of `block`.
    pub open spec fn at_end_of(self, block: int) -> IrBuilderView {
        IrBuilderView { position: block, ..self }
    }

    /// What is sound stays sound when an instruction is added that uses
    /// only what is there.
    pub proof fn lemma_sound_push(self, placed: Placed)
        requires
            self.sound(),
            instr_ok(self.instrs, self.blocks.len() as int, placed.instr, self.instrs.len() as int),
        ensures
            (IrBuilderView { instrs: self.instrs.push(placed), ..self }).sound(),
    {
        reveal(IrBuilderView::sound);
        let after = IrBuilderView { instrs: self.instrs.push(placed), ..self };
        assert forall|i: int| 0 <= i < after.instrs.len() implies instr_ok(
            after.instrs,
            after.blocks.len() as int,
            (#[trigger] after.instrs[i]).instr,
            i,
        ) by {
            if i < self.instrs.len() {
                assert(after.instrs[i] == self.instrs[i]);
                assert(instr_ok(self.instrs, self.blocks.len() as int, self.instrs[i].instr, i));
                lemma_instr_ok_grows(
                    self.instrs,
                    after.instrs,
                    self.blocks.len() as int,
                    after.blocks.len() as int,
                    self.instrs[i].instr,
                    i,
                );
            } else {
                lemma_instr_ok_grows(
                    self.instrs,
                    after.instrs,
                    self.blocks.len() as int,
                    after.blocks.len() as int,
                    placed.instr,
                    i,
                );
            }
        }
    }

    /// What is sound stays sound when a block is added.
    pub proof fn lemma_sound_append(self, label: BlockLabel)
        requires
            self.sound(),
        ensures
            self.append_block(label).sound(),
    {
        reveal(IrBuilderView::sound);
        let after = self.append_block(label);
        assert forall|i: int| 0 <= i < after.instrs.len() implies instr_ok(
            after.instrs,
            after.blocks.len() as int,
            (#[trigger] after.instrs[i]).instr,
            i,
        ) by {
            assert(instr_ok(self.instrs, self.blocks.len() as int, self.instrs[i].instr, i));
            lemma_instr_ok_grows(
                self.instrs,
                after.instrs,
                self.blocks.len() as int,
                after.blocks.len() as int,
                self.instrs[i].instr,
                i,
            );
        }
    }
}

/// A value that can be used stays usable when instructions are added and
/// when it is used later.
pub proof fn lemma_value_ok_grows(
    earlier: Seq<Placed>,
    later: Seq<Placed>,
    value: BasicValue,
    at: int,
    later_at: int,
)
    requires
        value_ok(earlier, value, at),
        at <= later_at,
        earlier.len() <= later.len(),
        forall|i: int| 0 <= i < earlier.len() ==> #[trigger] later[i] == earlier[i],
    ensures
        value_ok(later, value, later_at),
{
}

/// A pointer that can be used stays usable when instructions are added and
/// when it is used later.
pub proof fn lemma_pointer_ok_grows(
    earlier: Seq<Placed>,
    later: Seq<Placed>,
    pointer: SlotPointer,
    at: int,
    later_at: int,
)
    requires
        pointer_ok(earlier, pointer, at),
        at <= later_at,
        earlier.len() <= later.len(),
        forall|i: int| 0 <= i < earlier.len() ==> #[trigger] later[i] == earlier[i],
    ensures
        pointer_ok(later, pointer, later_at),
{
}

/// An instruction that can stand at a place can stand there when
/// instructions and blocks are added.
pub proof fn lemma_instr_ok_grows(
    earlier: Seq<Placed>,
    later: Seq<Placed>,
    blocks: int,
    later_blocks: int,
    instr: Instr,
    at: int,
)
    requires
        instr_ok(earlier, blocks, instr, at),
        blocks <= later_blocks,
        earlier.len() <= later.len(),
        forall|i: int| 0 <= i < earlier.len() ==> #[trigger] later[i] == earlier[i],
    ensures
        instr_ok(later, later_blocks, instr, at),
{
    match instr {
        Instr::Store { pointer, value } => {
            lemma_pointer_ok_grows(earlier, later, pointer, at, at);
            lemma_value_ok_grows(earlier, later, value, at, at);
        },
        Instr::Load { pointer, .. } => {
            lemma_pointer_ok_grows(earlier, later, pointer, at, at);
        },
        Instr::IntCompare { left, right } => {
            lemma_value_ok_grows(earlier, later, left, at, at);
            lemma_value_ok_grows(earlier, later, right, at, at);
        },
        Instr::FloatCompare { left, right } => {
            lemma_value_ok_grows(earlier, later, left, at, at);
            lemma_value_ok_grows(earlier, later, right, at, at);
        },
        Instr::Phi { ty, first, second } => {
            lemma_value_ok_grows(earlier, later, first.value, at, at);
            lemma_value_ok_grows(earlier, later, second.value, at, at);
        },
        _ => {},
    }
}

/// Whether two types are the same.
pub fn same_type(left: BasicType, right: BasicType) -> (same: bool)
    ensures
        same == (left == right),
{
    match (left, right) {
        (BasicType::Int, BasicType::Int) => true,
        (BasicType::Float, BasicType::Float) => true,
        _ => false,
    }
}

/// Whether `value` can be used by the instruction with the number `at`.
pub fn check_value(instrs: &Vec<Placed>, value: BasicValue, at: usize) -> (fine: bool)
    requires
        at <= instrs@.len(),
    ensures
        fine == value_ok(instrs@, value, at as int),
{
    match value.operand {
        Operand::ConstInt(_) => same_type(value.kind, BasicType::Int),
        Operand::ConstFloat(_) => same_type(value.kind, BasicType::Float),
        Operand::Result(id) => {
            if id < at {
                match instrs[id].instr {
                    Instr::Load { pointer, .. } => same_type(pointer.pointee, value.kind),
                    Instr::Phi { ty, .. } => same_type(ty, value.kind),
                    _ => false,
                }
            } else {
                false
            }
        },
    }
}

/// Whether `pointer` can be used by the instruction with the number `at`.
pub fn check_pointer(instrs: &Vec<Placed>, pointer: SlotPointer, at: usize) -> (fine: bool)
    requires
        at <= instrs@.len(),
    ensures
        fine == pointer_ok(instrs@, pointer, at as int),
{
    if pointer.slot < at {
        match instrs[pointer.slot].instr {
            Instr::Alloca { ty, .. } => same_type(ty, pointer.pointee),
            _ => false,
        }
    } else {
        false
    }
}

/// Whether the instruction with the number `id` is a comparison that comes
/// before the instruction with the number `at`.
pub fn check_flag(instrs: &Vec<Placed>, id: usize, at: usize) -> (fine: bool)
    requires
        at <= instrs@.len(),
    ensures
        fine == flag_ok(instrs@, id, at as int),
{
    if id < at {
        match instrs[id].instr {
            Instr::IntCompare { .. } => true,
            Instr::FloatCompare { .. } => true,
            _ => false,
        }
    } else {
        false
    }
}

/// Whether `instr` can stand at the place `at` in a function of `blocks`
/// blocks.
pub fn check_instr(instrs: &Vec<Placed>, blocks: usize, instr: Instr, at: usize) -> (fine: bool)
    requires
        at <= instrs@.len(),
    ensures
        fine == instr_ok(instrs@, blocks as int, instr, at as int),
{
    match instr {
        Instr::Alloca { .. } => true,
        Instr::Store { pointer, value } => check_pointer(instrs, pointer, at) && check_value(
            instrs,
            value,
            at,
        ),
        Instr::Load { pointer, .. } => check_pointer(instrs, pointer, at),
        Instr::IntCompare { left, right } => check_value(instrs, left, at) && check_value(
            instrs,
            right,
            at,
        ) && same_type(left.kind, BasicType::Int) && same_type(right.kind, BasicType::Int),
        Instr::FloatCompare { left, right } => check_value(instrs, left, at) && check_value(
            instrs,
            right,
            at,
        ) && same_type(left.kind, BasicType::Float) && same_type(right.kind, BasicType::Float),
        Instr::ConditionalBranch { condition, then_block, else_block } => check_flag(
            instrs,
            condition,
            at,
        ) && then_block < blocks && else_block < blocks,
        Instr::Branch { target } => target < blocks,
        Instr::Phi { ty, first, second } => check_value(instrs, first.value, at) && check_value(
            instrs,
            second.value,
            at,
        ) && same_type(first.value.kind, ty) && same_type(second.value.kind, ty) && first.block
            < blocks && second.block < blocks,
    }
}

impl IrBuilder {
    /// A builder for a function that has an empty entry block and nothing
    /// else, writing to that block.
    pub fn new() -> (builder: IrBuilder)
        ensures
            builder@.wf(),
            builder@.sound(),
            builder@.instrs.len() == 0,
            builder@.blocks == seq![BlockLabel::Entry],
            builder@.position == 0,
    {
        let mut blocks: Vec<BlockLabel> = Vec::new();
        blocks.push(BlockLabel::Entry);
        proof {
            assert(blocks@ =~= seq![BlockLabel::Entry]);
            reveal(IrBuilderView::sound);
        }
        IrBuilder { function: Function { instrs: Vec::new(), blocks }, position: 0 }
    }

    /// Adds an empty block behind the others and yields its place.
    pub fn append_basic_block(&mut self, label: BlockLabel) -> (block: usize)
        requires
            old(self)@.wf(),
        ensures
            final(self)@ == old(self)@.append_block(label),
            block == old(self)@.blocks.len(),
            final(self)@.wf(),
            old(self)@.grows_to(final(self)@),
            old(self)@.sound() ==> final(self)@.sound(),
    {
        let block = self.function.blocks.len();
        self.function.blocks.push(label);
        proof {
            if old(self)@.sound() {
                old(self)@.lemma_sound_append(label);
            }
        }
        block
    }

    /// Moves the builder to the end of `block`.
    pub fn position_at_end(&mut self, block: usize)
        requires
            old(self)@.wf(),
            block < old(self)@.blocks.len(),
        ensures
            final(self)@ == old(self)@.at_end_of(block as int),
            final(self)@.wf(),
            old(self)@.grows_to(final(self)@),
            old(self)@.sound() ==> final(self)@.sound(),
    {
        self.position = block;
        proof {
            reveal(IrBuilderView::sound);
        }
    }

    /// The block that the builder writes to.
    pub fn get_insert_block(&self) -> (block: usize)
        ensures
            block == self@.position,
    {
        self.position
    }

    /// Puts `instr`, which reserves no stack slot, at the end of the
    /// current block and yields its number.
    fn emit(&mut self, instr: Instr) -> (id: usize)
        requires
            old(self)@.wf(),
            !(instr is Alloca),
        ensures
            final(self)@ == old(self)@.emit(instr),
            id == old(self)@.next_id(),
            id < final(self)@.instrs.len(),
            final(self)@.instrs[id as int].instr == instr,
            final(self)@.wf(),
            old(self)@.grows_to(final(self)@),
            old(self)@.sound() && instr_ok(
                old(self)@.instrs,
                old(self)@.blocks.len() as int,
                instr,
                old(self)@.instrs.len() as int,
            ) ==> final(self)@.sound(),
    {
        let id = self.function.instrs.len();
        let placed = Placed { block: self.position, instr };
        self.function.instrs.push(placed);
        proof {
            if old(self)@.sound() && instr_ok(
                old(self)@.instrs,
                old(self)@.blocks.len() as int,
                instr,
                old(self)@.instrs.len() as int,
            ) {
                old(self)@.lemma_sound_push(placed);
            }
        }
        id
    }

    /// Writes `value` to the slot at `pointer`.
    pub fn build_store(&mut self, pointer: SlotPointer, value: BasicValue)
        requires
            old(self)@.wf(),
        ensures
            final(self)@ == old(self)@.emit(Instr::Store { pointer, value }),
            final(self)@.wf(),
            old(self)@.grows_to(final(self)@),
            old(self)@.sound() && instr_ok(
                old(self)@.instrs,
                old(self)@.blocks.len() as int,
                Instr::Store { pointer, value },
                old(self)@.instrs.len() as int,
            ) ==> final(self)@.sound(),
    {
        self.emit(Instr::Store { pointer, value });
    }

    /// Reads the value of `symbol` from the slot at `pointer`.
    pub fn build_load(&mut self, pointer: SlotPointer, symbol: Symbol) -> (value: BasicValue)
        requires
            old(self)@.wf(),
        ensures
            final(self)@ == old(self)@.emit(Instr::Load { pointer, symbol }),
            value == (BasicValue {
                kind: pointer.pointee,
                operand: Operand::Result(old(self)@.next_id()),
            }),
            final(self)@.wf(),
            old(self)@.grows_to(final(self)@),
            old(self)@.sound() && instr_ok(
                old(self)@.instrs,
                old(self)@.blocks.len() as int,
                Instr::Load { pointer, symbol },
                old(self)@.instrs.len() as int,
            ) ==> final(self)@.sound() && value_ok(
                final(self)@.instrs,
                value,
                final(self)@.instrs.len() as int,
            ),
    {
        let id = self.emit(Instr::Load { pointer, symbol });
        BasicValue { kind: pointer.pointee, operand: Operand::Result(id) }
    }

    /// Compares two integers for equality and yields the comparison's
    /// number.
    pub fn build_int_compare(&mut self, left: BasicValue, right: BasicValue) -> (id: usize)
        requires
            old(self)@.wf(),
        ensures
            final(self)@ == old(self)@.emit(Instr::IntCompare { left, right }),
            id == old(self)@.next_id(),
            final(self)@.wf(),
            old(self)@.grows_to(final(self)@),
            old(self)@.sound() && instr_ok(
                old(self)@.instrs,
                old(self)@.blocks.len() as int,
                Instr::IntCompare { left, right },
                old(self)@.instrs.len() as int,
            ) ==> final(self)@.sound() && flag_ok(
                final(self)@.instrs,
                id,
                final(self)@.instrs.len() as int,
            ),
    {
        self.emit(Instr::IntCompare { left, right })
    }

    /// Compares two floating-point numbers for ordered equality and yields
    /// the comparison's number.
    pub fn build_float_compare(&mut self, left: BasicValue, right: BasicValue) -> (id: usize)
        requires
            old(self)@.wf(),
        ensures
            final(self)@ == old(self)@.emit(Instr::FloatCompare { left, right }),
            id == old(self)@.next_id(),
            final(self)@.wf(),
            old(self)@.grows_to(final(self)@),
            old(self)@.sound() && instr_ok(
                old(self)@.instrs,
                old(self)@.blocks.len() as int,
                Instr::FloatCompare { left, right },
                old(self)@.instrs.len() as int,
            ) ==> final(self)@.sound() && flag_ok(
                final(self)@.instrs,
                id,
                final(self)@.instrs.len() as int,
            ),
    {
        self.emit(Instr::FloatCompare { left, right })
    }

    /// Ends the current block with a branch on a comparison.
    pub fn build_conditional_branch(&mut self, condition: usize, then_block: usize, else_block: usize)
        requires
            old(self)@.wf(),
        ensures
            final(self)@ == old(self)@.emit(
                Instr::ConditionalBranch { condition, then_block, else_block },
            ),
            final(self)@.wf(),
            old(self)@.grows_to(final(self)@),
            old(self)@.sound() && instr_ok(
                old(self)@.instrs,
                old(self)@.blocks.len() as int,
                Instr::ConditionalBranch { condition, then_block, else_block },
                old(self)@.instrs.len() as int,
            ) ==> final(self)@.sound(),
    {
        self.emit(Instr::ConditionalBranch { condition, then_block, else_block });
    }

    /// Ends the current block with a branch to `target`.
    pub fn build_unconditional_branch(&mut self, target: usize)
        requires
            old(self)@.wf(),
        ensures
            final(self)@ == old(self)@.emit(Instr::Branch { target }),
            final(self)@.wf(),
            old(self)@.grows_to(final(self)@),
            old(self)@.sound() && target < old(self)@.blocks.len() ==> final(self)@.sound(),
    {
        self.emit(Instr::Branch { target });
    }

    /// Merges the values that come from two blocks.
    pub fn build_phi(&mut self, ty: BasicType, first: Incoming, second: Incoming) -> (value: BasicValue)
        requires
            old(self)@.wf(),
        ensures
            final(self)@ == old(self)@.emit(Instr::Phi { ty, first, second }),
            value == (BasicValue { kind: ty, operand: Operand::Result(old(self)@.next_id()) }),
            final(self)@.wf(),
            old(self)@.grows_to(final(self)@),
            old(self)@.sound() && instr_ok(
                old(self)@.instrs,
                old(self)@.blocks.len() as int,
                Instr::Phi { ty, first, second },
                old(self)@.instrs.len() as int,
            ) ==> final(self)@.sound() && value_ok(
                final(self)@.instrs,
                value,
                final(self)@.instrs.len() as int,
            ),
    {
        let id = self.emit(Instr::Phi { ty, first, second });
        BasicValue { kind: ty, operand: Operand::Result(id) }
    }

    /// Reserves a stack slot for `symbol` at the front of the entry block,
    /// where every slot of the function lives, and yields its address.
    pub fn build_entry_alloca(&mut self, ty: BasicType, symbol: Symbol) -> (pointer: SlotPointer)
        requires
            old(self)@.wf(),
        ensures
            final(self)@ == old(self)@.alloca_in_entry(ty, symbol),
            pointer == (SlotPointer { slot: old(self)@.next_id(), pointee: ty }),
            final(self)@.wf(),
            old(self)@.grows_to(final(self)@),
            old(self)@.sound() ==> final(self)@.sound() && pointer_ok(
                final(self)@.instrs,
                pointer,
                final(self)@.instrs.len() as int,
            ),
    {
        let id = self.function.instrs.len();
        let placed = Placed { block: 0, instr: Instr::Alloca { ty, symbol } };
        self.function.instrs.push(placed);
        proof {
            if old(self)@.sound() {
                old(self)@.lemma_sound_push(placed);
            }
        }
        SlotPointer { slot: id, pointee: ty }
    }

    /// Whether the function is well formed and sound.
    pub fn check(&self) -> (fine: bool)
        ensures
            fine == (self@.wf() && self@.sound()),
    {
        let blocks = self.function.blocks.len();
        if blocks < 1 || self.position >= blocks {
            return false;
        }
        let n = self.function.instrs.len();
        let mut i: usize = 0;
        proof {
            reveal(IrBuilderView::sound);
        }
        while i < n
            invariant
                i <= n,
                n == self@.instrs.len(),
                blocks == self@.blocks.len(),
                forall|j: int| 0 <= j < i ==> (#[trigger] self@.instrs[j]).block < blocks,
                forall|j: int|
                    0 <= j < i && (#[trigger] self@.instrs[j]).instr is Alloca ==> self@.instrs[j].block
                        == 0,
                forall|j: int|
                    0 <= j < i ==> instr_ok(
                        self@.instrs,
                        blocks as int,
                        (#[trigger] self@.instrs[j]).instr,
                        j,
                    ),
            decreases n - i,
        {
            let placed = self.function.instrs[i];
            proof {
                reveal(IrBuilderView::sound);
                assert(self@.instrs[i as int] == placed);
            }
            let is_slot = match placed.instr {
                Instr::Alloca { .. } => true,
                _ => false,
            };
            if placed.block >= blocks || (is_slot && placed.block != 0) {
                return false;
            }
            if !check_instr(&self.function.instrs, blocks, placed.instr, i) {
                return false;
            }
            i += 1;
        }
        proof {
            reveal(IrBuilderView::sound);
        }
        true
    }

    /// The numbers of the instructions of `block`, in the order in which
    /// they run.
    pub fn block_body(&self, block: usize) -> (body: Vec<usize>)
        ensures
            body@ == self@.body(block as int),
    {
        let mut body: Vec<usize> = Vec::new();
        let n = self.function.instrs.len();
        if block == 0 {
            let mut i: usize = n;
            while i > 0
                invariant
                    i <= n,
                    n == self@.instrs.len(),
                    body@ + slots(self@.instrs, i as int) == slots(self@.instrs, n as int),
                decreases i,
            {
                i = i - 1;
                match self.function.instrs[i].instr {
                    Instr::Alloca { .. } => {
                        let ghost before = body@;
                        body.push(i);
                        proof {
                            assert(body@ + slots(self@.instrs, i as int) =~= before + slots(
                                self@.instrs,
                                i + 1,
                            ));
                        }
                    },
                    _ => {},
                }
            }
            proof {
                assert(body@ =~= slots(self@.instrs, n as int));
            }
        }
        let ghost front = body@;
        let mut k: usize = 0;
        proof {
            assert(body@ =~= front + code(self@.instrs, block as int, 0));
        }
        while k < n
            invariant
                k <= n,
                n == self@.instrs.len(),
                body@ == front + code(self@.instrs, block as int, k as int),
            decreases n - k,
        {
            let placed = self.function.instrs[k];
            let is_slot = match placed.instr {
                Instr::Alloca { .. } => true,
                _ => false,
            };
            if placed.block == block && !is_slot {
                body.push(k);
                proof {
                    assert(body@ =~= front + code(self@.instrs, block as int, k + 1));
                }
            }
            k += 1;
        }
        body
    }
}

} // verus!
