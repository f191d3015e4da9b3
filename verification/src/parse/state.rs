//! The position a parser has reached, and the failures it can report.

use vstd::prelude::*;
use vstd::string::*;
use vstd::utf8::*;
use crate::parse::ast::Attempting;
use crate::region::Region;

verus! {

/// The largest column a state can hold. A state at this column is poisoned:
/// its line was too long, and the consuming parsers fail on it from then on.
pub const MAX_COLUMN: u16 = 65535;

/// A position in a source text, with the text that is still to be read.
#[derive(Debug, Clone, Copy, PartialEq)]
pub struct State<'a> {
    /// The text that has not been consumed yet.
    pub input: &'a str,
    /// Current line, counted from zero.
    pub line: u32,
    /// Current column, in bytes from the start of the line.
    pub column: u16,
    /// Column at which the current indented block starts; 1 means no indent.
    pub indent_col: u16,
    /// True from the start of a line until its first character that is no space.
    pub is_indenting: bool,
    /// What is being parsed, for error reports.
    pub attempting: Attempting,
}

/// Why a parser failed.
#[derive(Debug, Clone, Copy, PartialEq, Eq, Structural)]
pub enum FailReason {
    Unexpected(char, Region),
    ConditionFailed,
    /// The line with this number was too long.
    LineTooLong(u32),
    TooManyLines,
    Eof(Region),
}

/// A failure, with the production that was being attempted.
#[derive(Debug, Clone, Copy, PartialEq, Eq, Structural)]
pub struct Fail {
    pub attempting: Attempting,
    pub reason: FailReason,
}

/// What a parser returns: a value and the state after it, or a failure and
/// the state it left behind.
pub type ParseResult<'a, Output> = Result<(Output, State<'a>), (Fail, State<'a>)>;

/// The mathematical content of a [`State`]: the remaining input as bytes.
pub struct StateView {
    pub input: Seq<u8>,
    pub line: u32,
    pub column: u16,
    pub indent_col: u16,
    pub is_indenting: bool,
    pub attempting: Attempting,
}

impl StateView {
    /// The input is UTF-8 and the indent column is at most one past the column.
    pub open spec fn wf(self) -> bool {
        &&& valid_utf8(self.input)
        &&& self.indent_col <= self.column + 1
    }

    /// The column has reached its limit.
    pub open spec fn is_poisoned(self) -> bool {
        self.column == MAX_COLUMN
    }

    /// Whether `n` bytes can be cut off the front of the input.
    pub open spec fn can_skip(self, n: int) -> bool {
        0 <= n <= self.input.len() && is_char_boundary(self.input, n)
    }

    /// The input without its first `n` bytes.
    pub open spec fn rest(self, n: int) -> Seq<u8> {
        self.input.subrange(n, self.input.len() as int)
    }

    /// The start of the next line: one byte consumed, column and indent reset.
    pub open spec fn next_line(self) -> StateView {
        StateView {
            input: self.rest(1),
            line: (self.line + 1) as u32,
            column: 0,
            indent_col: 1,
            is_indenting: true,
            attempting: self.attempting,
        }
    }

    /// The state after `n` bytes that are not indentation.
    pub open spec fn after_text(self, n: int) -> StateView {
        StateView {
            input: self.rest(n),
            column: (self.column + n) as u16,
            is_indenting: false,
            ..self
        }
    }

    /// Whether `n` spaces fit on the line, in the column and, while
    /// indenting, in the indent column.
    pub open spec fn spaces_fit(self, n: int) -> bool {
        &&& self.column + n <= MAX_COLUMN
        &&& self.is_indenting ==> self.indent_col + n <= MAX_COLUMN
    }

    /// The state after `n` spaces: they indent while the line is indenting.
    pub open spec fn after_spaces(self, n: int) -> StateView {
        StateView {
            input: self.rest(n),
            column: (self.column + n) as u16,
            indent_col: if self.is_indenting {
                (self.indent_col + n) as u16
            } else {
                self.indent_col
            },
            ..self
        }
    }

    /// The poisoned state that a too long line leaves behind: the column at
    /// its limit, the input kept, the given tag.
    pub open spec fn too_long(self, attempting: Attempting) -> StateView {
        StateView { column: MAX_COLUMN, attempting, ..self }
    }
}

impl<'a> View for State<'a> {
    type V = StateView;

    open spec fn view(&self) -> StateView {
        StateView {
            input: self.input.spec_bytes(),
            line: self.line,
            column: self.column,
            indent_col: self.indent_col,
            is_indenting: self.is_indenting,
            attempting: self.attempting,
        }
    }
}

/// The failure for a line that grew too long.
pub open spec fn too_long_fail(line: u32, attempting: Attempting) -> Fail {
    Fail { attempting, reason: FailReason::LineTooLong(line) }
}

/// What reporting an unexpected character (`found` is `Some`) or an
/// unexpected end (`found` is `None`) yields, `consumed` bytes past the
/// state: the failure with its region and the state unchanged, unless the
/// region's end would reach the column limit; then the line is too long.
pub open spec fn unexpected_outcome(
    state: StateView,
    consumed: int,
    found: Option<char>,
    attempting: Attempting,
) -> (Fail, StateView) {
    if state.column + consumed < MAX_COLUMN {
        let region = Region::on_line(state.line, state.column, (state.column + consumed) as u16);
        let reason = match found {
            Some(ch) => FailReason::Unexpected(ch, region),
            None => FailReason::Eof(region),
        };
        (Fail { attempting, reason }, state)
    } else {
        (too_long_fail(state.line, state.attempting), state.too_long(state.attempting))
    }
}

impl<'a> State<'a> {
    /// The state at the start of `input`.
    pub fn new(input: &'a str, attempting: Attempting) -> (state: State<'a>)
        ensures
            state.input == input,
            state.line == 0,
            state.column == 0,
            state.indent_col == 1,
            state.is_indenting,
            state.attempting == attempting,
            state@.wf(),
    {
        broadcast use encode_utf8_valid_utf8;
        State { input, line: 0, column: 0, indent_col: 1, is_indenting: true, attempting }
    }

    /// Whether the state is well formed.
    pub fn check(&self) -> (fine: bool)
        ensures
            fine == self@.wf(),
    {
        broadcast use encode_utf8_valid_utf8;
        self.indent_col == 0 || self.indent_col - 1 <= self.column
    }

    /// Moves to the next line, consuming the one byte of the line break.
    /// Fails with `TooManyLines`, on the unchanged state, when the line
    /// counter is at its limit.
    pub fn newline(&self) -> (result: Result<State<'a>, (Fail, State<'a>)>)
        requires
            self.line < u32::MAX ==> self@.can_skip(1),
        ensures
            match result {
                Ok(next) => {
                    &&& self.line < u32::MAX
                    &&& next@ == self@.next_line()
                    &&& next.column == 0
                    &&& next.indent_col == 1
                    &&& next.is_indenting
                    &&& next@.wf()
                },
                Err((fail, state)) => {
                    &&& self.line == u32::MAX
                    &&& fail == (Fail {
                        attempting: self.attempting,
                        reason: FailReason::TooManyLines,
                    })
                    &&& state@ == self@
                },
            },
    {
        broadcast use encode_utf8_valid_utf8;
        if self.line < u32::MAX {
            let (_, rest) = self.input.split_at(1);
            Ok(
                State {
                    input: rest,
                    line: self.line + 1,
                    column: 0,
                    indent_col: 1,
                    is_indenting: true,
                    attempting: self.attempting,
                },
            )
        } else {
            Err((Fail { attempting: self.attempting, reason: FailReason::TooManyLines }, *self))
        }
    }

    /// Advances by `quantity` bytes that are no indentation. The column grows
    /// by `quantity` and the line stops indenting. Where the column would
    /// pass its limit, fails with `LineTooLong` and poisons the state.
    pub fn advance_without_indenting(&self, quantity: usize) -> (result: Result<
        State<'a>,
        (Fail, State<'a>),
    >)
        requires
            self.column + quantity <= MAX_COLUMN ==> self@.can_skip(quantity as int),
        ensures
            match result {
                Ok(next) => {
                    &&& self.column + quantity <= MAX_COLUMN
                    &&& next@ == self@.after_text(quantity as int)
                    &&& next.column == self.column + quantity
                    &&& !next.is_indenting
                    &&& self@.wf() ==> next@.wf()
                },
                Err((fail, state)) => {
                    &&& self.column + quantity > MAX_COLUMN
                    &&& fail == too_long_fail(self.line, self.attempting)
                    &&& state@ == self@.too_long(self.attempting)
                    &&& self@.wf() ==> state@.wf()
                },
            },
    {
        broadcast use encode_utf8_valid_utf8;
        let column: usize = self.column as usize;
        if quantity <= 65535usize - column {
            let (_, rest) = self.input.split_at(quantity);
            Ok(
                State {
                    input: rest,
                    line: self.line,
                    column: (column + quantity) as u16,
                    indent_col: self.indent_col,
                    is_indenting: false,
                    attempting: self.attempting,
                },
            )
        } else {
            Err(line_too_long(self.attempting, *self))
        }
    }

    /// Advances by `spaces` bytes of indentation. The column grows by
    /// `spaces`, and so does the indent column while the line is still
    /// indenting; whether it is indenting does not change. Where either
    /// would pass the column limit, fails with `LineTooLong` and poisons
    /// the state.
    pub fn advance_spaces(&self, spaces: usize) -> (result: Result<State<'a>, (Fail, State<'a>)>)
        requires
            self@.spaces_fit(spaces as int) ==> self@.can_skip(spaces as int),
        ensures
            match result {
                Ok(next) => {
                    &&& self@.spaces_fit(spaces as int)
                    &&& next@ == self@.after_spaces(spaces as int)
                    &&& next.column == self.column + spaces
                    &&& next.is_indenting == self.is_indenting
                    &&& self@.wf() ==> next@.wf()
                },
                Err((fail, state)) => {
                    &&& !self@.spaces_fit(spaces as int)
                    &&& fail == too_long_fail(self.line, self.attempting)
                    &&& state@ == self@.too_long(self.attempting)
                    &&& state.is_indenting == self.is_indenting
                    &&& self@.wf() ==> state@.wf()
                },
            },
    {
        broadcast use encode_utf8_valid_utf8;
        let column: usize = self.column as usize;
        let indent: usize = self.indent_col as usize;
        if spaces <= 65535usize - column && (!self.is_indenting || spaces <= 65535usize - indent) {
            let indent_col: u16 = if self.is_indenting {
                (indent + spaces) as u16
            } else {
                self.indent_col
            };
            let (_, rest) = self.input.split_at(spaces);
            Ok(
                State {
                    input: rest,
                    line: self.line,
                    column: (column + spaces) as u16,
                    indent_col,
                    is_indenting: self.is_indenting,
                    attempting: self.attempting,
                },
            )
        } else {
            Err(line_too_long(self.attempting, *self))
        }
    }
}

/// The failure and the poisoned state for a line that grew too long: the
/// column is set to its limit, so that the consuming parsers fail on the
/// state from here on and the failure reaches the top.
pub fn line_too_long<'a>(attempting: Attempting, state: State<'a>) -> (result: (Fail, State<'a>))
    ensures
        result.0 == too_long_fail(state.line, attempting),
        result.1@ == state@.too_long(attempting),
        result.1@.is_poisoned(),
        state@.wf() ==> result.1@.wf(),
{
    let fail = Fail { attempting, reason: FailReason::LineTooLong(state.line) };
    let poisoned = State {
        input: state.input,
        line: state.line,
        column: MAX_COLUMN,
        indent_col: state.indent_col,
        is_indenting: state.is_indenting,
        attempting,
    };
    (fail, poisoned)
}

/// Builds the failure for something unexpected `chars_consumed` bytes past
/// the state, or the failure for a too long line where the region's end
/// would reach the column limit. A poisoned state therefore always yields
/// `LineTooLong` again.
fn checked_unexpected<'a>(
    chars_consumed: usize,
    state: State<'a>,
    found: Option<char>,
    attempting: Attempting,
) -> (result: (Fail, State<'a>))
    ensures
        (result.0, result.1@) == unexpected_outcome(
            state@,
            chars_consumed as int,
            found,
            attempting,
        ),
        state@.wf() ==> result.1@.wf(),
{
    let column: usize = state.column as usize;
    if chars_consumed < 65535usize - column {
        let region = Region {
            start_line: state.line,
            start_col: state.column,
            end_line: state.line,
            end_col: (column + chars_consumed) as u16,
        };
        let reason = match found {
            Some(ch) => FailReason::Unexpected(ch, region),
            None => FailReason::Eof(region),
        };
        (Fail { attempting, reason }, state)
    } else {
        line_too_long(state.attempting, state)
    }
}

/// The failure for an input that ended too early.
pub fn unexpected_eof<'a>(chars_consumed: usize, attempting: Attempting, state: State<'a>) -> (result:
    (Fail, State<'a>))
    ensures
        (result.0, result.1@) == unexpected_outcome(
            state@,
            chars_consumed as int,
            None,
            attempting,
        ),
        state@.wf() ==> result.1@.wf(),
{
    checked_unexpected(chars_consumed, state, None, attempting)
}

/// The failure for a character that should not stand where it does.
pub fn unexpected<'a>(ch: char, chars_consumed: usize, state: State<'a>, attempting: Attempting) -> (result:
    (Fail, State<'a>))
    ensures
        (result.0, result.1@) == unexpected_outcome(
            state@,
            chars_consumed as int,
            Some(ch),
            attempting,
        ),
        state@.wf() ==> result.1@.wf(),
{
    checked_unexpected(chars_consumed, state, Some(ch), attempting)
}

} // verus!
