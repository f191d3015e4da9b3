//! What a parser is, and the combinators that transform one parser's output.

use vstd::prelude::*;
use bumpalo::Bump;
use core::marker::PhantomData;
use crate::parse::ast::Attempting;
use crate::parse::state::{Fail, FailReason, ParseResult, State};
use crate::region::{Located, Region};

verus! {

/// The arena that parsed fragments may be allocated in. It is handed
/// through to the transformations that ask for it; nothing is known of it.
#[verifier::external_type_specification]
#[verifier::external_body]
pub struct ExBump<const MIN_ALIGN: usize>(Bump<MIN_ALIGN>);

/// One of two values.
#[derive(Debug, PartialEq, Eq)]
pub enum Either<First, Second> {
    First(First),
    Second(Second),
}

/// The state that a result carries, whether it is a success or a failure.
pub open spec fn state_of<'a, Output>(result: ParseResult<'a, Output>) -> State<'a> {
    match result {
        Ok((_, state)) => state,
        Err((_, state)) => state,
    }
}

/// The failure `inner` as a combinator reports it: the reason kept, the tag
/// replaced by the one that was current when the combinator was entered.
pub open spec fn blamed(inner: Fail, attempting: Attempting) -> Fail {
    Fail { attempting, reason: inner.reason }
}

/// A parser: something that takes a state and either yields a value and the
/// state after it, or fails.
pub trait Parser<'a, Output> {
    /// Whether the parser can be run: its parts are well formed and the
    /// functions it holds accept what it will hand them.
    spec fn wf(&self) -> bool;

    /// Whether `result` is what the parser may return on `state`.
    spec fn parses(&self, state: State<'a>, result: ParseResult<'a, Output>) -> bool;

    /// Runs the parser.
    fn parse(&self, arena: &'a Bump, state: State<'a>) -> (result: ParseResult<'a, Output>)
        requires
            self.wf(),
            state@.wf(),
        ensures
            self.parses(state, result),
            state_of(result)@.wf(),
    ;
}

/// Every function from an arena and a state to a parse result is a parser.
impl<'a, F, Output> Parser<'a, Output> for F where
    F: Fn(&'a Bump, State<'a>) -> ParseResult<'a, Output>,
 {
    open spec fn wf(&self) -> bool {
        &&& forall|arena: &'a Bump, state: State<'a>|
            state@.wf() ==> #[trigger] call_requires(*self, (arena, state))
        &&& forall|arena: &'a Bump, state: State<'a>, result: ParseResult<'a, Output>|
            state@.wf() && #[trigger] call_ensures(*self, (arena, state), result) ==> state_of(
                result,
            )@.wf()
    }

    open spec fn parses(&self, state: State<'a>, result: ParseResult<'a, Output>) -> bool {
        exists|arena: &'a Bump| call_ensures(*self, (arena, state), result)
    }

    fn parse(&self, arena: &'a Bump, state: State<'a>) -> (result: ParseResult<'a, Output>) {
        self(arena, state)
    }
}

/// The parser made by [`val`].
pub struct Val<V> {
    pub value: V,
}

impl<'a, V: Clone> Parser<'a, V> for Val<V> {
    open spec fn wf(&self) -> bool {
        true
    }

    open spec fn parses(&self, state: State<'a>, result: ParseResult<'a, V>) -> bool {
        match result {
            Ok((value, next)) => cloned(self.value, value) && next == state,
            Err(_) => false,
        }
    }

    fn parse(&self, arena: &'a Bump, state: State<'a>) -> (result: ParseResult<'a, V>) {
        Ok((self.value.clone(), state))
    }
}

/// A parser that consumes nothing and always succeeds with a clone of `value`.
pub fn val<V: Clone>(value: V) -> (parser: Val<V>)
    ensures
        parser.value == value,
{
    Val { value }
}

/// The parser made by [`map`].
pub struct Mapped<P, F, Before> {
    pub parser: P,
    pub transform: F,
    pub before: PhantomData<Before>,
}

impl<'a, P, F, Before, After> Parser<'a, After> for Mapped<P, F, Before> where
    P: Parser<'a, Before>,
    F: Fn(Before) -> After,
 {
    open spec fn wf(&self) -> bool {
        &&& self.parser.wf()
        &&& forall|state: State<'a>, output: Before, next: State<'a>| #[trigger]
            self.parser.parses(state, Ok((output, next))) ==> call_requires(
                self.transform,
                (output,),
            )
    }

    open spec fn parses(&self, state: State<'a>, result: ParseResult<'a, After>) -> bool {
        match result {
            Ok((value, next)) => exists|output: Before| #[trigger]
                self.parser.parses(state, Ok((output, next))) && call_ensures(
                    self.transform,
                    (output,),
                    value,
                ),
            Err(failure) => self.parser.parses(state, Err(failure)),
        }
    }

    fn parse(&self, arena: &'a Bump, state: State<'a>) -> (result: ParseResult<'a, After>) {
        match self.parser.parse(arena, state) {
            Ok((output, next)) => Ok(((self.transform)(output), next)),
            Err(failure) => Err(failure),
        }
    }
}

/// A parser that runs `parser` and hands its output to `transform`.
pub fn map<'a, P, F, Before, After>(parser: P, transform: F) -> (mapped: Mapped<P, F, Before>) where
    P: Parser<'a, Before>,
    F: Fn(Before) -> After,

    ensures
        mapped.parser == parser,
        mapped.transform == transform,
{
    Mapped { parser, transform, before: PhantomData }
}

/// Whether `transform` may turn `output` into `value`, in some arena.
pub open spec fn maps_in_some_arena<'a, F, Before, After>(
    transform: F,
    output: Before,
    value: After,
) -> bool where F: Fn(&'a Bump, Before) -> After {
    exists|arena: &'a Bump| call_ensures(transform, (arena, output), value)
}

/// The parser made by [`map_with_arena`].
pub struct MappedWithArena<P, F, Before> {
    pub parser: P,
    pub transform: F,
    pub before: PhantomData<Before>,
}

impl<'a, P, F, Before, After> Parser<'a, After> for MappedWithArena<P, F, Before> where
    P: Parser<'a, Before>,
    F: Fn(&'a Bump, Before) -> After,
 {
    open spec fn wf(&self) -> bool {
        &&& self.parser.wf()
        &&& forall|arena: &'a Bump, state: State<'a>, output: Before, next: State<'a>|
            #![trigger self.parser.parses(state, Ok((output, next))), call_requires(self.transform, (arena, output))]
            self.parser.parses(state, Ok((output, next))) ==> call_requires(
                self.transform,
                (arena, output),
            )
    }

    open spec fn parses(&self, state: State<'a>, result: ParseResult<'a, After>) -> bool {
        match result {
            Ok((value, next)) => exists|output: Before| #[trigger]
                self.parser.parses(state, Ok((output, next))) && maps_in_some_arena(
                    self.transform,
                    output,
                    value,
                ),
            Err(failure) => self.parser.parses(state, Err(failure)),
        }
    }

    fn parse(&self, arena: &'a Bump, state: State<'a>) -> (result: ParseResult<'a, After>) {
        match self.parser.parse(arena, state) {
            Ok((output, next)) => {
                let ghost seen = output;
                let value = (self.transform)(arena, output);
                assert(call_ensures(self.transform, (arena, seen), value));
                assert(self.parser.parses(state, Ok((seen, next))) && maps_in_some_arena(
                    self.transform,
                    seen,
                    value,
                ));
                Ok((value, next))
            },
            Err(failure) => Err(failure),
        }
    }
}

/// A parser that runs `parser` and hands the arena and its output to
/// `transform`.
pub fn map_with_arena<'a, P, F, Before, After>(parser: P, transform: F) -> (mapped:
    MappedWithArena<P, F, Before>) where P: Parser<'a, Before>, F: Fn(&'a Bump, Before) -> After
    ensures
        mapped.parser == parser,
        mapped.transform == transform,
{
    MappedWithArena { parser, transform, before: PhantomData }
}

/// The parser made by [`and_then`].
pub struct AndThen<P1, F, Before, P2> {
    pub parser: P1,
    pub transform: F,
    pub before: PhantomData<Before>,
    pub produced: PhantomData<P2>,
}

impl<'a, P1, P2, F, Before, After> Parser<'a, After> for AndThen<P1, F, Before, P2> where
    P1: Parser<'a, Before>,
    P2: Parser<'a, After>,
    F: Fn(Before) -> P2,
 {
    open spec fn wf(&self) -> bool {
        &&& self.parser.wf()
        &&& forall|state: State<'a>, output: Before, next: State<'a>| #[trigger]
            self.parser.parses(state, Ok((output, next))) ==> call_requires(
                self.transform,
                (output,),
            )
        &&& forall|output: Before, second: P2| #[trigger]
            call_ensures(self.transform, (output,), second) ==> second.wf()
    }

    open spec fn parses(&self, state: State<'a>, result: ParseResult<'a, After>) -> bool {
        ||| result matches Err(failure) && self.parser.parses(state, Err(failure))
        ||| exists|output: Before, middle: State<'a>, second: P2|
            #![trigger self.parser.parses(state, Ok((output, middle))), second.parses(middle, result)]
            {
                &&& self.parser.parses(state, Ok((output, middle)))
                &&& call_ensures(self.transform, (output,), second)
                &&& second.parses(middle, result)
            }
    }

    fn parse(&self, arena: &'a Bump, state: State<'a>) -> (result: ParseResult<'a, After>) {
        match self.parser.parse(arena, state) {
            Ok((output, middle)) => {
                let ghost first = output;
                let second = (self.transform)(output);
                let result = second.parse(arena, middle);
                assert(self.parser.parses(state, Ok((first, middle))) && second.parses(
                    middle,
                    result,
                ));
                result
            },
            Err(failure) => Err(failure),
        }
    }
}

/// A parser that runs `parser`, makes a second parser from its output with
/// `transform`, and runs that on what is left.
pub fn and_then<'a, P1, P2, F, Before, After>(parser: P1, transform: F) -> (chained: AndThen<
    P1,
    F,
    Before,
    P2,
>) where P1: Parser<'a, Before>, P2: Parser<'a, After>, F: Fn(Before) -> P2
    ensures
        chained.parser == parser,
        chained.transform == transform,
{
    AndThen { parser, transform, before: PhantomData, produced: PhantomData }
}

/// The parser made by [`attempt`].
pub struct Attempt<P> {
    pub attempting: Attempting,
    pub parser: P,
}

/// The state `state` under the tag `attempting`.
pub open spec fn retagged<'a>(state: State<'a>, attempting: Attempting) -> State<'a> {
    State { attempting, ..state }
}

impl<'a, P, Val> Parser<'a, Val> for Attempt<P> where P: Parser<'a, Val> {
    open spec fn wf(&self) -> bool {
        self.parser.wf()
    }

    open spec fn parses(&self, state: State<'a>, result: ParseResult<'a, Val>) -> bool {
        self.parser.parses(retagged(state, self.attempting), result)
    }

    fn parse(&self, arena: &'a Bump, state: State<'a>) -> (result: ParseResult<'a, Val>) {
        let tagged = State {
            input: state.input,
            line: state.line,
            column: state.column,
            indent_col: state.indent_col,
            is_indenting: state.is_indenting,
            attempting: self.attempting,
        };
        self.parser.parse(arena, tagged)
    }
}

/// A parser that runs `parser` on the state with its tag set to `attempting`.
pub fn attempt<'a, P, Val>(attempting: Attempting, parser: P) -> (tagged: Attempt<P>) where
    P: Parser<'a, Val>,

    ensures
        tagged.attempting == attempting,
        tagged.parser == parser,
{
    Attempt { attempting, parser }
}

/// The parser made by [`loc`].
pub struct Loc<P> {
    pub parser: P,
}

/// The region from the position of `start` to the position of `end`.
pub open spec fn region_between<'a>(start: State<'a>, end: State<'a>) -> Region {
    Region {
        start_line: start.line,
        start_col: start.column,
        end_line: end.line,
        end_col: end.column,
    }
}

impl<'a, P, Val> Parser<'a, Located<Val>> for Loc<P> where P: Parser<'a, Val> {
    open spec fn wf(&self) -> bool {
        self.parser.wf()
    }

    open spec fn parses(&self, state: State<'a>, result: ParseResult<'a, Located<Val>>) -> bool {
        match result {
            Ok((located, next)) => {
                &&& self.parser.parses(state, Ok((located.value, next)))
                &&& located.region == region_between(state, next)
            },
            Err(failure) => self.parser.parses(state, Err(failure)),
        }
    }

    fn parse(&self, arena: &'a Bump, state: State<'a>) -> (result: ParseResult<'a, Located<Val>>)
        ensures
            result matches Ok((located, next)) ==> {
                &&& located.region.start_line == state.line
                &&& located.region.start_col == state.column
                &&& located.region.end_line == next.line
                &&& located.region.end_col == next.column
            },
    {
        let start_col = state.column;
        let start_line = state.line;
        match self.parser.parse(arena, state) {
            Ok((value, next)) => {
                let region = Region {
                    start_line,
                    start_col,
                    end_line: next.line,
                    end_col: next.column,
                };
                Ok((Located { region, value }, next))
            },
            Err(failure) => Err(failure),
        }
    }
}

/// A parser that runs `parser` and yields its output together with the
/// region from where it started to where it stopped.
pub fn loc<'a, P, Val>(parser: P) -> (located: Loc<P>) where P: Parser<'a, Val>
    ensures
        located.parser == parser,
{
    Loc { parser }
}

/// The parser made by [`satisfies`].
pub struct Satisfies<P, F> {
    pub parser: P,
    pub predicate: F,
}

/// The failure of a parser whose condition did not hold.
pub open spec fn condition_failed(attempting: Attempting) -> Fail {
    Fail { attempting, reason: FailReason::ConditionFailed }
}

impl<'a, P, A, F> Parser<'a, A> for Satisfies<P, F> where P: Parser<'a, A>, F: Fn(&A) -> bool {
    open spec fn wf(&self) -> bool {
        &&& self.parser.wf()
        &&& forall|state: State<'a>, output: A, next: State<'a>| #[trigger]
            self.parser.parses(state, Ok((output, next))) ==> call_requires(
                self.predicate,
                (&output,),
            )
    }

    open spec fn parses(&self, state: State<'a>, result: ParseResult<'a, A>) -> bool {
        match result {
            Ok((output, next)) => {
                &&& self.parser.parses(state, Ok((output, next)))
                &&& call_ensures(self.predicate, (&output,), true)
            },
            Err((fail, back)) => {
                &&& fail == condition_failed(state.attempting)
                &&& back == state
                &&& exists|inner: ParseResult<'a, A>| #[trigger]
                    self.parser.parses(state, inner) && match inner {
                        Ok((output, _)) => call_ensures(self.predicate, (&output,), false),
                        Err(_) => true,
                    }
            },
        }
    }

    fn parse(&self, arena: &'a Bump, state: State<'a>) -> (result: ParseResult<'a, A>) {
        let inner = self.parser.parse(arena, state);
        let ghost seen = inner;
        match inner {
            Ok((output, next)) => {
                if (self.predicate)(&output) {
                    return Ok((output, next));
                }
                assert(self.parser.parses(state, seen));
            },
            Err(_) => {
                assert(self.parser.parses(state, seen));
            },
        }
        Err((Fail { attempting: state.attempting, reason: FailReason::ConditionFailed }, state))
    }
}

/// A parser that runs `parser` and keeps its result only if `predicate`
/// accepts the output. If `parser` fails or the output is rejected, it fails
/// with `ConditionFailed` on the state it was given.
pub fn satisfies<'a, P, A, F>(parser: P, predicate: F) -> (checked: Satisfies<P, F>) where
    P: Parser<'a, A>,
    F: Fn(&A) -> bool,

    ensures
        checked.parser == parser,
        checked.predicate == predicate,
{
    Satisfies { parser, predicate }
}

/// The parser made by [`optional`].
pub struct Optional<P> {
    pub parser: P,
}

impl<'a, P, T> Parser<'a, Option<T>> for Optional<P> where P: Parser<'a, T> {
    open spec fn wf(&self) -> bool {
        self.parser.wf()
    }

    open spec fn parses(&self, state: State<'a>, result: ParseResult<'a, Option<T>>) -> bool {
        match result {
            Ok((Some(output), next)) => self.parser.parses(state, Ok((output, next))),
            Ok((None, next)) => exists|fail: Fail| #[trigger]
                self.parser.parses(state, Err((fail, next))),
            Err(_) => false,
        }
    }

    fn parse(&self, arena: &'a Bump, state: State<'a>) -> (result: ParseResult<'a, Option<T>>)
        ensures
            result is Ok,
    {
        match self.parser.parse(arena, state) {
            Ok((output, next)) => Ok((Some(output), next)),
            Err((fail, next)) => {
                assert(self.parser.parses(state, Err((fail, next))));
                Ok((None, next))
            },
        }
    }
}

/// A parser that always succeeds: with `Some` of what `parser` yields, or
/// with `None` and the state that the failure of `parser` left behind.
pub fn optional<'a, P, T>(parser: P) -> (maybe: Optional<P>) where P: Parser<'a, T>
    ensures
        maybe.parser == parser,
{
    Optional { parser }
}

} // verus!
