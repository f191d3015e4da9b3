//! The combinators that run one parser again and again.
//!
//! Repetition is greedy: the parser is run until it fails, and the result
//! ends in the state that the last success reached, whatever the failing
//! run left behind. A parser that is repeated must consume input whenever
//! it succeeds; otherwise the repetition would never end.

use vstd::prelude::*;
use bumpalo::Bump;
use crate::parse::parser::Parser;
use crate::parse::sequence::{skip_first, SkipFirst};
use crate::parse::state::{unexpected_eof, unexpected_outcome, Fail, ParseResult, State};

verus! {

/// Whether every success of `parser` leaves less input than it was given.
pub open spec fn consumes_on_success<'a, P, A>(parser: P) -> bool where P: Parser<'a, A> {
    forall|state: State<'a>, output: A, next: State<'a>|
        state@.wf() && #[trigger] parser.parses(state, Ok((output, next)))
            ==> next@.input.len() < state@.input.len()
}

/// Whether `parser` may fail on `state` and leave the state `left`.
pub open spec fn stops_at<'a, P, A>(parser: P, state: State<'a>, left: State<'a>) -> bool where
    P: Parser<'a, A>,
 {
    exists|fail: Fail| #[trigger] parser.parses(state, Err((fail, left)))
}

/// Whether `states` is a run of successes of `parser` that yields
/// `outputs`: each state but the last gives the output at its place and the
/// state after it.
pub open spec fn run_of<'a, P, A>(parser: P, states: Seq<State<'a>>, outputs: Seq<A>) -> bool where
    P: Parser<'a, A>,
 {
    &&& states.len() == outputs.len() + 1
    &&& forall|i: int|
        #![trigger outputs[i]]
        0 <= i < outputs.len() ==> parser.parses(states[i], Ok((outputs[i], states[i + 1])))
}

/// Whether repeating `parser` from `start` may yield `outputs`, ending in
/// the state `end`, on which `parser` fails and leaves `left`.
pub open spec fn repeats<'a, P, A>(
    parser: P,
    start: State<'a>,
    outputs: Seq<A>,
    end: State<'a>,
    left: State<'a>,
) -> bool where P: Parser<'a, A> {
    &&& stops_at::<P, A>(parser, end, left)
    &&& exists|states: Seq<State<'a>>|
        {
            &&& #[trigger] run_of::<P, A>(parser, states, outputs)
            &&& states[0] == start
            &&& states.last() == end
        }
}

/// Runs `parser` from `state` until it fails. Yields the outputs, the state
/// that the last success reached, and the state that the failure left.
fn repeat<'a, P, A>(parser: &P, arena: &'a Bump, state: State<'a>) -> (result: (
    Vec<A>,
    State<'a>,
    State<'a>,
)) where P: Parser<'a, A>
    requires
        parser.wf(),
        consumes_on_success::<P, A>(*parser),
        state@.wf(),
    ensures
        repeats::<P, A>(*parser, state, result.0@, result.1, result.2),
        result.1@.wf(),
        result.2@.wf(),
{
    let mut outputs: Vec<A> = Vec::new();
    let mut current = state;
    let ghost mut states: Seq<State<'a>> = seq![state];
    loop
        invariant
            parser.wf(),
            consumes_on_success::<P, A>(*parser),
            current@.wf(),
            run_of::<P, A>(*parser, states, outputs@),
            states[0] == state,
            states.last() == current,
        decreases current@.input.len(),
    {
        match parser.parse(arena, current) {
            Ok((output, next)) => {
                proof {
                    let before = states;
                    let seen = outputs@;
                    states = states.push(next);
                    assert forall|i: int| 0 <= i < seen.push(output).len() implies parser.parses(
                        states[i],
                        Ok((#[trigger] seen.push(output)[i], states[i + 1])),
                    ) by {
                        if i < seen.len() {
                            assert(parser.parses(before[i], Ok((seen[i], before[i + 1]))));
                        }
                    }
                }
                outputs.push(output);
                current = next;
            },
            Err((fail, left)) => {
                assert(parser.parses(current, Err((fail, left))));
                return (outputs, current, left);
            },
        }
    }
}

/// The parser made by [`zero_or_more`].
pub struct ZeroOrMore<P> {
    pub parser: P,
}

impl<'a, P, A> Parser<'a, Vec<A>> for ZeroOrMore<P> where P: Parser<'a, A> {
    open spec fn wf(&self) -> bool {
        self.parser.wf() && consumes_on_success::<P, A>(self.parser)
    }

    open spec fn parses(&self, state: State<'a>, result: ParseResult<'a, Vec<A>>) -> bool {
        match result {
            Ok((outputs, end)) => exists|left: State<'a>| #[trigger]
                repeats::<P, A>(self.parser, state, outputs@, end, left),
            Err(_) => false,
        }
    }

    fn parse(&self, arena: &'a Bump, state: State<'a>) -> (result: ParseResult<'a, Vec<A>>)
        ensures
            result is Ok,
    {
        let (outputs, end, left) = repeat(&self.parser, arena, state);
        let result: ParseResult<'a, Vec<A>> = Ok((outputs, end));
        assert(result matches Ok((found, last)) && repeats::<P, A>(
            self.parser,
            state,
            found@,
            last,
            left,
        ));
        result
    }
}

/// A parser that runs `parser` as often as it succeeds and yields the
/// outputs in order. It never fails: where `parser` fails at once, it
/// yields no outputs and the state it was given.
pub fn zero_or_more<'a, P, A>(parser: P) -> (many: ZeroOrMore<P>) where P: Parser<'a, A>
    ensures
        many.parser == parser,
{
    ZeroOrMore { parser }
}

/// The parser made by [`one_or_more`].
pub struct OneOrMore<P> {
    pub parser: P,
}

impl<'a, P, A> Parser<'a, Vec<A>> for OneOrMore<P> where P: Parser<'a, A> {
    open spec fn wf(&self) -> bool {
        self.parser.wf() && consumes_on_success::<P, A>(self.parser)
    }

    open spec fn parses(&self, state: State<'a>, result: ParseResult<'a, Vec<A>>) -> bool {
        match result {
            Ok((outputs, end)) => outputs@.len() >= 1 && exists|left: State<'a>| #[trigger]
                repeats::<P, A>(self.parser, state, outputs@, end, left),
            Err((fail, after)) => exists|left: State<'a>|
                {
                    &&& #[trigger] stops_at::<P, A>(self.parser, state, left)
                    &&& (fail, after@) == unexpected_outcome(left@, 0, None, left.attempting)
                },
        }
    }

    fn parse(&self, arena: &'a Bump, state: State<'a>) -> (result: ParseResult<'a, Vec<A>>) {
        let (outputs, end, left) = repeat(&self.parser, arena, state);
        assert(repeats::<P, A>(self.parser, state, outputs@, end, left));
        if outputs.len() == 0 {
            proof {
                let states = choose|states: Seq<State<'a>>|
                    {
                        &&& #[trigger] run_of::<P, A>(self.parser, states, outputs@)
                        &&& states[0] == state
                        &&& states.last() == end
                    };
                assert(end == state);
                assert(stops_at::<P, A>(self.parser, state, left));
            }
            Err(unexpected_eof(0, left.attempting, left))
        } else {
            let result: ParseResult<'a, Vec<A>> = Ok((outputs, end));
            assert(result matches Ok((found, last)) && repeats::<P, A>(
                self.parser,
                state,
                found@,
                last,
                left,
            ));
            result
        }
    }
}

/// A parser that runs `parser` as often as it succeeds, at least once, and
/// yields the outputs in order. Where `parser` fails at once, it fails with
/// `Eof` on the state that the failure left behind.
pub fn one_or_more<'a, P, A>(parser: P) -> (many: OneOrMore<P>) where P: Parser<'a, A>
    ensures
        many.parser == parser,
{
    OneOrMore { parser }
}

/// A parser for zero or more values, each behind a delimiter whose output is
/// dropped.
pub fn sep_by0<'a, P, D, Val>(delimiter: D, parser: P) -> (many: ZeroOrMore<SkipFirst<D, P, ()>>) where
    D: Parser<'a, ()>,
    P: Parser<'a, Val>,

    ensures
        many.parser.first == delimiter,
        many.parser.second == parser,
{
    zero_or_more(skip_first(delimiter, parser))
}

/// A parser for one or more values, each behind a delimiter whose output is
/// dropped.
pub fn sep_by1<'a, P, D, Val>(delimiter: D, parser: P) -> (many: OneOrMore<SkipFirst<D, P, ()>>) where
    D: Parser<'a, ()>,
    P: Parser<'a, Val>,

    ensures
        many.parser.first == delimiter,
        many.parser.second == parser,
{
    one_or_more(skip_first(delimiter, parser))
}

} // verus!
