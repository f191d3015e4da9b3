//! The combinators that run several parsers: in sequence, or as
//! alternatives.
//!
//! An alternative is entered with the state that the failure before it left
//! behind; nothing is rewound. A combinator that fails reports the reason of
//! the last failure under the tag that was current when it was entered.

use vstd::prelude::*;
use bumpalo::Bump;
use core::marker::PhantomData;
use crate::parse::ast::Attempting;
use crate::parse::parser::{blamed, state_of, Either, Parser};
use crate::parse::state::{Fail, ParseResult, State};

verus! {

/// Whether `parser` may fail on `state` and leave the state `left`.
pub open spec fn fails_leaving<'a, P, A>(parser: P, state: State<'a>, left: State<'a>) -> bool where
    P: Parser<'a, A>,
 {
    exists|fail: Fail| #[trigger] parser.parses(state, Err((fail, left)))
}

/// Whether `first` may succeed on `state` and `second` may then return
/// `result` on what is left.
pub open spec fn then_parses<'a, P1, P2, A, B>(
    first: P1,
    second: P2,
    state: State<'a>,
    result: ParseResult<'a, B>,
) -> bool where P1: Parser<'a, A>, P2: Parser<'a, B> {
    exists|output: A, middle: State<'a>|
        #![trigger first.parses(state, Ok((output, middle)))]
        first.parses(state, Ok((output, middle))) && second.parses(middle, result)
}

/// Whether running `first` and then `second` on `state` may fail with
/// `inner`, leaving `left`: either `first` fails so, or it succeeds and
/// `second` fails so.
pub open spec fn sequence_fails<'a, P1, P2, A, B>(
    first: P1,
    second: P2,
    state: State<'a>,
    inner: Fail,
    left: State<'a>,
) -> bool where P1: Parser<'a, A>, P2: Parser<'a, B> {
    ||| first.parses(state, Err((inner, left)))
    ||| then_parses::<P1, P2, A, B>(first, second, state, Err((inner, left)))
}

/// Whether `first` may yield `out1` on `state` and `second` may then yield
/// `out2` on what is left, ending in `next`.
pub open spec fn both_parse<'a, P1, P2, A, B>(
    first: P1,
    second: P2,
    state: State<'a>,
    out1: A,
    out2: B,
    next: State<'a>,
) -> bool where P1: Parser<'a, A>, P2: Parser<'a, B> {
    exists|middle: State<'a>|
        #![trigger first.parses(state, Ok((out1, middle)))]
        first.parses(state, Ok((out1, middle))) && second.parses(middle, Ok((out2, next)))
}

/// The parser made by [`and`].
pub struct And<P1, P2> {
    pub first: P1,
    pub second: P2,
}

impl<'a, P1, P2, A, B> Parser<'a, (A, B)> for And<P1, P2> where
    P1: Parser<'a, A>,
    P2: Parser<'a, B>,
 {
    open spec fn wf(&self) -> bool {
        self.first.wf() && self.second.wf()
    }

    open spec fn parses(&self, state: State<'a>, result: ParseResult<'a, (A, B)>) -> bool {
        match result {
            Ok((outputs, next)) => both_parse::<P1, P2, A, B>(
                self.first,
                self.second,
                state,
                outputs.0,
                outputs.1,
                next,
            ),
            Err((fail, left)) => exists|inner: Fail|
                #![trigger blamed(inner, state.attempting)]
                fail == blamed(inner, state.attempting) && sequence_fails::<P1, P2, A, B>(
                    self.first,
                    self.second,
                    state,
                    inner,
                    left,
                ),
        }
    }

    fn parse(&self, arena: &'a Bump, state: State<'a>) -> (result: ParseResult<'a, (A, B)>) {
        let original_attempting = state.attempting;
        match self.first.parse(arena, state) {
            Ok((out1, middle)) => {
                let ghost seen = out1;
                match self.second.parse(arena, middle) {
                    Ok((out2, next)) => {
                        assert(self.first.parses(state, Ok((seen, middle))) && self.second.parses(
                            middle,
                            Ok((out2, next)),
                        ));
                        assert(both_parse::<P1, P2, A, B>(
                            self.first,
                            self.second,
                            state,
                            seen,
                            out2,
                            next,
                        ));
                        Ok(((out1, out2), next))
                    },
                    Err((fail, left)) => {
                        assert(self.first.parses(state, Ok((seen, middle))));
                        assert(then_parses::<P1, P2, A, B>(
                            self.first,
                            self.second,
                            state,
                            Err((fail, left)),
                        ));
                        assert(blamed(fail, original_attempting).reason == fail.reason);
                        Err((Fail { attempting: original_attempting, reason: fail.reason }, left))
                    },
                }
            },
            Err((fail, left)) => {
                assert(blamed(fail, original_attempting).reason == fail.reason);
                Err((Fail { attempting: original_attempting, reason: fail.reason }, left))
            },
        }
    }
}

/// A parser that runs `p1` and then `p2` and yields both outputs. If either
/// fails, it fails with that reason, under the tag it was entered with, and
/// with the state that the failure left behind.
pub fn and<'a, P1, P2, A, B>(p1: P1, p2: P2) -> (both: And<P1, P2>) where
    P1: Parser<'a, A>,
    P2: Parser<'a, B>,

    ensures
        both.first == p1,
        both.second == p2,
{
    And { first: p1, second: p2 }
}

/// The parser made by [`skip_first`].
pub struct SkipFirst<P1, P2, A> {
    pub first: P1,
    pub second: P2,
    pub skipped: PhantomData<A>,
}

impl<'a, P1, P2, A, B> Parser<'a, B> for SkipFirst<P1, P2, A> where
    P1: Parser<'a, A>,
    P2: Parser<'a, B>,
 {
    open spec fn wf(&self) -> bool {
        self.first.wf() && self.second.wf()
    }

    open spec fn parses(&self, state: State<'a>, result: ParseResult<'a, B>) -> bool {
        match result {
            Ok(_) => then_parses::<P1, P2, A, B>(self.first, self.second, state, result),
            Err((fail, left)) => exists|inner: Fail|
                #![trigger blamed(inner, state.attempting)]
                fail == blamed(inner, state.attempting) && sequence_fails::<P1, P2, A, B>(
                    self.first,
                    self.second,
                    state,
                    inner,
                    left,
                ),
        }
    }

    fn parse(&self, arena: &'a Bump, state: State<'a>) -> (result: ParseResult<'a, B>) {
        let original_attempting = state.attempting;
        match self.first.parse(arena, state) {
            Ok((out1, middle)) => {
                assert(self.first.parses(state, Ok((out1, middle))));
                match self.second.parse(arena, middle) {
                    Ok((out2, next)) => Ok((out2, next)),
                    Err((fail, left)) => {
                        assert(then_parses::<P1, P2, A, B>(
                            self.first,
                            self.second,
                            state,
                            Err((fail, left)),
                        ));
                        assert(blamed(fail, original_attempting).reason == fail.reason);
                        Err((Fail { attempting: original_attempting, reason: fail.reason }, left))
                    },
                }
            },
            Err((fail, left)) => {
                assert(blamed(fail, original_attempting).reason == fail.reason);
                Err((Fail { attempting: original_attempting, reason: fail.reason }, left))
            },
        }
    }
}

/// A parser that runs `p1`, drops its output, and yields what `p2` yields on
/// what is left. It fails as [`and`] does.
pub fn skip_first<'a, P1, P2, A, B>(p1: P1, p2: P2) -> (second: SkipFirst<P1, P2, A>) where
    P1: Parser<'a, A>,
    P2: Parser<'a, B>,

    ensures
        second.first == p1,
        second.second == p2,
{
    SkipFirst { first: p1, second: p2, skipped: PhantomData }
}

/// Whether `result` is what the last alternative `parser` gives on `state`:
/// its success, or its failure under the tag `attempting`.
pub open spec fn last_alternative<'a, P, A>(
    parser: P,
    state: State<'a>,
    attempting: Attempting,
    result: ParseResult<'a, A>,
) -> bool where P: Parser<'a, A> {
    match result {
        Ok(_) => parser.parses(state, result),
        Err((fail, left)) => exists|inner: Fail|
            #![trigger parser.parses(state, Err((inner, left)))]
            parser.parses(state, Err((inner, left))) && fail == blamed(inner, attempting),
    }
}

/// Runs the last of a row of alternatives.
fn run_last<'a, P, A>(parser: &P, arena: &'a Bump, state: State<'a>, attempting: Attempting) -> (result:
    ParseResult<'a, A>) where P: Parser<'a, A>
    requires
        parser.wf(),
        state@.wf(),
    ensures
        last_alternative(*parser, state, attempting, result),
        state_of(result)@.wf(),
{
    match parser.parse(arena, state) {
        Ok(success) => Ok(success),
        Err((fail, left)) => {
            assert(parser.parses(state, Err((fail, left))));
            Err((Fail { attempting, reason: fail.reason }, left))
        },
    }
}

/// The parser made by [`either`].
pub struct EitherOf<P1, P2> {
    pub first: P1,
    pub second: P2,
}

impl<'a, P1, P2, A, B> Parser<'a, Either<A, B>> for EitherOf<P1, P2> where
    P1: Parser<'a, A>,
    P2: Parser<'a, B>,
 {
    open spec fn wf(&self) -> bool {
        self.first.wf() && self.second.wf()
    }

    open spec fn parses(&self, state: State<'a>, result: ParseResult<'a, Either<A, B>>) -> bool {
        match result {
            Ok((Either::First(output), next)) => self.first.parses(state, Ok((output, next))),
            Ok((Either::Second(output), next)) => exists|middle: State<'a>|
                #![trigger fails_leaving::<P1, A>(self.first, state, middle)]
                fails_leaving::<P1, A>(self.first, state, middle) && self.second.parses(
                    middle,
                    Ok((output, next)),
                ),
            Err((fail, left)) => exists|middle: State<'a>|
                #![trigger fails_leaving::<P1, A>(self.first, state, middle)]
                fails_leaving::<P1, A>(self.first, state, middle) && last_alternative::<P2, B>(
                    self.second,
                    middle,
                    state.attempting,
                    Err((fail, left)),
                ),
        }
    }

    fn parse(&self, arena: &'a Bump, state: State<'a>) -> (result: ParseResult<'a, Either<A, B>>) {
        let original_attempting = state.attempting;
        match self.first.parse(arena, state) {
            Ok((output, next)) => Ok((Either::First(output), next)),
            Err((fail, middle)) => {
                assert(self.first.parses(state, Err((fail, middle))));
                assert(fails_leaving::<P1, A>(self.first, state, middle));
                match run_last(&self.second, arena, middle, original_attempting) {
                    Ok((output, next)) => Ok((Either::Second(output), next)),
                    Err((fail, left)) => Err((fail, left)),
                }
            },
        }
    }
}

/// A parser that tries `p1` and, if it fails, tries `p2` on the state that
/// the failure left behind. If both fail, it fails with the reason of `p2`
/// under the tag it was entered with.
pub fn either<'a, P1, P2, A, B>(p1: P1, p2: P2) -> (choice: EitherOf<P1, P2>) where
    P1: Parser<'a, A>,
    P2: Parser<'a, B>,

    ensures
        choice.first == p1,
        choice.second == p2,
{
    EitherOf { first: p1, second: p2 }
}

/// Whether `result` is a success of `parser` on `state`.
pub open spec fn succeeds_with<'a, P, A>(parser: P, state: State<'a>, result: ParseResult<'a, A>) -> bool where
    P: Parser<'a, A>,
 {
    result is Ok && parser.parses(state, result)
}

/// Whether `result` is what 2 alternatives give on `state`: the success
/// of the first, or what the others give on the state that its failure
/// left behind. A failure of all carries the tag `attempting`.
pub open spec fn alternatives2<'a, P1, P2, A>(
    p1: P1,
    p2: P2,
    state: State<'a>,
    attempting: Attempting,
    result: ParseResult<'a, A>,
) -> bool where P1: Parser<'a, A>, P2: Parser<'a, A> {
    ||| succeeds_with::<P1, A>(p1, state, result)
    ||| exists|middle: State<'a>|
        #![trigger fails_leaving::<P1, A>(p1, state, middle)]
        fails_leaving::<P1, A>(p1, state, middle) && last_alternative::<P2, A>(p2, middle, attempting, result)
}

/// Runs 2 alternatives in turn.
fn run_alternatives2<'a, P1, P2, A>(
    p1: &P1,
    p2: &P2,
    arena: &'a Bump,
    state: State<'a>,
    attempting: Attempting,
) -> (result: ParseResult<'a, A>) where P1: Parser<'a, A>, P2: Parser<'a, A>
    requires
        p1.wf(),
        p2.wf(),
        state@.wf(),
    ensures
        alternatives2::<P1, P2, A>(*p1, *p2, state, attempting, result),
        state_of(result)@.wf(),
{
    match p1.parse(arena, state) {
        Ok(success) => Ok(success),
        Err((fail, middle)) => {
            assert(p1.parses(state, Err((fail, middle))));
            assert(fails_leaving::<P1, A>(*p1, state, middle));
            run_last(p2, arena, middle, attempting)
        },
    }
}

/// Whether `result` is what 3 alternatives give on `state`: the success
/// of the first, or what the others give on the state that its failure
/// left behind. A failure of all carries the tag `attempting`.
pub open spec fn alternatives3<'a, P1, P2, P3, A>(
    p1: P1,
    p2: P2,
    p3: P3,
    state: State<'a>,
    attempting: Attempting,
    result: ParseResult<'a, A>,
) -> bool where P1: Parser<'a, A>, P2: Parser<'a, A>, P3: Parser<'a, A> {
    ||| succeeds_with::<P1, A>(p1, state, result)
    ||| exists|middle: State<'a>|
        #![trigger fails_leaving::<P1, A>(p1, state, middle)]
        fails_leaving::<P1, A>(p1, state, middle) && alternatives2::<P2, P3, A>(p2, p3, middle, attempting, result)
}

/// Runs 3 alternatives in turn.
fn run_alternatives3<'a, P1, P2, P3, A>(
    p1: &P1,
    p2: &P2,
    p3: &P3,
    arena: &'a Bump,
    state: State<'a>,
    attempting: Attempting,
) -> (result: ParseResult<'a, A>) where P1: Parser<'a, A>, P2: Parser<'a, A>, P3: Parser<'a, A>
    requires
        p1.wf(),
        p2.wf(),
        p3.wf(),
        state@.wf(),
    ensures
        alternatives3::<P1, P2, P3, A>(*p1, *p2, *p3, state, attempting, result),
        state_of(result)@.wf(),
{
    match p1.parse(arena, state) {
        Ok(success) => Ok(success),
        Err((fail, middle)) => {
            assert(p1.parses(state, Err((fail, middle))));
            assert(fails_leaving::<P1, A>(*p1, state, middle));
            run_alternatives2(p2, p3, arena, middle, attempting)
        },
    }
}

/// Whether `result` is what 4 alternatives give on `state`: the success
/// of the first, or what the others give on the state that its failure
/// left behind. A failure of all carries the tag `attempting`.
pub open spec fn alternatives4<'a, P1, P2, P3, P4, A>(
    p1: P1,
    p2: P2,
    p3: P3,
    p4: P4,
    state: State<'a>,
    attempting: Attempting,
    result: ParseResult<'a, A>,
) -> bool where P1: Parser<'a, A>, P2: Parser<'a, A>, P3: Parser<'a, A>, P4: Parser<'a, A> {
    ||| succeeds_with::<P1, A>(p1, state, result)
    ||| exists|middle: State<'a>|
        #![trigger fails_leaving::<P1, A>(p1, state, middle)]
        fails_leaving::<P1, A>(p1, state, middle) && alternatives3::<P2, P3, P4, A>(p2, p3, p4, middle, attempting, result)
}

/// Runs 4 alternatives in turn.
fn run_alternatives4<'a, P1, P2, P3, P4, A>(
    p1: &P1,
    p2: &P2,
    p3: &P3,
    p4: &P4,
    arena: &'a Bump,
    state: State<'a>,
    attempting: Attempting,
) -> (result: ParseResult<'a, A>) where P1: Parser<'a, A>, P2: Parser<'a, A>, P3: Parser<'a, A>, P4: Parser<'a, A>
    requires
        p1.wf(),
        p2.wf(),
        p3.wf(),
        p4.wf(),
        state@.wf(),
    ensures
        alternatives4::<P1, P2, P3, P4, A>(*p1, *p2, *p3, *p4, state, attempting, result),
        state_of(result)@.wf(),
{
    match p1.parse(arena, state) {
        Ok(success) => Ok(success),
        Err((fail, middle)) => {
            assert(p1.parses(state, Err((fail, middle))));
            assert(fails_leaving::<P1, A>(*p1, state, middle));
            run_alternatives3(p2, p3, p4, arena, middle, attempting)
        },
    }
}

/// Whether `result` is what 5 alternatives give on `state`: the success
/// of the first, or what the others give on the state that its failure
/// left behind. A failure of all carries the tag `attempting`.
pub open spec fn alternatives5<'a, P1, P2, P3, P4, P5, A>(
    p1: P1,
    p2: P2,
    p3: P3,
    p4: P4,
    p5: P5,
    state: State<'a>,
    attempting: Attempting,
    result: ParseResult<'a, A>,
) -> bool where P1: Parser<'a, A>, P2: Parser<'a, A>, P3: Parser<'a, A>, P4: Parser<'a, A>, P5: Parser<'a, A> {
    ||| succeeds_with::<P1, A>(p1, state, result)
    ||| exists|middle: State<'a>|
        #![trigger fails_leaving::<P1, A>(p1, state, middle)]
        fails_leaving::<P1, A>(p1, state, middle) && alternatives4::<P2, P3, P4, P5, A>(p2, p3, p4, p5, middle, attempting, result)
}

/// Runs 5 alternatives in turn.
fn run_alternatives5<'a, P1, P2, P3, P4, P5, A>(
    p1: &P1,
    p2: &P2,
    p3: &P3,
    p4: &P4,
    p5: &P5,
    arena: &'a Bump,
    state: State<'a>,
    attempting: Attempting,
) -> (result: ParseResult<'a, A>) where P1: Parser<'a, A>, P2: Parser<'a, A>, P3: Parser<'a, A>, P4: Parser<'a, A>, P5: Parser<'a, A>
    requires
        p1.wf(),
        p2.wf(),
        p3.wf(),
        p4.wf(),
        p5.wf(),
        state@.wf(),
    ensures
        alternatives5::<P1, P2, P3, P4, P5, A>(*p1, *p2, *p3, *p4, *p5, state, attempting, result),
        state_of(result)@.wf(),
{
    match p1.parse(arena, state) {
        Ok(success) => Ok(success),
        Err((fail, middle)) => {
            assert(p1.parses(state, Err((fail, middle))));
            assert(fails_leaving::<P1, A>(*p1, state, middle));
            run_alternatives4(p2, p3, p4, p5, arena, middle, attempting)
        },
    }
}

/// Whether `result` is what 6 alternatives give on `state`: the success
/// of the first, or what the others give on the state that its failure
/// left behind. A failure of all carries the tag `attempting`.
pub open spec fn alternatives6<'a, P1, P2, P3, P4, P5, P6, A>(
    p1: P1,
    p2: P2,
    p3: P3,
    p4: P4,
    p5: P5,
    p6: P6,
    state: State<'a>,
    attempting: Attempting,
    result: ParseResult<'a, A>,
) -> bool where P1: Parser<'a, A>, P2: Parser<'a, A>, P3: Parser<'a, A>, P4: Parser<'a, A>, P5: Parser<'a, A>, P6: Parser<'a, A> {
    ||| succeeds_with::<P1, A>(p1, state, result)
    ||| exists|middle: State<'a>|
        #![trigger fails_leaving::<P1, A>(p1, state, middle)]
        fails_leaving::<P1, A>(p1, state, middle) && alternatives5::<P2, P3, P4, P5, P6, A>(p2, p3, p4, p5, p6, middle, attempting, result)
}

/// Runs 6 alternatives in turn.
fn run_alternatives6<'a, P1, P2, P3, P4, P5, P6, A>(
    p1: &P1,
    p2: &P2,
    p3: &P3,
    p4: &P4,
    p5: &P5,
    p6: &P6,
    arena: &'a Bump,
    state: State<'a>,
    attempting: Attempting,
) -> (result: ParseResult<'a, A>) where P1: Parser<'a, A>, P2: Parser<'a, A>, P3: Parser<'a, A>, P4: Parser<'a, A>, P5: Parser<'a, A>, P6: Parser<'a, A>
    requires
        p1.wf(),
        p2.wf(),
        p3.wf(),
        p4.wf(),
        p5.wf(),
        p6.wf(),
        state@.wf(),
    ensures
        alternatives6::<P1, P2, P3, P4, P5, P6, A>(*p1, *p2, *p3, *p4, *p5, *p6, state, attempting, result),
        state_of(result)@.wf(),
{
    match p1.parse(arena, state) {
        Ok(success) => Ok(success),
        Err((fail, middle)) => {
            assert(p1.parses(state, Err((fail, middle))));
            assert(fails_leaving::<P1, A>(*p1, state, middle));
            run_alternatives5(p2, p3, p4, p5, p6, arena, middle, attempting)
        },
    }
}

/// Whether `result` is what 7 alternatives give on `state`: the success
/// of the first, or what the others give on the state that its failure
/// left behind. A failure of all carries the tag `attempting`.
pub open spec fn alternatives7<'a, P1, P2, P3, P4, P5, P6, P7, A>(
    p1: P1,
    p2: P2,
    p3: P3,
    p4: P4,
    p5: P5,
    p6: P6,
    p7: P7,
    state: State<'a>,
    attempting: Attempting,
    result: ParseResult<'a, A>,
) -> bool where P1: Parser<'a, A>, P2: Parser<'a, A>, P3: Parser<'a, A>, P4: Parser<'a, A>, P5: Parser<'a, A>, P6: Parser<'a, A>, P7: Parser<'a, A> {
    ||| succeeds_with::<P1, A>(p1, state, result)
    ||| exists|middle: State<'a>|
        #![trigger fails_leaving::<P1, A>(p1, state, middle)]
        fails_leaving::<P1, A>(p1, state, middle) && alternatives6::<P2, P3, P4, P5, P6, P7, A>(p2, p3, p4, p5, p6, p7, middle, attempting, result)
}

/// Runs 7 alternatives in turn.
fn run_alternatives7<'a, P1, P2, P3, P4, P5, P6, P7, A>(
    p1: &P1,
    p2: &P2,
    p3: &P3,
    p4: &P4,
    p5: &P5,
    p6: &P6,
    p7: &P7,
    arena: &'a Bump,
    state: State<'a>,
    attempting: Attempting,
) -> (result: ParseResult<'a, A>) where P1: Parser<'a, A>, P2: Parser<'a, A>, P3: Parser<'a, A>, P4: Parser<'a, A>, P5: Parser<'a, A>, P6: Parser<'a, A>, P7: Parser<'a, A>
    requires
        p1.wf(),
        p2.wf(),
        p3.wf(),
        p4.wf(),
        p5.wf(),
        p6.wf(),
        p7.wf(),
        state@.wf(),
    ensures
        alternatives7::<P1, P2, P3, P4, P5, P6, P7, A>(*p1, *p2, *p3, *p4, *p5, *p6, *p7, state, attempting, result),
        state_of(result)@.wf(),
{
    match p1.parse(arena, state) {
        Ok(success) => Ok(success),
        Err((fail, middle)) => {
            assert(p1.parses(state, Err((fail, middle))));
            assert(fails_leaving::<P1, A>(*p1, state, middle));
            run_alternatives6(p2, p3, p4, p5, p6, p7, arena, middle, attempting)
        },
    }
}

/// Whether `result` is what 8 alternatives give on `state`: the success
/// of the first, or what the others give on the state that its failure
/// left behind. A failure of all carries the tag `attempting`.
pub open spec fn alternatives8<'a, P1, P2, P3, P4, P5, P6, P7, P8, A>(
    p1: P1,
    p2: P2,
    p3: P3,
    p4: P4,
    p5: P5,
    p6: P6,
    p7: P7,
    p8: P8,
    state: State<'a>,
    attempting: Attempting,
    result: ParseResult<'a, A>,
) -> bool where P1: Parser<'a, A>, P2: Parser<'a, A>, P3: Parser<'a, A>, P4: Parser<'a, A>, P5: Parser<'a, A>, P6: Parser<'a, A>, P7: Parser<'a, A>, P8: Parser<'a, A> {
    ||| succeeds_with::<P1, A>(p1, state, result)
    ||| exists|middle: State<'a>|
        #![trigger fails_leaving::<P1, A>(p1, state, middle)]
        fails_leaving::<P1, A>(p1, state, middle) && alternatives7::<P2, P3, P4, P5, P6, P7, P8, A>(p2, p3, p4, p5, p6, p7, p8, middle, attempting, result)
}

/// Runs 8 alternatives in turn.
fn run_alternatives8<'a, P1, P2, P3, P4, P5, P6, P7, P8, A>(
    p1: &P1,
    p2: &P2,
    p3: &P3,
    p4: &P4,
    p5: &P5,
    p6: &P6,
    p7: &P7,
    p8: &P8,
    arena: &'a Bump,
    state: State<'a>,
    attempting: Attempting,
) -> (result: ParseResult<'a, A>) where P1: Parser<'a, A>, P2: Parser<'a, A>, P3: Parser<'a, A>, P4: Parser<'a, A>, P5: Parser<'a, A>, P6: Parser<'a, A>, P7: Parser<'a, A>, P8: Parser<'a, A>
    requires
        p1.wf(),
        p2.wf(),
        p3.wf(),
        p4.wf(),
        p5.wf(),
        p6.wf(),
        p7.wf(),
        p8.wf(),
        state@.wf(),
    ensures
        alternatives8::<P1, P2, P3, P4, P5, P6, P7, P8, A>(*p1, *p2, *p3, *p4, *p5, *p6, *p7, *p8, state, attempting, result),
        state_of(result)@.wf(),
{
    match p1.parse(arena, state) {
        Ok(success) => Ok(success),
        Err((fail, middle)) => {
            assert(p1.parses(state, Err((fail, middle))));
            assert(fails_leaving::<P1, A>(*p1, state, middle));
            run_alternatives7(p2, p3, p4, p5, p6, p7, p8, arena, middle, attempting)
        },
    }
}

/// The parser made by [`one_of2`].
pub struct OneOf2<P1, P2> {
    pub p1: P1,
    pub p2: P2,
}

impl<'a, P1, P2, A> Parser<'a, A> for OneOf2<P1, P2> where P1: Parser<'a, A>, P2: Parser<'a, A> {
    open spec fn wf(&self) -> bool {
        self.p1.wf() && self.p2.wf()
    }

    open spec fn parses(&self, state: State<'a>, result: ParseResult<'a, A>) -> bool {
        alternatives2::<P1, P2, A>(self.p1, self.p2, state, state.attempting, result)
    }

    fn parse(&self, arena: &'a Bump, state: State<'a>) -> (result: ParseResult<'a, A>) {
        run_alternatives2(&self.p1, &self.p2, arena, state, state.attempting)
    }
}

/// A parser that tries 2 parsers in turn, each on the state that the
/// failure before it left behind, and yields the first success. If all
/// fail, it fails with the reason of the last under the tag it was entered
/// with.
pub fn one_of2<'a, P1, P2, A>(p1: P1, p2: P2) -> (choice: OneOf2<P1, P2>) where P1: Parser<'a, A>, P2: Parser<'a, A>
    ensures
        choice.p1 == p1,
        choice.p2 == p2,
{
    OneOf2 { p1, p2 }
}

/// The parser made by [`one_of3`].
pub struct OneOf3<P1, P2, P3> {
    pub p1: P1,
    pub p2: P2,
    pub p3: P3,
}

impl<'a, P1, P2, P3, A> Parser<'a, A> for OneOf3<P1, P2, P3> where P1: Parser<'a, A>, P2: Parser<'a, A>, P3: Parser<'a, A> {
    open spec fn wf(&self) -> bool {
        self.p1.wf() && self.p2.wf() && self.p3.wf()
    }

    open spec fn parses(&self, state: State<'a>, result: ParseResult<'a, A>) -> bool {
        alternatives3::<P1, P2, P3, A>(self.p1, self.p2, self.p3, state, state.attempting, result)
    }

    fn parse(&self, arena: &'a Bump, state: State<'a>) -> (result: ParseResult<'a, A>) {
        run_alternatives3(&self.p1, &self.p2, &self.p3, arena, state, state.attempting)
    }
}

/// A parser that tries 3 parsers in turn, each on the state that the
/// failure before it left behind, and yields the first success. If all
/// fail, it fails with the reason of the last under the tag it was entered
/// with.
pub fn one_of3<'a, P1, P2, P3, A>(p1: P1, p2: P2, p3: P3) -> (choice: OneOf3<P1, P2, P3>) where P1: Parser<'a, A>, P2: Parser<'a, A>, P3: Parser<'a, A>
    ensures
        choice.p1 == p1,
        choice.p2 == p2,
        choice.p3 == p3,
{
    OneOf3 { p1, p2, p3 }
}

/// The parser made by [`one_of4`].
pub struct OneOf4<P1, P2, P3, P4> {
    pub p1: P1,
    pub p2: P2,
    pub p3: P3,
    pub p4: P4,
}

impl<'a, P1, P2, P3, P4, A> Parser<'a, A> for OneOf4<P1, P2, P3, P4> where P1: Parser<'a, A>, P2: Parser<'a, A>, P3: Parser<'a, A>, P4: Parser<'a, A> {
    open spec fn wf(&self) -> bool {
        self.p1.wf() && self.p2.wf() && self.p3.wf() && self.p4.wf()
    }

    open spec fn parses(&self, state: State<'a>, result: ParseResult<'a, A>) -> bool {
        alternatives4::<P1, P2, P3, P4, A>(self.p1, self.p2, self.p3, self.p4, state, state.attempting, result)
    }

    fn parse(&self, arena: &'a Bump, state: State<'a>) -> (result: ParseResult<'a, A>) {
        run_alternatives4(&self.p1, &self.p2, &self.p3, &self.p4, arena, state, state.attempting)
    }
}

/// A parser that tries 4 parsers in turn, each on the state that the
/// failure before it left behind, and yields the first success. If all
/// fail, it fails with the reason of the last under the tag it was entered
/// with.
pub fn one_of4<'a, P1, P2, P3, P4, A>(p1: P1, p2: P2, p3: P3, p4: P4) -> (choice: OneOf4<P1, P2, P3, P4>) where P1: Parser<'a, A>, P2: Parser<'a, A>, P3: Parser<'a, A>, P4: Parser<'a, A>
    ensures
        choice.p1 == p1,
        choice.p2 == p2,
        choice.p3 == p3,
        choice.p4 == p4,
{
    OneOf4 { p1, p2, p3, p4 }
}

/// The parser made by [`one_of5`].
pub struct OneOf5<P1, P2, P3, P4, P5> {
    pub p1: P1,
    pub p2: P2,
    pub p3: P3,
    pub p4: P4,
    pub p5: P5,
}

impl<'a, P1, P2, P3, P4, P5, A> Parser<'a, A> for OneOf5<P1, P2, P3, P4, P5> where P1: Parser<'a, A>, P2: Parser<'a, A>, P3: Parser<'a, A>, P4: Parser<'a, A>, P5: Parser<'a, A> {
    open spec fn wf(&self) -> bool {
        self.p1.wf() && self.p2.wf() && self.p3.wf() && self.p4.wf() && self.p5.wf()
    }

    open spec fn parses(&self, state: State<'a>, result: ParseResult<'a, A>) -> bool {
        alternatives5::<P1, P2, P3, P4, P5, A>(self.p1, self.p2, self.p3, self.p4, self.p5, state, state.attempting, result)
    }

    fn parse(&self, arena: &'a Bump, state: State<'a>) -> (result: ParseResult<'a, A>) {
        run_alternatives5(&self.p1, &self.p2, &self.p3, &self.p4, &self.p5, arena, state, state.attempting)
    }
}

/// A parser that tries 5 parsers in turn, each on the state that the
/// failure before it left behind, and yields the first success. If all
/// fail, it fails with the reason of the last under the tag it was entered
/// with.
pub fn one_of5<'a, P1, P2, P3, P4, P5, A>(p1: P1, p2: P2, p3: P3, p4: P4, p5: P5) -> (choice: OneOf5<P1, P2, P3, P4, P5>) where P1: Parser<'a, A>, P2: Parser<'a, A>, P3: Parser<'a, A>, P4: Parser<'a, A>, P5: Parser<'a, A>
    ensures
        choice.p1 == p1,
        choice.p2 == p2,
        choice.p3 == p3,
        choice.p4 == p4,
        choice.p5 == p5,
{
    OneOf5 { p1, p2, p3, p4, p5 }
}

/// The parser made by [`one_of6`].
pub struct OneOf6<P1, P2, P3, P4, P5, P6> {
    pub p1: P1,
    pub p2: P2,
    pub p3: P3,
    pub p4: P4,
    pub p5: P5,
    pub p6: P6,
}

impl<'a, P1, P2, P3, P4, P5, P6, A> Parser<'a, A> for OneOf6<P1, P2, P3, P4, P5, P6> where P1: Parser<'a, A>, P2: Parser<'a, A>, P3: Parser<'a, A>, P4: Parser<'a, A>, P5: Parser<'a, A>, P6: Parser<'a, A> {
    open spec fn wf(&self) -> bool {
        self.p1.wf() && self.p2.wf() && self.p3.wf() && self.p4.wf() && self.p5.wf() && self.p6.wf()
    }

    open spec fn parses(&self, state: State<'a>, result: ParseResult<'a, A>) -> bool {
        alternatives6::<P1, P2, P3, P4, P5, P6, A>(self.p1, self.p2, self.p3, self.p4, self.p5, self.p6, state, state.attempting, result)
    }

    fn parse(&self, arena: &'a Bump, state: State<'a>) -> (result: ParseResult<'a, A>) {
        run_alternatives6(&self.p1, &self.p2, &self.p3, &self.p4, &self.p5, &self.p6, arena, state, state.attempting)
    }
}

/// A parser that tries 6 parsers in turn, each on the state that the
/// failure before it left behind, and yields the first success. If all
/// fail, it fails with the reason of the last under the tag it was entered
/// with.
pub fn one_of6<'a, P1, P2, P3, P4, P5, P6, A>(p1: P1, p2: P2, p3: P3, p4: P4, p5: P5, p6: P6) -> (choice: OneOf6<P1, P2, P3, P4, P5, P6>) where P1: Parser<'a, A>, P2: Parser<'a, A>, P3: Parser<'a, A>, P4: Parser<'a, A>, P5: Parser<'a, A>, P6: Parser<'a, A>
    ensures
        choice.p1 == p1,
        choice.p2 == p2,
        choice.p3 == p3,
        choice.p4 == p4,
        choice.p5 == p5,
        choice.p6 == p6,
{
    OneOf6 { p1, p2, p3, p4, p5, p6 }
}

/// The parser made by [`one_of7`].
pub struct OneOf7<P1, P2, P3, P4, P5, P6, P7> {
    pub p1: P1,
    pub p2: P2,
    pub p3: P3,
    pub p4: P4,
    pub p5: P5,
    pub p6: P6,
    pub p7: P7,
}

impl<'a, P1, P2, P3, P4, P5, P6, P7, A> Parser<'a, A> for OneOf7<P1, P2, P3, P4, P5, P6, P7> where P1: Parser<'a, A>, P2: Parser<'a, A>, P3: Parser<'a, A>, P4: Parser<'a, A>, P5: Parser<'a, A>, P6: Parser<'a, A>, P7: Parser<'a, A> {
    open spec fn wf(&self) -> bool {
        self.p1.wf() && self.p2.wf() && self.p3.wf() && self.p4.wf() && self.p5.wf() && self.p6.wf() && self.p7.wf()
    }

    open spec fn parses(&self, state: State<'a>, result: ParseResult<'a, A>) -> bool {
        alternatives7::<P1, P2, P3, P4, P5, P6, P7, A>(self.p1, self.p2, self.p3, self.p4, self.p5, self.p6, self.p7, state, state.attempting, result)
    }

    fn parse(&self, arena: &'a Bump, state: State<'a>) -> (result: ParseResult<'a, A>) {
        run_alternatives7(&self.p1, &self.p2, &self.p3, &self.p4, &self.p5, &self.p6, &self.p7, arena, state, state.attempting)
    }
}

/// A parser that tries 7 parsers in turn, each on the state that the
/// failure before it left behind, and yields the first success. If all
/// fail, it fails with the reason of the last under the tag it was entered
/// with.
pub fn one_of7<'a, P1, P2, P3, P4, P5, P6, P7, A>(p1: P1, p2: P2, p3: P3, p4: P4, p5: P5, p6: P6, p7: P7) -> (choice: OneOf7<P1, P2, P3, P4, P5, P6, P7>) where P1: Parser<'a, A>, P2: Parser<'a, A>, P3: Parser<'a, A>, P4: Parser<'a, A>, P5: Parser<'a, A>, P6: Parser<'a, A>, P7: Parser<'a, A>
    ensures
        choice.p1 == p1,
        choice.p2 == p2,
        choice.p3 == p3,
        choice.p4 == p4,
        choice.p5 == p5,
        choice.p6 == p6,
        choice.p7 == p7,
{
    OneOf7 { p1, p2, p3, p4, p5, p6, p7 }
}

/// The parser made by [`one_of8`].
pub struct OneOf8<P1, P2, P3, P4, P5, P6, P7, P8> {
    pub p1: P1,
    pub p2: P2,
    pub p3: P3,
    pub p4: P4,
    pub p5: P5,
    pub p6: P6,
    pub p7: P7,
    pub p8: P8,
}

impl<'a, P1, P2, P3, P4, P5, P6, P7, P8, A> Parser<'a, A> for OneOf8<P1, P2, P3, P4, P5, P6, P7, P8> where P1: Parser<'a, A>, P2: Parser<'a, A>, P3: Parser<'a, A>, P4: Parser<'a, A>, P5: Parser<'a, A>, P6: Parser<'a, A>, P7: Parser<'a, A>, P8: Parser<'a, A> {
    open spec fn wf(&self) -> bool {
        self.p1.wf() && self.p2.wf() && self.p3.wf() && self.p4.wf() && self.p5.wf() && self.p6.wf() && self.p7.wf() && self.p8.wf()
    }

    open spec fn parses(&self, state: State<'a>, result: ParseResult<'a, A>) -> bool {
        alternatives8::<P1, P2, P3, P4, P5, P6, P7, P8, A>(self.p1, self.p2, self.p3, self.p4, self.p5, self.p6, self.p7, self.p8, state, state.attempting, result)
    }

    fn parse(&self, arena: &'a Bump, state: State<'a>) -> (result: ParseResult<'a, A>) {
        run_alternatives8(&self.p1, &self.p2, &self.p3, &self.p4, &self.p5, &self.p6, &self.p7, &self.p8, arena, state, state.attempting)
    }
}

/// A parser that tries 8 parsers in turn, each on the state that the
/// failure before it left behind, and yields the first success. If all
/// fail, it fails with the reason of the last under the tag it was entered
/// with.
pub fn one_of8<'a, P1, P2, P3, P4, P5, P6, P7, P8, A>(p1: P1, p2: P2, p3: P3, p4: P4, p5: P5, p6: P6, p7: P7, p8: P8) -> (choice: OneOf8<P1, P2, P3, P4, P5, P6, P7, P8>) where P1: Parser<'a, A>, P2: Parser<'a, A>, P3: Parser<'a, A>, P4: Parser<'a, A>, P5: Parser<'a, A>, P6: Parser<'a, A>, P7: Parser<'a, A>, P8: Parser<'a, A>
    ensures
        choice.p1 == p1,
        choice.p2 == p2,
        choice.p3 == p3,
        choice.p4 == p4,
        choice.p5 == p5,
        choice.p6 == p6,
        choice.p7 == p7,
        choice.p8 == p8,
{
    OneOf8 { p1, p2, p3, p4, p5, p6, p7, p8 }
}

} // verus!
