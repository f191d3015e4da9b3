//! What holds of the parsers whatever they are made of.

use vstd::prelude::*;
use vstd::string::*;
use crate::parse::ast::Attempting;
use crate::parse::parser::{
    AndThen, Attempt, Loc, Mapped, MappedWithArena, Optional, Parser, Satisfies, Val, condition_failed,
};
use crate::parse::repeat::{repeats, run_of, stops_at, OneOrMore, ZeroOrMore};
use crate::parse::sequence::{
    alternatives2, alternatives3, alternatives4, alternatives5, alternatives6, alternatives7,
    alternatives8, fails_leaving, last_alternative, And, EitherOf, OneOf2, OneOf3, OneOf4, OneOf5,
    OneOf6, OneOf7, OneOf8, SkipFirst,
};
use crate::parse::state::{Fail, FailReason, ParseResult, State, MAX_COLUMN};
use crate::parse::text::{Char, Literal};
use crate::region::Located;

verus! {

/// Repeating a parser zero or more times never fails.
pub proof fn law_zero_or_more_never_fails<'a, P, A>(
    parser: P,
    state: State<'a>,
    result: ParseResult<'a, Vec<A>>,
) where P: Parser<'a, A>
    requires
        (ZeroOrMore { parser }).parses(state, result),
    ensures
        result is Ok,
{
}

/// An optional parser never fails.
pub proof fn law_optional_never_fails<'a, P, A>(
    parser: P,
    state: State<'a>,
    result: ParseResult<'a, Option<A>>,
) where P: Parser<'a, A>
    requires
        (Optional { parser }).parses(state, result),
    ensures
        result is Ok,
{
}

/// Where a parser can only succeed on `state`, with `output` and `next`,
/// and can only fail on `next`, repeating it one or more times from `state`
/// yields exactly `output` and ends in `next`.
pub proof fn law_one_or_more_single<'a, P, A>(
    parser: P,
    state: State<'a>,
    output: A,
    next: State<'a>,
    result: ParseResult<'a, Vec<A>>,
) where P: Parser<'a, A>
    requires
        forall|first: ParseResult<'a, A>| #[trigger]
            parser.parses(state, first) ==> first == Ok::<(A, State<'a>), (Fail, State<'a>)>(
                (output, next),
            ),
        forall|second: ParseResult<'a, A>| #[trigger] parser.parses(next, second) ==> second is Err,
        (OneOrMore { parser }).parses(state, result),
    ensures
        result matches Ok((outputs, end)) && outputs@ == seq![output] && end == next,
{
    match result {
        Ok((outputs, end)) => {
            let left = choose|left: State<'a>| #[trigger]
                repeats::<P, A>(parser, state, outputs@, end, left);
            let states = choose|states: Seq<State<'a>>|
                {
                    &&& #[trigger] run_of::<P, A>(parser, states, outputs@)
                    &&& states[0] == state
                    &&& states.last() == end
                };
            let first = outputs@[0];
            assert(parser.parses(states[0], Ok((first, states[1]))));
            assert(first == output && states[1] == next);
            if outputs@.len() > 1 {
                let second = outputs@[1];
                assert(parser.parses(states[1], Ok((second, states[2]))));
            }
            assert(outputs@ =~= seq![output]);
        },
        Err((fail, after)) => {
            let left = choose|left: State<'a>|
                #![trigger stops_at::<P, A>(parser, state, left)]
                stops_at::<P, A>(parser, state, left);
            let inner = choose|inner: Fail| #[trigger] parser.parses(state, Err((inner, left)));
            assert(parser.parses(state, Err((inner, left))));
        },
    }
}

/// An alternative whose second branch is a constant always succeeds.
pub proof fn law_either_val_succeeds<'a, P, A, V>(
    parser: P,
    value: V,
    state: State<'a>,
    result: ParseResult<'a, crate::parse::parser::Either<A, V>>,
) where P: Parser<'a, A>, V: Clone
    requires
        (EitherOf { first: parser, second: Val { value } }).parses(state, result),
    ensures
        result is Ok,
{
}

/// The region that `loc` yields starts at the position of the state it was
/// given and ends at the position of the state it returns.
pub proof fn law_loc_region<'a, P, A>(
    parser: P,
    state: State<'a>,
    located: Located<A>,
    next: State<'a>,
) where P: Parser<'a, A>
    requires
        (Loc { parser }).parses(state, Ok((located, next))),
    ensures
        located.region.start_line == state.line,
        located.region.start_col == state.column,
        located.region.end_line == next.line,
        located.region.end_col == next.column,
        parser.parses(state, Ok((located.value, next))),
{
}

/// Text that was consumed lies on the line: a success of `char` ends one
/// column further, within the column limit, and stops indenting.
pub proof fn law_char_advances<'a>(expected: char, state: State<'a>, next: State<'a>)
    requires
        (Char { expected }).parses(state, Ok(((), next))),
    ensures
        next.column == state.column + 1,
        state.column + 1 <= MAX_COLUMN,
        next.line == state.line,
        next.indent_col == state.indent_col,
        !next.is_indenting,
        next@.input == state@.input.subrange(1, state@.input.len() as int),
{
}

/// A success of `string` ends as many columns further as the text has
/// bytes, within the column limit, and stops indenting.
pub proof fn law_string_advances<'a>(text: &'static str, state: State<'a>, next: State<'a>)
    requires
        (Literal { text }).parses(state, Ok(((), next))),
    ensures
        next.column == state.column + text.spec_bytes().len(),
        state.column + text.spec_bytes().len() <= MAX_COLUMN,
        next.line == state.line,
        next.indent_col == state.indent_col,
        !next.is_indenting,
{
}

/// Whether `parser` fails on every poisoned state, reports the line as too
/// long, and leaves a state that is poisoned on the same line.
pub open spec fn stays_poisoned<'a, P, A>(parser: P) -> bool where P: Parser<'a, A> {
    forall|state: State<'a>, result: ParseResult<'a, A>|
        state@.is_poisoned() && #[trigger] parser.parses(state, result) ==> poisoned_failure(
            state,
            result,
        )
}

/// Whether `result` is the failure for the too long line of `state`, with a
/// poisoned state on that line.
pub open spec fn poisoned_failure<'a, A>(state: State<'a>, result: ParseResult<'a, A>) -> bool {
    result matches Err((fail, left)) && {
        &&& fail.reason == FailReason::LineTooLong(state.line)
        &&& left@.is_poisoned()
        &&& left.line == state.line
    }
}

/// A failure of `char` for a too long line leaves a poisoned state, and on
/// a poisoned state `char` fails so again.
pub proof fn law_char_poison<'a>(expected: char)
    ensures
        stays_poisoned::<Char, ()>(Char { expected }),
        forall|state: State<'a>, fail: Fail, left: State<'a>|
            #[trigger] (Char { expected }).parses(state, Err((fail, left)))
                && fail.reason is LineTooLong ==> left@.is_poisoned(),
{
}

/// A failure of `string` for a too long line leaves a poisoned state, and
/// on a poisoned state `string` fails so again, unless its text is empty.
pub proof fn law_string_poison<'a>(text: &'static str)
    ensures
        text.spec_bytes().len() > 0 ==> stays_poisoned::<Literal, ()>(Literal { text }),
        forall|state: State<'a>, fail: Fail, left: State<'a>|
            #[trigger] (Literal { text }).parses(state, Err((fail, left)))
                && fail.reason is LineTooLong ==> left@.is_poisoned(),
{
}

/// A sequence fails on a poisoned state as its first parser does.
pub proof fn law_and_poison<'a, P1, P2, A, B>(p1: P1, p2: P2) where
    P1: Parser<'a, A>,
    P2: Parser<'a, B>,

    requires
        stays_poisoned::<P1, A>(p1),
    ensures
        stays_poisoned::<And<P1, P2>, (A, B)>(And { first: p1, second: p2 }),
{
    let both = And { first: p1, second: p2 };
    assert forall|state: State<'a>, result: ParseResult<'a, (A, B)>|
        state@.is_poisoned() && #[trigger] both.parses(state, result) implies poisoned_failure(
        state,
        result,
    ) by {
        match result {
            Ok((outputs, next)) => {
                let middle = choose|middle: State<'a>|
                    #![trigger p1.parses(state, Ok((outputs.0, middle)))]
                    p1.parses(state, Ok((outputs.0, middle))) && p2.parses(
                        middle,
                        Ok((outputs.1, next)),
                    );
                assert(p1.parses(state, Ok((outputs.0, middle))));
            },
            Err((fail, left)) => {
                first_fails_poisoned::<P1, P2, A, B>(p1, p2, state, fail, left);
            },
        }
    }
}

/// The failure of a sequence on a poisoned state, where the first parser
/// stays poisoned.
proof fn first_fails_poisoned<'a, P1, P2, A, B>(
    p1: P1,
    p2: P2,
    state: State<'a>,
    fail: Fail,
    left: State<'a>,
) where P1: Parser<'a, A>, P2: Parser<'a, B>
    requires
        stays_poisoned::<P1, A>(p1),
        state@.is_poisoned(),
        exists|inner: Fail|
            #![trigger crate::parse::parser::blamed(inner, state.attempting)]
            fail == crate::parse::parser::blamed(inner, state.attempting)
                && crate::parse::sequence::sequence_fails::<P1, P2, A, B>(
                p1,
                p2,
                state,
                inner,
                left,
            ),
    ensures
        poisoned_failure::<A>(state, Err((fail, left))),
{
    let inner = choose|inner: Fail|
        #![trigger crate::parse::parser::blamed(inner, state.attempting)]
        fail == crate::parse::parser::blamed(inner, state.attempting)
            && crate::parse::sequence::sequence_fails::<P1, P2, A, B>(p1, p2, state, inner, left);
    if p1.parses(state, Err((inner, left))) {
    } else {
        let (output, middle) = choose|output: A, middle: State<'a>|
            #![trigger p1.parses(state, Ok((output, middle)))]
            p1.parses(state, Ok((output, middle))) && p2.parses(middle, Err((inner, left)));
        assert(p1.parses(state, Ok((output, middle))));
    }
}

/// Skipping a first parser fails on a poisoned state as that parser does.
pub proof fn law_skip_first_poison<'a, P1, P2, A, B>(p1: P1, p2: P2) where
    P1: Parser<'a, A>,
    P2: Parser<'a, B>,

    requires
        stays_poisoned::<P1, A>(p1),
    ensures
        stays_poisoned::<SkipFirst<P1, P2, A>, B>(
            SkipFirst { first: p1, second: p2, skipped: core::marker::PhantomData },
        ),
{
    let skip = SkipFirst::<P1, P2, A> { first: p1, second: p2, skipped: core::marker::PhantomData };
    assert forall|state: State<'a>, result: ParseResult<'a, B>|
        state@.is_poisoned() && #[trigger] skip.parses(state, result) implies poisoned_failure(
        state,
        result,
    ) by {
        match result {
            Ok(_) => {
                let (output, middle) = choose|output: A, middle: State<'a>|
                    #![trigger p1.parses(state, Ok((output, middle)))]
                    p1.parses(state, Ok((output, middle))) && p2.parses(middle, result);
                assert(p1.parses(state, Ok((output, middle))));
            },
            Err((fail, left)) => {
                first_fails_poisoned::<P1, P2, A, B>(p1, p2, state, fail, left);
            },
        }
    }
}

/// The last alternative fails on a poisoned state as its parser does.
proof fn last_alternative_poisoned<'a, P, A>(
    parser: P,
    state: State<'a>,
    attempting: Attempting,
    result: ParseResult<'a, A>,
) where P: Parser<'a, A>
    requires
        stays_poisoned::<P, A>(parser),
        state@.is_poisoned(),
        last_alternative::<P, A>(parser, state, attempting, result),
    ensures
        poisoned_failure(state, result),
{
    match result {
        Ok(_) => {},
        Err((fail, left)) => {
            let inner = choose|inner: Fail|
                #![trigger parser.parses(state, Err((inner, left)))]
                parser.parses(state, Err((inner, left))) && fail == crate::parse::parser::blamed(
                    inner,
                    attempting,
                );
            assert(parser.parses(state, Err((inner, left))));
        },
    }
}

/// A failure that leaves `middle` behind on a poisoned state leaves it
/// poisoned on the same line.
proof fn failure_leaves_poisoned<'a, P, A>(parser: P, state: State<'a>, middle: State<'a>) where
    P: Parser<'a, A>,

    requires
        stays_poisoned::<P, A>(parser),
        state@.is_poisoned(),
        fails_leaving::<P, A>(parser, state, middle),
    ensures
        middle@.is_poisoned(),
        middle.line == state.line,
{
    let fail = choose|fail: Fail| #[trigger] parser.parses(state, Err((fail, middle)));
    assert(parser.parses(state, Err((fail, middle))));
}

/// An alternative fails on a poisoned state where both of its branches do.
pub proof fn law_either_poison<'a, P1, P2, A, B>(p1: P1, p2: P2) where
    P1: Parser<'a, A>,
    P2: Parser<'a, B>,

    requires
        stays_poisoned::<P1, A>(p1),
        stays_poisoned::<P2, B>(p2),
    ensures
        stays_poisoned::<EitherOf<P1, P2>, crate::parse::parser::Either<A, B>>(
            EitherOf { first: p1, second: p2 },
        ),
{
    let choice = EitherOf { first: p1, second: p2 };
    assert forall|state: State<'a>, result: ParseResult<'a, crate::parse::parser::Either<A, B>>|
        state@.is_poisoned() && #[trigger] choice.parses(state, result) implies poisoned_failure(
        state,
        result,
    ) by {
        match result {
            Ok((crate::parse::parser::Either::First(output), next)) => {},
            Ok((crate::parse::parser::Either::Second(output), next)) => {
                let middle = choose|middle: State<'a>|
                    #![trigger fails_leaving::<P1, A>(p1, state, middle)]
                    fails_leaving::<P1, A>(p1, state, middle) && p2.parses(
                        middle,
                        Ok((output, next)),
                    );
                failure_leaves_poisoned::<P1, A>(p1, state, middle);
                assert(p2.parses(middle, Ok((output, next))));
            },
            Err((fail, left)) => {
                let middle = choose|middle: State<'a>|
                    #![trigger fails_leaving::<P1, A>(p1, state, middle)]
                    fails_leaving::<P1, A>(p1, state, middle) && last_alternative::<P2, B>(
                        p2,
                        middle,
                        state.attempting,
                        Err((fail, left)),
                    );
                failure_leaves_poisoned::<P1, A>(p1, state, middle);
                last_alternative_poisoned::<P2, B>(p2, middle, state.attempting, Err((fail, left)));
            },
        }
    }
}

/// 2 alternatives fail on a poisoned state where each of them does.
proof fn alternatives2_poisoned<'a, P1, P2, A>(
    p1: P1,
    p2: P2,
    state: State<'a>,
    attempting: Attempting,
    result: ParseResult<'a, A>,
) where P1: Parser<'a, A>, P2: Parser<'a, A>
    requires
        stays_poisoned::<P1, A>(p1),
        stays_poisoned::<P2, A>(p2),
        state@.is_poisoned(),
        alternatives2::<P1, P2, A>(p1, p2, state, attempting, result),
    ensures
        poisoned_failure(state, result),
{
    if result is Ok && p1.parses(state, result) {
    } else {
        let middle = choose|middle: State<'a>|
            #![trigger fails_leaving::<P1, A>(p1, state, middle)]
            fails_leaving::<P1, A>(p1, state, middle) && last_alternative::<P2, A>(p2, middle, attempting, result);
        failure_leaves_poisoned::<P1, A>(p1, state, middle);
        last_alternative_poisoned::<P2, A>(p2, middle, attempting, result);
    }
}

/// A choice of 2 parsers fails on a poisoned state where each of them
/// does.
pub proof fn law_one_of2_poison<'a, P1, P2, A>(p1: P1, p2: P2) where P1: Parser<'a, A>, P2: Parser<'a, A>
    requires
        stays_poisoned::<P1, A>(p1),
        stays_poisoned::<P2, A>(p2),
    ensures
        stays_poisoned::<OneOf2<P1, P2>, A>(OneOf2 { p1, p2 }),
{
    let choice = OneOf2 { p1, p2 };
    assert forall|state: State<'a>, result: ParseResult<'a, A>|
        state@.is_poisoned() && #[trigger] choice.parses(state, result) implies poisoned_failure(
        state,
        result,
    ) by {
        alternatives2_poisoned::<P1, P2, A>(p1, p2, state, state.attempting, result);
    }
}

/// 3 alternatives fail on a poisoned state where each of them does.
proof fn alternatives3_poisoned<'a, P1, P2, P3, A>(
    p1: P1,
    p2: P2,
    p3: P3,
    state: State<'a>,
    attempting: Attempting,
    result: ParseResult<'a, A>,
) where P1: Parser<'a, A>, P2: Parser<'a, A>, P3: Parser<'a, A>
    requires
        stays_poisoned::<P1, A>(p1),
        stays_poisoned::<P2, A>(p2),
        stays_poisoned::<P3, A>(p3),
        state@.is_poisoned(),
        alternatives3::<P1, P2, P3, A>(p1, p2, p3, state, attempting, result),
    ensures
        poisoned_failure(state, result),
{
    if result is Ok && p1.parses(state, result) {
    } else {
        let middle = choose|middle: State<'a>|
            #![trigger fails_leaving::<P1, A>(p1, state, middle)]
            fails_leaving::<P1, A>(p1, state, middle) && alternatives2::<P2, P3, A>(p2, p3, middle, attempting, result);
        failure_leaves_poisoned::<P1, A>(p1, state, middle);
        alternatives2_poisoned::<P2, P3, A>(p2, p3, middle, attempting, result);
    }
}

/// A choice of 3 parsers fails on a poisoned state where each of them
/// does.
pub proof fn law_one_of3_poison<'a, P1, P2, P3, A>(p1: P1, p2: P2, p3: P3) where P1: Parser<'a, A>, P2: Parser<'a, A>, P3: Parser<'a, A>
    requires
        stays_poisoned::<P1, A>(p1),
        stays_poisoned::<P2, A>(p2),
        stays_poisoned::<P3, A>(p3),
    ensures
        stays_poisoned::<OneOf3<P1, P2, P3>, A>(OneOf3 { p1, p2, p3 }),
{
    let choice = OneOf3 { p1, p2, p3 };
    assert forall|state: State<'a>, result: ParseResult<'a, A>|
        state@.is_poisoned() && #[trigger] choice.parses(state, result) implies poisoned_failure(
        state,
        result,
    ) by {
        alternatives3_poisoned::<P1, P2, P3, A>(p1, p2, p3, state, state.attempting, result);
    }
}

/// 4 alternatives fail on a poisoned state where each of them does.
proof fn alternatives4_poisoned<'a, P1, P2, P3, P4, A>(
    p1: P1,
    p2: P2,
    p3: P3,
    p4: P4,
    state: State<'a>,
    attempting: Attempting,
    result: ParseResult<'a, A>,
) where P1: Parser<'a, A>, P2: Parser<'a, A>, P3: Parser<'a, A>, P4: Parser<'a, A>
    requires
        stays_poisoned::<P1, A>(p1),
        stays_poisoned::<P2, A>(p2),
        stays_poisoned::<P3, A>(p3),
        stays_poisoned::<P4, A>(p4),
        state@.is_poisoned(),
        alternatives4::<P1, P2, P3, P4, A>(p1, p2, p3, p4, state, attempting, result),
    ensures
        poisoned_failure(state, result),
{
    if result is Ok && p1.parses(state, result) {
    } else {
        let middle = choose|middle: State<'a>|
            #![trigger fails_leaving::<P1, A>(p1, state, middle)]
            fails_leaving::<P1, A>(p1, state, middle) && alternatives3::<P2, P3, P4, A>(p2, p3, p4, middle, attempting, result);
        failure_leaves_poisoned::<P1, A>(p1, state, middle);
        alternatives3_poisoned::<P2, P3, P4, A>(p2, p3, p4, middle, attempting, result);
    }
}

/// A choice of 4 parsers fails on a poisoned state where each of them
/// does.
pub proof fn law_one_of4_poison<'a, P1, P2, P3, P4, A>(p1: P1, p2: P2, p3: P3, p4: P4) where P1: Parser<'a, A>, P2: Parser<'a, A>, P3: Parser<'a, A>, P4: Parser<'a, A>
    requires
        stays_poisoned::<P1, A>(p1),
        stays_poisoned::<P2, A>(p2),
        stays_poisoned::<P3, A>(p3),
        stays_poisoned::<P4, A>(p4),
    ensures
        stays_poisoned::<OneOf4<P1, P2, P3, P4>, A>(OneOf4 { p1, p2, p3, p4 }),
{
    let choice = OneOf4 { p1, p2, p3, p4 };
    assert forall|state: State<'a>, result: ParseResult<'a, A>|
        state@.is_poisoned() && #[trigger] choice.parses(state, result) implies poisoned_failure(
        state,
        result,
    ) by {
        alternatives4_poisoned::<P1, P2, P3, P4, A>(p1, p2, p3, p4, state, state.attempting, result);
    }
}

/// 5 alternatives fail on a poisoned state where each of them does.
proof fn alternatives5_poisoned<'a, P1, P2, P3, P4, P5, A>(
    p1: P1,
    p2: P2,
    p3: P3,
    p4: P4,
    p5: P5,
    state: State<'a>,
    attempting: Attempting,
    result: ParseResult<'a, A>,
) where P1: Parser<'a, A>, P2: Parser<'a, A>, P3: Parser<'a, A>, P4: Parser<'a, A>, P5: Parser<'a, A>
    requires
        stays_poisoned::<P1, A>(p1),
        stays_poisoned::<P2, A>(p2),
        stays_poisoned::<P3, A>(p3),
        stays_poisoned::<P4, A>(p4),
        stays_poisoned::<P5, A>(p5),
        state@.is_poisoned(),
        alternatives5::<P1, P2, P3, P4, P5, A>(p1, p2, p3, p4, p5, state, attempting, result),
    ensures
        poisoned_failure(state, result),
{
    if result is Ok && p1.parses(state, result) {
    } else {
        let middle = choose|middle: State<'a>|
            #![trigger fails_leaving::<P1, A>(p1, state, middle)]
            fails_leaving::<P1, A>(p1, state, middle) && alternatives4::<P2, P3, P4, P5, A>(p2, p3, p4, p5, middle, attempting, result);
        failure_leaves_poisoned::<P1, A>(p1, state, middle);
        alternatives4_poisoned::<P2, P3, P4, P5, A>(p2, p3, p4, p5, middle, attempting, result);
    }
}

/// A choice of 5 parsers fails on a poisoned state where each of them
/// does.
pub proof fn law_one_of5_poison<'a, P1, P2, P3, P4, P5, A>(p1: P1, p2: P2, p3: P3, p4: P4, p5: P5) where P1: Parser<'a, A>, P2: Parser<'a, A>, P3: Parser<'a, A>, P4: Parser<'a, A>, P5: Parser<'a, A>
    requires
        stays_poisoned::<P1, A>(p1),
        stays_poisoned::<P2, A>(p2),
        stays_poisoned::<P3, A>(p3),
        stays_poisoned::<P4, A>(p4),
        stays_poisoned::<P5, A>(p5),
    ensures
        stays_poisoned::<OneOf5<P1, P2, P3, P4, P5>, A>(OneOf5 { p1, p2, p3, p4, p5 }),
{
    let choice = OneOf5 { p1, p2, p3, p4, p5 };
    assert forall|state: State<'a>, result: ParseResult<'a, A>|
        state@.is_poisoned() && #[trigger] choice.parses(state, result) implies poisoned_failure(
        state,
        result,
    ) by {
        alternatives5_poisoned::<P1, P2, P3, P4, P5, A>(p1, p2, p3, p4, p5, state, state.attempting, result);
    }
}

/// 6 alternatives fail on a poisoned state where each of them does.
proof fn alternatives6_poisoned<'a, P1, P2, P3, P4, P5, P6, A>(
    p1: P1,
    p2: P2,
    p3: P3,
    p4: P4,
    p5: P5,
    p6: P6,
    state: State<'a>,
    attempting: Attempting,
    result: ParseResult<'a, A>,
) where P1: Parser<'a, A>, P2: Parser<'a, A>, P3: Parser<'a, A>, P4: Parser<'a, A>, P5: Parser<'a, A>, P6: Parser<'a, A>
    requires
        stays_poisoned::<P1, A>(p1),
        stays_poisoned::<P2, A>(p2),
        stays_poisoned::<P3, A>(p3),
        stays_poisoned::<P4, A>(p4),
        stays_poisoned::<P5, A>(p5),
        stays_poisoned::<P6, A>(p6),
        state@.is_poisoned(),
        alternatives6::<P1, P2, P3, P4, P5, P6, A>(p1, p2, p3, p4, p5, p6, state, attempting, result),
    ensures
        poisoned_failure(state, result),
{
    if result is Ok && p1.parses(state, result) {
    } else {
        let middle = choose|middle: State<'a>|
            #![trigger fails_leaving::<P1, A>(p1, state, middle)]
            fails_leaving::<P1, A>(p1, state, middle) && alternatives5::<P2, P3, P4, P5, P6, A>(p2, p3, p4, p5, p6, middle, attempting, result);
        failure_leaves_poisoned::<P1, A>(p1, state, middle);
        alternatives5_poisoned::<P2, P3, P4, P5, P6, A>(p2, p3, p4, p5, p6, middle, attempting, result);
    }
}

/// A choice of 6 parsers fails on a poisoned state where each of them
/// does.
pub proof fn law_one_of6_poison<'a, P1, P2, P3, P4, P5, P6, A>(p1: P1, p2: P2, p3: P3, p4: P4, p5: P5, p6: P6) where P1: Parser<'a, A>, P2: Parser<'a, A>, P3: Parser<'a, A>, P4: Parser<'a, A>, P5: Parser<'a, A>, P6: Parser<'a, A>
    requires
        stays_poisoned::<P1, A>(p1),
        stays_poisoned::<P2, A>(p2),
        stays_poisoned::<P3, A>(p3),
        stays_poisoned::<P4, A>(p4),
        stays_poisoned::<P5, A>(p5),
        stays_poisoned::<P6, A>(p6),
    ensures
        stays_poisoned::<OneOf6<P1, P2, P3, P4, P5, P6>, A>(OneOf6 { p1, p2, p3, p4, p5, p6 }),
{
    let choice = OneOf6 { p1, p2, p3, p4, p5, p6 };
    assert forall|state: State<'a>, result: ParseResult<'a, A>|
        state@.is_poisoned() && #[trigger] choice.parses(state, result) implies poisoned_failure(
        state,
        result,
    ) by {
        alternatives6_poisoned::<P1, P2, P3, P4, P5, P6, A>(p1, p2, p3, p4, p5, p6, state, state.attempting, result);
    }
}

/// 7 alternatives fail on a poisoned state where each of them does.
proof fn alternatives7_poisoned<'a, P1, P2, P3, P4, P5, P6, P7, A>(
    p1: P1,
    p2: P2,
    p3: P3,
    p4: P4,
    p5: P5,
    p6: P6,
    p7: P7,
    state: State<'a>,
    attempting: Attempting,
    result: ParseResult<'a, A>,
) where P1: Parser<'a, A>, P2: Parser<'a, A>, P3: Parser<'a, A>, P4: Parser<'a, A>, P5: Parser<'a, A>, P6: Parser<'a, A>, P7: Parser<'a, A>
    requires
        stays_poisoned::<P1, A>(p1),
        stays_poisoned::<P2, A>(p2),
        stays_poisoned::<P3, A>(p3),
        stays_poisoned::<P4, A>(p4),
        stays_poisoned::<P5, A>(p5),
        stays_poisoned::<P6, A>(p6),
        stays_poisoned::<P7, A>(p7),
        state@.is_poisoned(),
        alternatives7::<P1, P2, P3, P4, P5, P6, P7, A>(p1, p2, p3, p4, p5, p6, p7, state, attempting, result),
    ensures
        poisoned_failure(state, result),
{
    if result is Ok && p1.parses(state, result) {
    } else {
        let middle = choose|middle: State<'a>|
            #![trigger fails_leaving::<P1, A>(p1, state, middle)]
            fails_leaving::<P1, A>(p1, state, middle) && alternatives6::<P2, P3, P4, P5, P6, P7, A>(p2, p3, p4, p5, p6, p7, middle, attempting, result);
        failure_leaves_poisoned::<P1, A>(p1, state, middle);
        alternatives6_poisoned::<P2, P3, P4, P5, P6, P7, A>(p2, p3, p4, p5, p6, p7, middle, attempting, result);
    }
}

/// A choice of 7 parsers fails on a poisoned state where each of them
/// does.
pub proof fn law_one_of7_poison<'a, P1, P2, P3, P4, P5, P6, P7, A>(p1: P1, p2: P2, p3: P3, p4: P4, p5: P5, p6: P6, p7: P7) where P1: Parser<'a, A>, P2: Parser<'a, A>, P3: Parser<'a, A>, P4: Parser<'a, A>, P5: Parser<'a, A>, P6: Parser<'a, A>, P7: Parser<'a, A>
    requires
        stays_poisoned::<P1, A>(p1),
        stays_poisoned::<P2, A>(p2),
        stays_poisoned::<P3, A>(p3),
        stays_poisoned::<P4, A>(p4),
        stays_poisoned::<P5, A>(p5),
        stays_poisoned::<P6, A>(p6),
        stays_poisoned::<P7, A>(p7),
    ensures
        stays_poisoned::<OneOf7<P1, P2, P3, P4, P5, P6, P7>, A>(OneOf7 { p1, p2, p3, p4, p5, p6, p7 }),
{
    let choice = OneOf7 { p1, p2, p3, p4, p5, p6, p7 };
    assert forall|state: State<'a>, result: ParseResult<'a, A>|
        state@.is_poisoned() && #[trigger] choice.parses(state, result) implies poisoned_failure(
        state,
        result,
    ) by {
        alternatives7_poisoned::<P1, P2, P3, P4, P5, P6, P7, A>(p1, p2, p3, p4, p5, p6, p7, state, state.attempting, result);
    }
}

/// 8 alternatives fail on a poisoned state where each of them does.
proof fn alternatives8_poisoned<'a, P1, P2, P3, P4, P5, P6, P7, P8, A>(
    p1: P1,
    p2: P2,
    p3: P3,
    p4: P4,
    p5: P5,
    p6: P6,
    p7: P7,
    p8: P8,
    state: State<'a>,
    attempting: Attempting,
    result: ParseResult<'a, A>,
) where P1: Parser<'a, A>, P2: Parser<'a, A>, P3: Parser<'a, A>, P4: Parser<'a, A>, P5: Parser<'a, A>, P6: Parser<'a, A>, P7: Parser<'a, A>, P8: Parser<'a, A>
    requires
        stays_poisoned::<P1, A>(p1),
        stays_poisoned::<P2, A>(p2),
        stays_poisoned::<P3, A>(p3),
        stays_poisoned::<P4, A>(p4),
        stays_poisoned::<P5, A>(p5),
        stays_poisoned::<P6, A>(p6),
        stays_poisoned::<P7, A>(p7),
        stays_poisoned::<P8, A>(p8),
        state@.is_poisoned(),
        alternatives8::<P1, P2, P3, P4, P5, P6, P7, P8, A>(p1, p2, p3, p4, p5, p6, p7, p8, state, attempting, result),
    ensures
        poisoned_failure(state, result),
{
    if result is Ok && p1.parses(state, result) {
    } else {
        let middle = choose|middle: State<'a>|
            #![trigger fails_leaving::<P1, A>(p1, state, middle)]
            fails_leaving::<P1, A>(p1, state, middle) && alternatives7::<P2, P3, P4, P5, P6, P7, P8, A>(p2, p3, p4, p5, p6, p7, p8, middle, attempting, result);
        failure_leaves_poisoned::<P1, A>(p1, state, middle);
        alternatives7_poisoned::<P2, P3, P4, P5, P6, P7, P8, A>(p2, p3, p4, p5, p6, p7, p8, middle, attempting, result);
    }
}

/// A choice of 8 parsers fails on a poisoned state where each of them
/// does.
pub proof fn law_one_of8_poison<'a, P1, P2, P3, P4, P5, P6, P7, P8, A>(p1: P1, p2: P2, p3: P3, p4: P4, p5: P5, p6: P6, p7: P7, p8: P8) where P1: Parser<'a, A>, P2: Parser<'a, A>, P3: Parser<'a, A>, P4: Parser<'a, A>, P5: Parser<'a, A>, P6: Parser<'a, A>, P7: Parser<'a, A>, P8: Parser<'a, A>
    requires
        stays_poisoned::<P1, A>(p1),
        stays_poisoned::<P2, A>(p2),
        stays_poisoned::<P3, A>(p3),
        stays_poisoned::<P4, A>(p4),
        stays_poisoned::<P5, A>(p5),
        stays_poisoned::<P6, A>(p6),
        stays_poisoned::<P7, A>(p7),
        stays_poisoned::<P8, A>(p8),
    ensures
        stays_poisoned::<OneOf8<P1, P2, P3, P4, P5, P6, P7, P8>, A>(OneOf8 { p1, p2, p3, p4, p5, p6, p7, p8 }),
{
    let choice = OneOf8 { p1, p2, p3, p4, p5, p6, p7, p8 };
    assert forall|state: State<'a>, result: ParseResult<'a, A>|
        state@.is_poisoned() && #[trigger] choice.parses(state, result) implies poisoned_failure(
        state,
        result,
    ) by {
        alternatives8_poisoned::<P1, P2, P3, P4, P5, P6, P7, P8, A>(p1, p2, p3, p4, p5, p6, p7, p8, state, state.attempting, result);
    }
}

/// A mapped parser fails on a poisoned state as the parser under it does.
pub proof fn law_map_poison<'a, P, F, Before, After>(parser: P, transform: F) where
    P: Parser<'a, Before>,
    F: Fn(Before) -> After,

    requires
        stays_poisoned::<P, Before>(parser),
    ensures
        stays_poisoned::<Mapped<P, F, Before>, After>(
            Mapped { parser, transform, before: core::marker::PhantomData },
        ),
{
    let mapped = Mapped::<P, F, Before> { parser, transform, before: core::marker::PhantomData };
    assert forall|state: State<'a>, result: ParseResult<'a, After>|
        state@.is_poisoned() && #[trigger] mapped.parses(state, result) implies poisoned_failure(
        state,
        result,
    ) by {
        match result {
            Ok((value, next)) => {
                let output = choose|output: Before| #[trigger]
                    parser.parses(state, Ok((output, next))) && call_ensures(
                        transform,
                        (output,),
                        value,
                    );
                assert(parser.parses(state, Ok((output, next))));
            },
            Err(failure) => {
                assert(parser.parses(state, Err(failure)));
            },
        }
    }
}

/// A parser mapped with the arena fails on a poisoned state as the parser
/// under it does.
pub proof fn law_map_with_arena_poison<'a, P, F, Before, After>(parser: P, transform: F) where
    P: Parser<'a, Before>,
    F: Fn(&'a bumpalo::Bump, Before) -> After,

    requires
        stays_poisoned::<P, Before>(parser),
    ensures
        stays_poisoned::<MappedWithArena<P, F, Before>, After>(
            MappedWithArena { parser, transform, before: core::marker::PhantomData },
        ),
{
    let mapped = MappedWithArena::<P, F, Before> {
        parser,
        transform,
        before: core::marker::PhantomData,
    };
    assert forall|state: State<'a>, result: ParseResult<'a, After>|
        state@.is_poisoned() && #[trigger] mapped.parses(state, result) implies poisoned_failure(
        state,
        result,
    ) by {
        match result {
            Ok((value, next)) => {
                let output = choose|output: Before| #[trigger]
                    parser.parses(state, Ok((output, next)))
                        && crate::parse::parser::maps_in_some_arena(transform, output, value);
                assert(parser.parses(state, Ok((output, next))));
            },
            Err(failure) => {
                assert(parser.parses(state, Err(failure)));
            },
        }
    }
}

/// A chained parser fails on a poisoned state as its first parser does.
pub proof fn law_and_then_poison<'a, P1, P2, F, Before, After>(parser: P1, transform: F) where
    P1: Parser<'a, Before>,
    P2: Parser<'a, After>,
    F: Fn(Before) -> P2,

    requires
        stays_poisoned::<P1, Before>(parser),
    ensures
        stays_poisoned::<AndThen<P1, F, Before, P2>, After>(
            AndThen {
                parser,
                transform,
                before: core::marker::PhantomData,
                produced: core::marker::PhantomData,
            },
        ),
{
    let chained = AndThen::<P1, F, Before, P2> {
        parser,
        transform,
        before: core::marker::PhantomData,
        produced: core::marker::PhantomData,
    };
    assert forall|state: State<'a>, result: ParseResult<'a, After>|
        state@.is_poisoned() && #[trigger] chained.parses(state, result) implies poisoned_failure(
        state,
        result,
    ) by {
        if result matches Err(failure) && parser.parses(state, Err(failure)) {
            assert(parser.parses(state, Err::<(Before, State<'a>), (Fail, State<'a>)>(result->Err_0)));
        } else {
            let (output, middle, second) = choose|output: Before, middle: State<'a>, second: P2|
                #![trigger parser.parses(state, Ok((output, middle))), second.parses(middle, result)]
                {
                    &&& parser.parses(state, Ok((output, middle)))
                    &&& call_ensures(transform, (output,), second)
                    &&& second.parses(middle, result)
                };
            assert(parser.parses(state, Ok((output, middle))));
        }
    }
}

/// A tagged parser fails on a poisoned state as the parser under it does.
pub proof fn law_attempt_poison<'a, P, A>(attempting: Attempting, parser: P) where
    P: Parser<'a, A>,

    requires
        stays_poisoned::<P, A>(parser),
    ensures
        stays_poisoned::<Attempt<P>, A>(Attempt { attempting, parser }),
{
    let tagged = Attempt { attempting, parser };
    assert forall|state: State<'a>, result: ParseResult<'a, A>|
        state@.is_poisoned() && #[trigger] tagged.parses(state, result) implies poisoned_failure(
        state,
        result,
    ) by {
        let inner = crate::parse::parser::retagged(state, attempting);
        assert(inner@.is_poisoned());
        assert(parser.parses(inner, result));
    }
}

/// A located parser fails on a poisoned state as the parser under it does.
pub proof fn law_loc_poison<'a, P, A>(parser: P) where P: Parser<'a, A>
    requires
        stays_poisoned::<P, A>(parser),
    ensures
        stays_poisoned::<Loc<P>, Located<A>>(Loc { parser }),
{
    let located = Loc { parser };
    assert forall|state: State<'a>, result: ParseResult<'a, Located<A>>|
        state@.is_poisoned() && #[trigger] located.parses(state, result) implies poisoned_failure(
        state,
        result,
    ) by {
        match result {
            Ok((value, next)) => {
                assert(parser.parses(state, Ok((value.value, next))));
            },
            Err(failure) => {
                assert(parser.parses(state, Err(failure)));
            },
        }
    }
}

/// Repeating a parser one or more times fails on a poisoned state as the
/// parser does.
pub proof fn law_one_or_more_poison<'a, P, A>(parser: P) where P: Parser<'a, A>
    requires
        stays_poisoned::<P, A>(parser),
    ensures
        stays_poisoned::<OneOrMore<P>, Vec<A>>(OneOrMore { parser }),
{
    let many = OneOrMore { parser };
    assert forall|state: State<'a>, result: ParseResult<'a, Vec<A>>|
        state@.is_poisoned() && #[trigger] many.parses(state, result) implies poisoned_failure(
        state,
        result,
    ) by {
        match result {
            Ok((outputs, end)) => {
                let left = choose|left: State<'a>| #[trigger]
                    repeats::<P, A>(parser, state, outputs@, end, left);
                let states = choose|states: Seq<State<'a>>|
                    {
                        &&& #[trigger] run_of::<P, A>(parser, states, outputs@)
                        &&& states[0] == state
                        &&& states.last() == end
                    };
                let first = outputs@[0];
                assert(parser.parses(states[0], Ok((first, states[1]))));
            },
            Err((fail, after)) => {
                let left = choose|left: State<'a>|
                    {
                        &&& #[trigger] stops_at::<P, A>(parser, state, left)
                        &&& (fail, after@) == crate::parse::state::unexpected_outcome(
                            left@,
                            0,
                            None,
                            left.attempting,
                        )
                    };
                let inner = choose|inner: Fail| #[trigger] parser.parses(state, Err((inner, left)));
                assert(parser.parses(state, Err((inner, left))));
            },
        }
    }
}

/// A checked parser fails on a poisoned state where the parser under it
/// does, with `ConditionFailed` and the poisoned state it was given.
pub proof fn law_satisfies_poison<'a, P, A, F>(
    parser: P,
    predicate: F,
    state: State<'a>,
    result: ParseResult<'a, A>,
) where P: Parser<'a, A>, F: Fn(&A) -> bool
    requires
        stays_poisoned::<P, A>(parser),
        state@.is_poisoned(),
        (Satisfies { parser, predicate }).parses(state, result),
    ensures
        result == Err::<(A, State<'a>), (Fail, State<'a>)>(
            (condition_failed(state.attempting), state),
        ),
{
    match result {
        Ok((output, next)) => {
            assert(parser.parses(state, Ok((output, next))));
        },
        Err(_) => {},
    }
}

} // verus!
