use bumpalo::Bump;
use roc_core::parse::ast::Attempting;
use roc_core::parse::parser;
use roc_core::parse::parser::{
    and_then, attempt, loc, map_with_arena, optional, satisfies, val, Either, Parser,
};
use roc_core::parse::repeat::{one_or_more, sep_by0, sep_by1, zero_or_more};
use roc_core::parse::sequence::{
    and, either, one_of2, one_of3, one_of4, one_of5, one_of6, one_of7, one_of8, skip_first,
};
use roc_core::parse::state::{
    line_too_long, unexpected, unexpected_eof, Fail, FailReason, ParseResult, State,
};
use roc_core::parse::text::{char, string};
use roc_core::region::{Located, Region};

fn start(input: &str) -> State<'_> {
    State::new(input, Attempting::Module)
}

/// A parser for one space that indents, as whitespace at a line's start does.
fn space<'a>(_arena: &'a Bump, state: State<'a>) -> ParseResult<'a, ()> {
    if state.input.starts_with(' ') {
        match state.advance_spaces(1) {
            Ok(next) => Ok(((), next)),
            Err(failure) => Err(failure),
        }
    } else {
        Err(unexpected_eof(0, state.attempting, state))
    }
}

fn digit<'a>() -> impl Parser<'a, u32> {
    one_of2(
        one_of5(
            parser::map(char('0'), |_| 0u32),
            parser::map(char('1'), |_| 1u32),
            parser::map(char('2'), |_| 2u32),
            parser::map(char('3'), |_| 3u32),
            parser::map(char('4'), |_| 4u32),
        ),
        one_of5(
            parser::map(char('5'), |_| 5u32),
            parser::map(char('6'), |_| 6u32),
            parser::map(char('7'), |_| 7u32),
            parser::map(char('8'), |_| 8u32),
            parser::map(char('9'), |_| 9u32),
        ),
    )
}

fn integer<'a>() -> impl Parser<'a, u32> {
    parser::map(one_or_more(digit()), |digits: Vec<u32>| {
        digits.iter().fold(0u32, |sum, d| sum * 10 + d)
    })
}

#[test]
fn state_size() {
    // State should always be under 8 machine words, so it fits in a typical
    // cache line.
    assert!(std::mem::size_of::<State>() <= std::mem::size_of::<usize>() * 8);
}

#[test]
fn new_state_starts_at_origin() {
    let state = State::new("abc", Attempting::Def);
    assert_eq!(state.input, "abc");
    assert_eq!(state.line, 0);
    assert_eq!(state.column, 0);
    assert_eq!(state.indent_col, 1);
    assert!(state.is_indenting);
    assert_eq!(state.attempting, Attempting::Def);
}

#[test]
fn newline_resets_the_column() {
    let state = State {
        input: "\nrest",
        line: 4,
        column: 17,
        indent_col: 5,
        is_indenting: false,
        attempting: Attempting::Def,
    };
    let next = state.newline().unwrap();
    assert_eq!(next.input, "rest");
    assert_eq!(next.line, 5);
    assert_eq!(next.column, 0);
    assert_eq!(next.indent_col, 1);
    assert!(next.is_indenting);
    assert_eq!(next.attempting, Attempting::Def);
}

#[test]
fn newline_fails_on_the_last_line() {
    let state = State {
        input: "\n",
        line: u32::MAX,
        column: 3,
        indent_col: 1,
        is_indenting: false,
        attempting: Attempting::List,
    };
    let (fail, left) = state.newline().unwrap_err();
    assert_eq!(fail, Fail { attempting: Attempting::List, reason: FailReason::TooManyLines });
    assert_eq!(left, state);
    // The failure repeats: the line counter stays at its limit.
    assert!(left.newline().is_err());
}

#[test]
fn advance_without_indenting_stops_indenting() {
    let state = start("hello world");
    let next = state.advance_without_indenting(5).unwrap();
    assert_eq!(next.input, " world");
    assert_eq!(next.column, 5);
    assert_eq!(next.indent_col, 1);
    assert!(!next.is_indenting);
    assert_eq!(next.line, 0);
}

#[test]
fn advance_without_indenting_reaches_the_limit() {
    let state = State { column: 65530, ..start("abcdefgh") };
    let next = state.advance_without_indenting(5).unwrap();
    assert_eq!(next.column, 65535);
    let (fail, left) = state.advance_without_indenting(6).unwrap_err();
    assert_eq!(fail.reason, FailReason::LineTooLong(0));
    assert_eq!(fail.attempting, Attempting::Module);
    assert_eq!(left.column, 65535);
    assert_eq!(left.input, "abcdefgh");
}

#[test]
fn advance_without_indenting_survives_huge_quantities() {
    let state = State { column: 10, line: 7, ..start("abc") };
    let (fail, left) = state.advance_without_indenting(usize::MAX).unwrap_err();
    assert_eq!(fail.reason, FailReason::LineTooLong(7));
    assert_eq!(left.column, 65535);
}

#[test]
fn advance_spaces_indents_while_indenting() {
    let state = start("    x");
    let next = state.advance_spaces(4).unwrap();
    assert_eq!(next.input, "x");
    assert_eq!(next.column, 4);
    assert_eq!(next.indent_col, 5);
    assert!(next.is_indenting);
}

#[test]
fn advance_spaces_keeps_the_indent_after_text() {
    let state = start("ab  c").advance_without_indenting(2).unwrap();
    let next = state.advance_spaces(2).unwrap();
    assert_eq!(next.input, "c");
    assert_eq!(next.column, 4);
    assert_eq!(next.indent_col, 1);
    assert!(!next.is_indenting);
}

#[test]
fn advance_spaces_fails_past_the_limit() {
    let state = State { column: 65534, indent_col: 3, is_indenting: false, line: 2, ..start("   ") };
    let next = state.advance_spaces(1).unwrap();
    assert_eq!(next.column, 65535);
    let (fail, left) = state.advance_spaces(2).unwrap_err();
    assert_eq!(fail.reason, FailReason::LineTooLong(2));
    assert_eq!(left.column, 65535);
    assert_eq!(left.indent_col, 3);
    assert!(!left.is_indenting);
}

#[test]
fn advance_spaces_fails_when_the_indent_would_overflow() {
    let state = State { column: 65534, indent_col: 65535, ..start("  ") };
    let (fail, left) = state.advance_spaces(1).unwrap_err();
    assert_eq!(fail.reason, FailReason::LineTooLong(0));
    assert_eq!(left.column, 65535);
    assert!(left.is_indenting);
}

#[test]
fn line_too_long_poisons() {
    let state = State { line: 9, column: 12, ..start("rest") };
    let (fail, left) = line_too_long(Attempting::Record, state);
    assert_eq!(fail, Fail { attempting: Attempting::Record, reason: FailReason::LineTooLong(9) });
    assert_eq!(left.column, 65535);
    assert_eq!(left.input, "rest");
    assert_eq!(left.attempting, Attempting::Record);
    assert_eq!(left.line, 9);
}

#[test]
fn unexpected_reports_the_region() {
    let state = State { line: 3, column: 10, ..start("xyz") };
    let (fail, left) = unexpected('x', 2, state, Attempting::List);
    assert_eq!(
        fail,
        Fail {
            attempting: Attempting::List,
            reason: FailReason::Unexpected(
                'x',
                Region { start_line: 3, start_col: 10, end_line: 3, end_col: 12 },
            ),
        }
    );
    assert_eq!(left, state);
}

#[test]
fn unexpected_eof_reports_the_region() {
    let state = State { line: 1, column: 4, ..start("") };
    let (fail, left) = unexpected_eof(0, Attempting::Def, state);
    assert_eq!(
        fail,
        Fail {
            attempting: Attempting::Def,
            reason: FailReason::Eof(Region { start_line: 1, start_col: 4, end_line: 1, end_col: 4 }),
        }
    );
    assert_eq!(left, state);
}

#[test]
fn unexpected_at_the_limit_is_a_long_line() {
    let state = State { line: 6, column: 65534, ..start("x") };
    let (fail, left) = unexpected('x', 1, state, Attempting::List);
    assert_eq!(fail, Fail { attempting: Attempting::Module, reason: FailReason::LineTooLong(6) });
    assert_eq!(left.column, 65535);
    let (fail, _) = unexpected_eof(0, Attempting::List, left);
    assert_eq!(fail.reason, FailReason::LineTooLong(6));
}

#[test]
fn val_consumes_nothing() {
    let arena = Bump::new();
    let state = start("abc");
    assert_eq!(val(7u8).parse(&arena, state), Ok((7u8, state)));
}

#[test]
fn char_consumes_one_byte() {
    let arena = Bump::new();
    let (_, next) = char('a').parse(&arena, start("abc")).unwrap();
    assert_eq!(next.input, "bc");
    assert_eq!(next.column, 1);
    assert!(!next.is_indenting);
}

#[test]
fn char_reports_what_it_found() {
    let arena = Bump::new();
    let state = start("xbc");
    let (fail, left) = char('a').parse(&arena, state).unwrap_err();
    assert_eq!(
        fail,
        Fail {
            attempting: Attempting::Keyword,
            reason: FailReason::Unexpected(
                'x',
                Region { start_line: 0, start_col: 0, end_line: 0, end_col: 0 },
            ),
        }
    );
    assert_eq!(left, state);
}

#[test]
fn char_reports_a_wide_character() {
    let arena = Bump::new();
    let (fail, _) = char('a').parse(&arena, start("\u{e9}t\u{e9}")).unwrap_err();
    assert!(matches!(fail.reason, FailReason::Unexpected('\u{e9}', _)));
}

#[test]
fn char_fails_at_the_end() {
    let arena = Bump::new();
    let (fail, _) = char('a').parse(&arena, start("")).unwrap_err();
    assert_eq!(fail.attempting, Attempting::Keyword);
    assert!(matches!(fail.reason, FailReason::Eof(_)));
}

#[test]
fn string_consumes_its_text() {
    let arena = Bump::new();
    let (_, next) = string("when").parse(&arena, start("when x is")).unwrap();
    assert_eq!(next.input, " x is");
    assert_eq!(next.column, 4);
    assert!(!next.is_indenting);
}

#[test]
fn string_counts_bytes() {
    let arena = Bump::new();
    let (_, next) = string("\u{e9}t\u{e9}").parse(&arena, start("\u{e9}t\u{e9}!")).unwrap();
    assert_eq!(next.input, "!");
    assert_eq!(next.column, 5);
}

#[test]
fn string_fails_on_other_text() {
    let arena = Bump::new();
    let state = start("whence");
    let (fail, left) = string("when ").parse(&arena, state).unwrap_err();
    assert_eq!(fail.attempting, Attempting::Keyword);
    assert_eq!(
        fail.reason,
        FailReason::Eof(Region { start_line: 0, start_col: 0, end_line: 0, end_col: 0 })
    );
    assert_eq!(left, state);
    assert!(string("longer than the input").parse(&arena, start("long")).is_err());
}

#[test]
fn map_transforms_the_output() {
    let arena = Bump::new();
    let parser = parser::map(char('7'), |_| 7u64);
    let (value, next) = parser.parse(&arena, start("7!")).unwrap();
    assert_eq!(value, 7);
    assert_eq!(next.input, "!");
    assert!(parser.parse(&arena, start("8")).is_err());
}

#[test]
fn map_with_arena_hands_over_the_arena() {
    let arena = Bump::new();
    let parser = map_with_arena(integer(), |arena: &Bump, n: u32| &*arena.alloc(n + 1));
    let (value, _) = parser.parse(&arena, start("41")).unwrap();
    assert_eq!(*value, 42);
}

#[test]
fn and_then_chooses_the_next_parser() {
    let arena = Bump::new();
    let parser = and_then(digit(), |n: u32| if n == 1 { char('a') } else { char('b') });
    assert!(parser.parse(&arena, start("1a")).is_ok());
    assert!(parser.parse(&arena, start("2b")).is_ok());
    let (fail, left) = parser.parse(&arena, start("1b")).unwrap_err();
    assert!(matches!(fail.reason, FailReason::Unexpected('b', _)));
    assert_eq!(left.input, "b");
}

#[test]
fn attempt_sets_the_tag() {
    let arena = Bump::new();
    let parser = attempt(Attempting::NumberLiteral, val(()));
    let (_, next) = parser.parse(&arena, start("x")).unwrap();
    assert_eq!(next.attempting, Attempting::NumberLiteral);
    let failing = attempt(Attempting::NumberLiteral, one_or_more(char('1')));
    let (fail, _) = failing.parse(&arena, start("x")).unwrap_err();
    assert_eq!(fail.attempting, Attempting::NumberLiteral);
}

#[test]
fn loc_spans_what_was_parsed() {
    let arena = Bump::new();
    let state = State { line: 2, column: 6, ..start("123 rest") };
    let (located, next) = loc(integer()).parse(&arena, state).unwrap();
    assert_eq!(
        located,
        Located {
            region: Region { start_line: 2, start_col: 6, end_line: 2, end_col: 9 },
            value: 123,
        }
    );
    assert_eq!(next.column, 9);
    assert_eq!(next.line, 2);
    assert!(loc(integer()).parse(&arena, start("x")).is_err());
}

#[test]
fn satisfies_checks_the_output() {
    let arena = Bump::new();
    let even = satisfies(integer(), |n: &u32| n % 2 == 0);
    let (value, next) = even.parse(&arena, start("12;")).unwrap();
    assert_eq!(value, 12);
    assert_eq!(next.input, ";");
    let state = start("13;");
    let (fail, left) = even.parse(&arena, state).unwrap_err();
    assert_eq!(
        fail,
        Fail { attempting: Attempting::Module, reason: FailReason::ConditionFailed }
    );
    assert_eq!(left, state);
    let state = start("x");
    let (fail, left) = even.parse(&arena, state).unwrap_err();
    assert_eq!(fail.reason, FailReason::ConditionFailed);
    assert_eq!(left, state);
}

#[test]
fn optional_always_succeeds() {
    let arena = Bump::new();
    let parser = optional(integer());
    let (value, next) = parser.parse(&arena, start("5x")).unwrap();
    assert_eq!(value, Some(5));
    assert_eq!(next.input, "x");
    let state = start("x");
    assert_eq!(parser.parse(&arena, state), Ok((None, state)));
}

#[test]
fn optional_keeps_the_state_after_the_failure() {
    let arena = Bump::new();
    let parser = optional(and(char('a'), char('b')));
    let (value, next) = parser.parse(&arena, start("ac")).unwrap();
    assert_eq!(value, None);
    assert_eq!(next.input, "c");
    assert_eq!(next.column, 1);
}

#[test]
fn and_yields_both() {
    let arena = Bump::new();
    let parser = and(integer(), and(char('+'), integer()));
    let ((left, (_, right)), next) = parser.parse(&arena, start("12+30")).unwrap();
    assert_eq!((left, right), (12, 30));
    assert_eq!(next.input, "");
    assert_eq!(next.column, 5);
}

#[test]
fn and_blames_the_outer_production() {
    let arena = Bump::new();
    let parser = and(char('a'), attempt(Attempting::NumberLiteral, integer()));
    let (fail, left) = parser.parse(&arena, State::new("ax", Attempting::Def)).unwrap_err();
    assert_eq!(fail.attempting, Attempting::Def);
    assert!(matches!(fail.reason, FailReason::Eof(_)));
    assert_eq!(left.input, "x");
    let (fail, left) = parser.parse(&arena, State::new("b1", Attempting::Def)).unwrap_err();
    assert_eq!(fail.attempting, Attempting::Def);
    assert!(matches!(fail.reason, FailReason::Unexpected('b', _)));
    assert_eq!(left.input, "b1");
}

#[test]
fn skip_first_drops_the_first_output() {
    let arena = Bump::new();
    let parser = skip_first(char(','), integer());
    let (value, next) = parser.parse(&arena, start(",17]")).unwrap();
    assert_eq!(value, 17);
    assert_eq!(next.input, "]");
    let (fail, _) = parser.parse(&arena, State::new(",x", Attempting::List)).unwrap_err();
    assert_eq!(fail.attempting, Attempting::List);
    let (fail, _) = parser.parse(&arena, State::new("17", Attempting::List)).unwrap_err();
    assert_eq!(fail.attempting, Attempting::List);
    assert!(matches!(fail.reason, FailReason::Unexpected('1', _)));
}

#[test]
fn either_tries_the_second_after_the_first() {
    let arena = Bump::new();
    let parser = either(integer(), string("none"));
    assert_eq!(parser.parse(&arena, start("3")).unwrap().0, Either::First(3));
    assert_eq!(parser.parse(&arena, start("none")).unwrap().0, Either::Second(()));
    let (fail, _) = parser.parse(&arena, State::new("?", Attempting::Def)).unwrap_err();
    assert_eq!(fail.attempting, Attempting::Def);
    assert!(matches!(fail.reason, FailReason::Eof(_)));
}

#[test]
fn either_does_not_rewind() {
    let arena = Bump::new();
    // The first branch consumes `a` before it fails; the second starts there.
    let parser = either(and(char('a'), char('b')), char('c'));
    let (value, next) = parser.parse(&arena, start("ac")).unwrap();
    assert_eq!(value, Either::Second(()));
    assert_eq!(next.input, "");
    assert_eq!(next.column, 2);
}

#[test]
fn either_with_a_constant_always_succeeds() {
    let arena = Bump::new();
    let parser = either(integer(), val('d'));
    for input in ["", "x", "12", " 1", "\n"] {
        assert!(parser.parse(&arena, start(input)).is_ok());
    }
    let poisoned = State { column: 65535, ..start("1") };
    assert_eq!(parser.parse(&arena, poisoned).unwrap().0, Either::Second('d'));
}

#[test]
fn one_of_picks_the_first_success() {
    let arena = Bump::new();
    let a = || parser::map(char('a'), |_| 1u8);
    let b = || parser::map(char('b'), |_| 2u8);
    let c = || parser::map(char('c'), |_| 3u8);
    let d = || parser::map(char('d'), |_| 4u8);
    let e = || parser::map(char('e'), |_| 5u8);
    let f = || parser::map(char('f'), |_| 6u8);
    let g = || parser::map(char('g'), |_| 7u8);
    let h = || parser::map(char('h'), |_| 8u8);
    assert_eq!(one_of2(a(), b()).parse(&arena, start("b")).unwrap().0, 2);
    assert_eq!(one_of3(a(), b(), c()).parse(&arena, start("c")).unwrap().0, 3);
    assert_eq!(one_of4(a(), b(), c(), d()).parse(&arena, start("d")).unwrap().0, 4);
    assert_eq!(one_of5(a(), b(), c(), d(), e()).parse(&arena, start("e")).unwrap().0, 5);
    assert_eq!(one_of6(a(), b(), c(), d(), e(), f()).parse(&arena, start("f")).unwrap().0, 6);
    assert_eq!(one_of7(a(), b(), c(), d(), e(), f(), g()).parse(&arena, start("g")).unwrap().0, 7);
    let all = one_of8(a(), b(), c(), d(), e(), f(), g(), h());
    assert_eq!(all.parse(&arena, start("h")).unwrap().0, 8);
    assert_eq!(all.parse(&arena, start("a")).unwrap().0, 1);
    assert_eq!(all.parse(&arena, start("e")).unwrap().0, 5);
}

#[test]
fn one_of_blames_the_outer_production() {
    let arena = Bump::new();
    let parser = one_of3(
        attempt(Attempting::List, char('a')),
        attempt(Attempting::Record, char('b')),
        attempt(Attempting::Def, string("cd")),
    );
    let (fail, left) = parser.parse(&arena, State::new("ce", Attempting::Module)).unwrap_err();
    assert_eq!(fail.attempting, Attempting::Module);
    assert!(matches!(fail.reason, FailReason::Eof(_)));
    assert_eq!(left.attempting, Attempting::Def);
    let two = one_of2(char('a'), char('b'));
    let (fail, _) = two.parse(&arena, State::new("c", Attempting::List)).unwrap_err();
    assert_eq!(fail.attempting, Attempting::List);
    assert!(matches!(fail.reason, FailReason::Unexpected('c', _)));
}

#[test]
fn one_of_does_not_rewind() {
    let arena = Bump::new();
    let parser = one_of3(
        parser::map(and(char('a'), char('b')), |_| 1u8),
        parser::map(and(char('c'), char('d')), |_| 2u8),
        parser::map(char('e'), |_| 3u8),
    );
    let (value, next) = parser.parse(&arena, start("ace")).unwrap();
    assert_eq!(value, 3);
    assert_eq!(next.column, 3);
}

#[test]
fn zero_or_more_collects_in_order() {
    let arena = Bump::new();
    let (values, next) = zero_or_more(digit()).parse(&arena, start("3141x")).unwrap();
    assert_eq!(values, vec![3, 1, 4, 1]);
    assert_eq!(next.input, "x");
    assert_eq!(next.column, 4);
}

#[test]
fn zero_or_more_never_fails() {
    let arena = Bump::new();
    for input in ["", "x", "1", "12x", "\n"] {
        assert!(zero_or_more(digit()).parse(&arena, start(input)).is_ok());
    }
    let state = start("x");
    assert_eq!(zero_or_more(digit()).parse(&arena, state), Ok((vec![], state)));
}

#[test]
fn zero_or_more_ends_after_the_last_success() {
    let arena = Bump::new();
    // The third run consumes `a` before it fails; the result ends before it.
    let parser = zero_or_more(and(char('a'), char('b')));
    let (values, next) = parser.parse(&arena, start("ababac")).unwrap();
    assert_eq!(values.len(), 2);
    assert_eq!(next.input, "ac");
    assert_eq!(next.column, 4);
}

#[test]
fn one_or_more_with_one_match() {
    let arena = Bump::new();
    let (values, next) = one_or_more(digit()).parse(&arena, start("7x")).unwrap();
    assert_eq!(values, vec![7]);
    assert_eq!(next.input, "x");
}

#[test]
fn one_or_more_needs_a_match() {
    let arena = Bump::new();
    let state = State { line: 3, column: 8, ..State::new("x", Attempting::List) };
    let (fail, left) = one_or_more(digit()).parse(&arena, state).unwrap_err();
    assert_eq!(
        fail,
        Fail {
            attempting: Attempting::List,
            reason: FailReason::Eof(Region { start_line: 3, start_col: 8, end_line: 3, end_col: 8 }),
        }
    );
    assert_eq!(left, state);
}

#[test]
fn sep_by_reads_delimited_values() {
    let arena = Bump::new();
    let (values, next) = sep_by0(char(','), integer()).parse(&arena, start(",1,22,333]")).unwrap();
    assert_eq!(values, vec![1, 22, 333]);
    assert_eq!(next.input, "]");
    let (values, _) = sep_by0(char(','), integer()).parse(&arena, start("]")).unwrap();
    assert!(values.is_empty());
    let (values, _) = sep_by1(char(','), integer()).parse(&arena, start(",5")).unwrap();
    assert_eq!(values, vec![5]);
    assert!(sep_by1(char(','), integer()).parse(&arena, start("5")).is_err());
}

#[test]
fn integer_literal_forty_two() {
    let arena = Bump::new();
    let (value, next) = integer().parse(&arena, start("42")).unwrap();
    assert_eq!(value, 42);
    assert_eq!(next.line, 0);
    assert_eq!(next.column, 2);
    assert!(!next.is_indenting);
    assert_eq!(next.input, "");
}

#[test]
fn spaces_then_a_letter() {
    let arena = Bump::new();
    let (spaces, after) = zero_or_more(char(' ')).parse(&arena, start("   x")).unwrap();
    assert_eq!(spaces.len(), 3);
    let (_, next) = char('x').parse(&arena, after).unwrap();
    assert_eq!(next.column, 4);
    assert!(!next.is_indenting);
    // `char` consumes without indenting, so the indent column has not moved.
    assert_eq!(next.indent_col, 1);
}

#[test]
fn indenting_spaces_then_a_letter() {
    let arena = Bump::new();
    let (spaces, after) = zero_or_more(space).parse(&arena, start("   x")).unwrap();
    assert_eq!(spaces.len(), 3);
    assert_eq!(after.column, 3);
    assert!(after.is_indenting);
    let (_, next) = char('x').parse(&arena, after).unwrap();
    assert_eq!(next.column, 4);
    assert_eq!(next.indent_col, 4);
    assert!(!next.is_indenting);
}

#[test]
fn a_line_of_spaces_that_is_too_long() {
    let arena = Bump::new();
    let input = " ".repeat(65_600);
    let (spaces, after) = zero_or_more(char(' ')).parse(&arena, start(&input)).unwrap();
    assert_eq!(spaces.len(), 65_535);
    assert_eq!(after.column, 65_535);
    assert_eq!(after.input.len(), 65);
    let (fail, left) = char(' ').parse(&arena, after).unwrap_err();
    assert_eq!(fail.reason, FailReason::LineTooLong(0));
    assert_eq!(left.column, 65_535);
    let parser = and(zero_or_more(char(' ')), one_of2(string("x"), string(" ")));
    let (fail, left) = parser.parse(&arena, start(&input)).unwrap_err();
    assert_eq!(fail, Fail { attempting: Attempting::Module, reason: FailReason::LineTooLong(0) });
    assert_eq!(left.column, 65_535);
}

#[test]
fn poison_is_sticky() {
    let arena = Bump::new();
    let poisoned = State { line: 5, column: 65_535, ..start("a1,bc") };
    let expect_too_long = |result: Result<(), (Fail, State)>| {
        let (fail, left) = result.unwrap_err();
        assert_eq!(fail.reason, FailReason::LineTooLong(5));
        assert_eq!(left.column, 65_535);
    };
    expect_too_long(char('a').parse(&arena, poisoned).map(|_| ()));
    expect_too_long(char('z').parse(&arena, poisoned).map(|_| ()));
    expect_too_long(string("a1").parse(&arena, poisoned).map(|_| ()));
    expect_too_long(and(char('a'), digit()).parse(&arena, poisoned).map(|_| ()));
    expect_too_long(skip_first(char('a'), digit()).parse(&arena, poisoned).map(|_| ()));
    expect_too_long(either(char('a'), digit()).parse(&arena, poisoned).map(|_| ()));
    expect_too_long(one_of3(char('x'), char('a'), string("a1")).parse(&arena, poisoned).map(|_| ()));
    expect_too_long(one_or_more(char('a')).parse(&arena, poisoned).map(|_| ()));
    expect_too_long(loc(char('a')).parse(&arena, poisoned).map(|_| ()));
    expect_too_long(parser::map(char('a'), |_| 1).parse(&arena, poisoned).map(|_| ()));
    expect_too_long(attempt(Attempting::Def, char('a')).parse(&arena, poisoned).map(|_| ()));
    let (fail, left) = satisfies(char('a'), |_| true).parse(&arena, poisoned).unwrap_err();
    assert_eq!(fail.reason, FailReason::ConditionFailed);
    assert_eq!(left, poisoned);
}

#[test]
fn check_tells_a_well_formed_state() {
    assert!(start("abc").check());
    assert!(State { column: 3, indent_col: 4, ..start("abc") }.check());
    assert!(State { column: 3, indent_col: 0, ..start("abc") }.check());
    assert!(!State { column: 3, indent_col: 5, ..start("abc") }.check());
    assert!(State { column: 65535, indent_col: 65535, ..start("abc") }.check());
    let next = start("  ab").advance_spaces(2).unwrap();
    assert!(next.check());
    assert!(next.advance_without_indenting(2).unwrap().check());
}
