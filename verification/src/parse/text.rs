//! The parsers that read text: one character, or a fixed string.

use vstd::prelude::*;
use vstd::string::*;
use vstd::utf8::*;
use vstd::slice::*;
use bumpalo::Bump;
use crate::parse::ast::Attempting;
use crate::parse::parser::Parser;
use crate::parse::state::{
    too_long_fail, unexpected, unexpected_eof, unexpected_outcome, ParseResult, State, MAX_COLUMN,
};

verus! {

/// The first character of a UTF-8 byte sequence that is not empty.
pub open spec fn first_char(bytes: Seq<u8>) -> char {
    decode_first_scalar(bytes) as char
}

/// Whether `result` is what consuming `n` bytes of text from `state` gives:
/// the state after them, or the failure for a line that grew too long.
pub open spec fn consumes<'a>(state: State<'a>, n: int, result: ParseResult<'a, ()>) -> bool {
    match result {
        Ok((_, next)) => {
            &&& state.column + n <= MAX_COLUMN
            &&& next@ == state@.after_text(n)
        },
        Err((fail, left)) => {
            &&& state.column + n > MAX_COLUMN
            &&& fail == too_long_fail(state.line, state.attempting)
            &&& left@ == state@.too_long(state.attempting)
        },
    }
}

/// Whether `result` is the failure that reporting `found` on `state` gives,
/// under the tag `Keyword`.
pub open spec fn rejects<'a>(state: State<'a>, found: Option<char>, result: ParseResult<'a, ()>) -> bool {
    result matches Err((fail, left)) && (fail, left@) == unexpected_outcome(
        state@,
        0,
        found,
        Attempting::Keyword,
    )
}

/// The text of a string has no bytes exactly when it has no characters, and
/// where its first character is ASCII the text can be cut after one byte.
pub proof fn lemma_first_char(chars: Seq<char>)
    ensures
        encode_utf8(chars).len() == 0 <==> chars.len() == 0,
        chars.len() > 0 ==> first_char(encode_utf8(chars)) == chars[0],
        chars.len() > 0 && (chars[0] as u32) < 128 ==> is_char_boundary(encode_utf8(chars), 1),
{
    broadcast use encode_utf8_valid_utf8;
    if chars.len() > 0 {
        let bytes = encode_utf8(chars);
        encode_utf8_first_scalar(chars);
        char_is_scalar(chars[0]);
        char_u32_cast(chars[0], chars[0] as u32);
        assert(encode_scalar(chars[0] as u32).len() >= 1);
        assert(bytes.len() >= 1);
        if (chars[0] as u32) < 128 {
            assert(has_width_1_encoding(chars[0] as u32));
            assert(length_of_first_scalar(bytes) == 1);
            assert(pop_first_scalar(bytes) =~= encode_utf8(chars.drop_first()));
            assert(valid_utf8(pop_first_scalar(bytes)));
            assert(is_char_boundary(pop_first_scalar(bytes), 0));
            assert(is_char_boundary(bytes, 1));
        }
    }
}

/// The parser made by [`char`].
pub struct Char {
    pub expected: char,
}

impl<'a> Parser<'a, ()> for Char {
    /// The expected character is ASCII, so that it is one byte of input.
    open spec fn wf(&self) -> bool {
        (self.expected as u32) < 128
    }

    open spec fn parses(&self, state: State<'a>, result: ParseResult<'a, ()>) -> bool {
        let input = state@.input;
        if input.len() == 0 {
            rejects(state, None, result)
        } else if first_char(input) == self.expected {
            consumes(state, 1, result)
        } else {
            rejects(state, Some(first_char(input)), result)
        }
    }

    fn parse(&self, arena: &'a Bump, state: State<'a>) -> (result: ParseResult<'a, ()>) {
        proof {
            lemma_first_char(state.input@);
        }
        if state.input.is_empty() {
            Err(unexpected_eof(0, Attempting::Keyword, state))
        } else {
            let actual = state.input.get_char(0);
            if actual == self.expected {
                match state.advance_without_indenting(1) {
                    Ok(next) => Ok(((), next)),
                    Err(failure) => Err(failure),
                }
            } else {
                Err(unexpected(actual, 0, state, Attempting::Keyword))
            }
        }
    }
}

/// A parser for the one character `expected`, which must be ASCII. It
/// consumes one byte without indenting. On another character it fails with
/// `Unexpected`, at the end of the input with `Eof`.
pub fn char(expected: char) -> (parser: Char)
    ensures
        parser.expected == expected,
{
    Char { expected }
}

/// Whether `hay` begins with the bytes of `needle`.
pub open spec fn starts_with(hay: Seq<u8>, needle: Seq<u8>) -> bool {
    needle.len() <= hay.len() && hay.subrange(0, needle.len() as int) == needle
}

/// Compares the front of `hay` with `needle`, byte by byte.
fn bytes_start_with(hay: &[u8], needle: &[u8]) -> (result: bool)
    ensures
        result == starts_with(hay@, needle@),
{
    if needle.len() > hay.len() {
        return false;
    }
    let mut i: usize = 0;
    while i < needle.len()
        invariant
            i <= needle.len() <= hay.len(),
            forall|j: int| 0 <= j < i ==> hay@[j] == needle@[j],
        decreases needle.len() - i,
    {
        if hay[i] != needle[i] {
            assert(hay@.subrange(0, needle@.len() as int)[i as int] != needle@[i as int]);
            return false;
        }
        i += 1;
    }
    assert(hay@.subrange(0, needle@.len() as int) =~= needle@);
    true
}

/// The parser made by [`string`].
pub struct Literal {
    pub text: &'static str,
}

impl<'a> Parser<'a, ()> for Literal {
    /// The text holds no line break: only the column is advanced.
    open spec fn wf(&self) -> bool {
        !self.text.spec_bytes().contains(10u8)
    }

    open spec fn parses(&self, state: State<'a>, result: ParseResult<'a, ()>) -> bool {
        let input = state@.input;
        let text = self.text.spec_bytes();
        if starts_with(input, text) && is_char_boundary(input, text.len() as int) {
            consumes(state, text.len() as int, result)
        } else {
            rejects(state, None, result)
        }
    }

    fn parse(&self, arena: &'a Bump, state: State<'a>) -> (result: ParseResult<'a, ()>) {
        let text = self.text.as_bytes();
        let len = text.len();
        if bytes_start_with(state.input.as_bytes(), text) && state.input.is_char_boundary(len) {
            match state.advance_without_indenting(len) {
                Ok(next) => Ok(((), next)),
                Err(failure) => Err(failure),
            }
        } else {
            Err(unexpected_eof(0, Attempting::Keyword, state))
        }
    }
}

/// A parser for the fixed `text`, which must hold no line break. It
/// consumes the bytes of the text without indenting; where the input does
/// not begin with them, it fails with `Eof`.
pub fn string(text: &'static str) -> (parser: Literal)
    ensures
        parser.text == text,
{
    Literal { text }
}

} // verus!
