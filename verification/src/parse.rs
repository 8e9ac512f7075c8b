//! Parsers for a value and for each of its forms, from the start of a text.
//!
//! Each hands back the value and the text behind it; none asks that this
//! text be empty.

use vstd::prelude::*;
use vstd::string::StrSliceExecFns;
use crate::descent::{constructor_from, dict_from, list_from, set_from, tuple_from, value_from};
use crate::error::ParseError;
use crate::grammar::{
    bool_at, constructor_at, dict_at, float_at, identifier_at, int_at, list_at, number_starts,
    set_at, string_at, symbol_at, tuple_at, value_at,
};
use crate::scan::{bool_from, float_from, int_from, string_from, symbol_from};
use crate::sound::{
    fails_within, lemma_constructor_sound, lemma_dict_sound, lemma_identifier_sound,
    lemma_number_bounds, lemma_sequence_sound, lemma_string_close_fails, lemma_string_sound,
    lemma_value_sound, well_formed,
};
use crate::text::chars_of;
use crate::value::{Tree, Value};

verus! {

/// Whether a parser found in `input` what the grammar says: the value and
/// the text behind it, or the failure.
pub open spec fn parsed(
    input: Seq<char>,
    found: Result<(&str, Value), ParseError>,
    wanted: Result<(Tree, int), ParseError>,
) -> bool {
    match wanted {
        Ok((tree, end)) => found matches Ok((rest, value)) && value@ == tree && rest@
            == input.subrange(end, input.len() as int),
        Err(e) => found matches Err(f) && f == e,
    }
}

/// Whether what a parser found in `input` is sound: a value is well formed,
/// and a failure lies within the text.
pub open spec fn found_sound(input: Seq<char>, found: Result<(&str, Value), ParseError>) -> bool {
    match found {
        Ok((_, value)) => well_formed(value@),
        Err(e) => fails_within(input, 0, e),
    }
}

/// Puts the text behind a value in the place of the position behind it.
fn with_rest<'a>(
    input: &'a str,
    chars: &Vec<char>,
    found: Result<(Value, usize), ParseError>,
) -> (out: Result<(&'a str, Value), ParseError>)
    requires
        chars@ == input@,
        found matches Ok((_, end)) ==> end <= chars.len(),
    ensures
        match found {
            Ok((value, end)) => out matches Ok((rest, same)) && same == value && rest@
                == input@.subrange(end as int, input@.len() as int),
            Err(e) => out matches Err(f) && f == e,
        },
{
    match found {
        Ok((value, end)) => Ok((input.substring_char(end, chars.len()), value)),
        Err(e) => Err(e),
    }
}

/// Parses a boolean, `True` or `False`, at the start of `input`.
pub fn parse_bool<'a>(input: &'a str) -> (found: Result<(&'a str, Value), ParseError>)
    ensures
        parsed(input@, found, bool_at(input@, 0)),
        found_sound(input@, found),
{
    let chars = chars_of(input);
    with_rest(input, &chars, bool_from(&chars, 0))
}

/// Parses a quoted string at the start of `input`. The value holds the
/// string as it is written, quotes and escapes included.
pub fn parse_str<'a>(input: &'a str) -> (found: Result<(&'a str, Value), ParseError>)
    ensures
        parsed(input@, found, string_at(input@, 0)),
        found_sound(input@, found),
{
    let chars = chars_of(input);
    proof {
        if input@.len() > 0 {
            lemma_string_close_fails(input@, 1, input@[0]);
        }
        if string_at(input@, 0) is Ok {
            lemma_string_sound(input@, 0);
        }
    }
    with_rest(input, &chars, string_from(&chars, 0))
}

/// Parses a number at the start of `input` as a float.
pub fn parse_float<'a>(input: &'a str) -> (found: Result<(&'a str, Value), ParseError>)
    ensures
        parsed(input@, found, float_at(input@, 0)),
        found_sound(input@, found),
{
    let chars = chars_of(input);
    with_rest(input, &chars, float_from(&chars, 0))
}

/// Parses an integer at the start of `input`: a number without fraction and
/// exponent that fits in 64 bits.
pub fn parse_int<'a>(input: &'a str) -> (found: Result<(&'a str, Value), ParseError>)
    ensures
        parsed(input@, found, int_at(input@, 0)),
        found_sound(input@, found),
{
    let chars = chars_of(input);
    proof {
        if number_starts(input@, 0) {
            lemma_number_bounds(input@, 0);
        }
    }
    with_rest(input, &chars, int_from(&chars, 0))
}

/// Parses a list, `[..]`, at the start of `input`.
pub fn parse_list<'a>(input: &'a str) -> (found: Result<(&'a str, Value), ParseError>)
    ensures
        parsed(input@, found, list_at(input@, 0)),
        found_sound(input@, found),
{
    let chars = chars_of(input);
    proof {
        lemma_sequence_sound(input@, 0, '[', ']');
    }
    with_rest(input, &chars, list_from(&chars, 0))
}

/// Parses a tuple, `(..)`, at the start of `input`.
pub fn parse_tuple<'a>(input: &'a str) -> (found: Result<(&'a str, Value), ParseError>)
    ensures
        parsed(input@, found, tuple_at(input@, 0)),
        found_sound(input@, found),
{
    let chars = chars_of(input);
    proof {
        lemma_sequence_sound(input@, 0, '(', ')');
    }
    with_rest(input, &chars, tuple_from(&chars, 0))
}

/// Parses a set, `{..}`, at the start of `input`. Empty braces are an empty
/// set here.
pub fn parse_set<'a>(input: &'a str) -> (found: Result<(&'a str, Value), ParseError>)
    ensures
        parsed(input@, found, set_at(input@, 0)),
        found_sound(input@, found),
{
    let chars = chars_of(input);
    proof {
        lemma_sequence_sound(input@, 0, '{', '}');
    }
    with_rest(input, &chars, set_from(&chars, 0))
}

/// Parses a dictionary, `{key: value, ..}`, at the start of `input`.
pub fn parse_dict<'a>(input: &'a str) -> (found: Result<(&'a str, Value), ParseError>)
    ensures
        parsed(input@, found, dict_at(input@, 0)),
        found_sound(input@, found),
{
    let chars = chars_of(input);
    proof {
        lemma_dict_sound(input@, 0);
    }
    with_rest(input, &chars, dict_from(&chars, 0))
}

/// Parses a symbol, an identifier that no parenthesis follows, at the start
/// of `input`.
pub fn parse_symbol<'a>(input: &'a str) -> (found: Result<(&'a str, Value), ParseError>)
    ensures
        parsed(input@, found, symbol_at(input@, 0)),
        found_sound(input@, found),
{
    let chars = chars_of(input);
    proof {
        if identifier_at(input@, 0) is Ok {
            lemma_identifier_sound(input@, 0);
        }
    }
    with_rest(input, &chars, symbol_from(&chars, 0))
}

/// Parses a constructor, `Name(key=value, ..)`, at the start of `input`.
pub fn parse_constructor<'a>(input: &'a str) -> (found: Result<(&'a str, Value), ParseError>)
    ensures
        parsed(input@, found, constructor_at(input@, 0)),
        found_sound(input@, found),
{
    let chars = chars_of(input);
    proof {
        lemma_constructor_sound(input@, 0);
    }
    with_rest(input, &chars, constructor_from(&chars, 0))
}

/// Parses a value at the start of `input`.
pub fn parse_value<'a>(input: &'a str) -> (found: Result<(&'a str, Value), ParseError>)
    ensures
        parsed(input@, found, value_at(input@, 0)),
        found_sound(input@, found),
{
    let chars = chars_of(input);
    proof {
        lemma_value_sound(input@, 0);
    }
    with_rest(input, &chars, value_from(&chars, 0))
}

impl Value {
    /// Parses the value at the start of `input` and lets go of the text
    /// behind it.
    pub fn try_from(input: &str) -> (found: Result<Value, ParseError>)
        ensures
            match value_at(input@, 0) {
                Ok((tree, _)) => found matches Ok(value) && value@ == tree,
                Err(e) => found matches Err(f) && f == e,
            },
            found matches Ok(value) ==> well_formed(value@),
            found matches Err(e) ==> fails_within(input@, 0, e),
    {
        match parse_value(input) {
            Ok((_, value)) => Ok(value),
            Err(e) => Err(e),
        }
    }
}

} // verus!
