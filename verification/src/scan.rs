//! Scanners for the parts of the grammar that hold no nested value: runs of
//! characters, numbers, booleans, strings and identifiers.

use vstd::prelude::*;
use crate::error::{ErrorKind, ParseError};
use crate::grammar::{
    bool_at, char_at, digits_end, digits_value, failure, float_at, identifier_at, identifier_end,
    int_at, integer_end, is_ascii_letter, is_digit, is_escapable, is_identifier_part,
    is_identifier_start, is_space, keyword_at, lemma_digits_end_bounds, magnitude_start, name_at,
    number_at, number_end, number_starts, skip_spaces, string_at, string_close, stuck, symbol_at,
    word_at,
};
use crate::text::string_of;
use crate::trusted::read_double;
use crate::value::{Tree, Value};

verus! {

/// Whether what a parser found is what the grammar says: the same value and
/// position, or the same failure.
pub open spec fn agrees(
    found: Result<(Value, usize), ParseError>,
    wanted: Result<(Tree, int), ParseError>,
) -> bool {
    match wanted {
        Ok((tree, end)) => found matches Ok((value, behind)) && value@ == tree && behind == end,
        Err(e) => found matches Err(f) && f == e,
    }
}

/// The failure of the given kind at `pos`.
pub fn fail(kind: ErrorKind, pos: usize) -> (e: ParseError)
    ensures
        e == failure(kind, pos as int),
{
    ParseError { kind, position: pos }
}

/// The failure at `pos`, where something else was due.
pub fn stuck_at(chars: &Vec<char>, pos: usize) -> (e: ParseError)
    ensures
        e == stuck(chars@, pos as int),
{
    if pos >= chars.len() {
        fail(ErrorKind::UnterminatedLiteral, pos)
    } else {
        fail(ErrorKind::UnexpectedCharacter, pos)
    }
}

/// Whether the character at `pos` is `c`.
pub fn has_char(chars: &Vec<char>, pos: usize, c: char) -> (b: bool)
    ensures
        b == char_at(chars@, pos as int, c),
{
    pos < chars.len() && chars[pos] == c
}

/// Whether `c` is a decimal digit.
pub fn digit(c: char) -> (b: bool)
    ensures
        b == is_digit(c),
{
    '0' <= c && c <= '9'
}

/// Whether `c` is a blank.
pub fn space(c: char) -> (b: bool)
    ensures
        b == is_space(c),
{
    c == ' ' || c == '\t' || c == '\n' || c == '\r'
}

/// Whether `c` is a letter of the ASCII alphabet.
pub fn ascii_letter(c: char) -> (b: bool)
    ensures
        b == is_ascii_letter(c),
{
    ('a' <= c && c <= 'z') || ('A' <= c && c <= 'Z')
}

/// Whether an identifier may start with `c`.
pub fn identifier_start(c: char) -> (b: bool)
    ensures
        b == is_identifier_start(c),
{
    c == '_' || if c <= '\u{7f}' {
        ascii_letter(c)
    } else {
        c.is_alphabetic()
    }
}

/// Whether an identifier may go on with `c`.
pub fn identifier_part(c: char) -> (b: bool)
    ensures
        b == is_identifier_part(c),
{
    c == '_' || if c <= '\u{7f}' {
        ascii_letter(c) || digit(c)
    } else {
        c.is_alphanumeric()
    }
}

/// Whether a backslash may be followed by `c` inside a string.
pub fn escapable(c: char) -> (b: bool)
    ensures
        b == is_escapable(c),
{
    c == '\'' || c == '"' || c == '\\' || c == 'a' || c == 'b' || c == 'f' || c == 'n' || c == 'N'
        || c == 'r' || c == 't' || c == 'u' || c == 'U' || c == 'v' || c == 'x' || ('0' <= c && c
        <= '7')
}

/// The position behind the blanks at `pos`.
pub fn spaces_end(chars: &Vec<char>, pos: usize) -> (end: usize)
    requires
        pos <= chars.len(),
    ensures
        end == skip_spaces(chars@, pos as int),
        pos <= end <= chars.len(),
{
    let mut i: usize = pos;
    while i < chars.len() && space(chars[i])
        invariant
            pos <= i <= chars.len(),
            skip_spaces(chars@, pos as int) == skip_spaces(chars@, i as int),
        decreases chars.len() - i,
    {
        i += 1;
    }
    i
}

/// A separator at `pos`: the character `mark` and the blanks behind it. Hands
/// back the position behind them, or nothing where `mark` does not stand at
/// `pos`.
fn separator(chars: &Vec<char>, pos: usize, mark: char) -> (next: Option<usize>)
    requires
        pos <= chars.len(),
    ensures
        match next {
            Some(n) => char_at(chars@, pos as int, mark) && n == skip_spaces(chars@, pos + 1)
                && pos < n <= chars.len(),
            None => !char_at(chars@, pos as int, mark),
        },
{
    if has_char(chars, pos, mark) {
        Some(spaces_end(chars, pos + 1))
    } else {
        None
    }
}

/// A comma at `pos` and the blanks behind it: the position behind them, or
/// nothing where no comma stands at `pos`.
pub fn comma_space(chars: &Vec<char>, pos: usize) -> (next: Option<usize>)
    requires
        pos <= chars.len(),
    ensures
        match next {
            Some(n) => char_at(chars@, pos as int, ',') && n == skip_spaces(chars@, pos + 1)
                && pos < n <= chars.len(),
            None => !char_at(chars@, pos as int, ','),
        },
{
    separator(chars, pos, ',')
}

/// A colon at `pos` and the blanks behind it: the position behind them, or
/// nothing where no colon stands at `pos`.
pub fn colon_space(chars: &Vec<char>, pos: usize) -> (next: Option<usize>)
    requires
        pos <= chars.len(),
    ensures
        match next {
            Some(n) => char_at(chars@, pos as int, ':') && n == skip_spaces(chars@, pos + 1)
                && pos < n <= chars.len(),
            None => !char_at(chars@, pos as int, ':'),
        },
{
    separator(chars, pos, ':')
}

/// The position behind the digits at `pos`.
pub fn scan_digits(chars: &Vec<char>, pos: usize) -> (end: usize)
    requires
        pos <= chars.len(),
    ensures
        end == digits_end(chars@, pos as int),
        pos <= end <= chars.len(),
        forall|i: int| pos <= i < end ==> is_digit(#[trigger] chars@[i]),
{
    let mut i: usize = pos;
    while i < chars.len() && digit(chars[i])
        invariant
            pos <= i <= chars.len(),
            digits_end(chars@, pos as int) == digits_end(chars@, i as int),
            forall|j: int| pos <= j < i ==> is_digit(#[trigger] chars@[j]),
        decreases chars.len() - i,
    {
        i += 1;
    }
    i
}

/// The position behind the identifier characters at `pos`.
pub fn scan_identifier_parts(chars: &Vec<char>, pos: usize) -> (end: usize)
    requires
        pos <= chars.len(),
    ensures
        end == identifier_end(chars@, pos as int),
        pos <= end <= chars.len(),
{
    let mut i: usize = pos;
    while i < chars.len() && identifier_part(chars[i])
        invariant
            pos <= i <= chars.len(),
            identifier_end(chars@, pos as int) == identifier_end(chars@, i as int),
        decreases chars.len() - i,
    {
        i += 1;
    }
    i
}

// ---------------------------------------------------------------------------
// Numbers
// ---------------------------------------------------------------------------

/// The largest magnitude that a 64-bit integer can have, that of `i64::MIN`.
pub const MAX_MAGNITUDE: u64 = 0x8000_0000_0000_0000;

/// The number that digits denote does not shrink when digits are added.
pub proof fn lemma_digits_value_grows(s: Seq<char>, from: int, mid: int, to: int)
    requires
        0 <= from <= mid <= to <= s.len(),
        forall|i: int| from <= i < to ==> is_digit(#[trigger] s[i]),
    ensures
        digits_value(s.subrange(from, mid)) <= digits_value(s.subrange(from, to)),
    decreases to - mid,
{
    if mid < to {
        lemma_digits_value_grows(s, from, mid, to - 1);
        assert(s.subrange(from, to).drop_last() == s.subrange(from, to - 1));
    }
}

/// The number that the digits `chars[from..to]` denote, unless it is larger
/// than the magnitude of any 64-bit integer.
pub fn magnitude(chars: &Vec<char>, from: usize, to: usize) -> (m: Option<u64>)
    requires
        from <= to <= chars.len(),
        forall|i: int| from <= i < to ==> is_digit(#[trigger] chars@[i]),
    ensures
        match m {
            Some(v) => v == digits_value(chars@.subrange(from as int, to as int)) && v
                <= MAX_MAGNITUDE,
            None => digits_value(chars@.subrange(from as int, to as int)) > MAX_MAGNITUDE,
        },
{
    let mut acc: u64 = 0;
    let mut i: usize = from;
    while i < to
        invariant
            from <= i <= to <= chars.len(),
            forall|j: int| from <= j < to ==> is_digit(#[trigger] chars@[j]),
            acc == digits_value(chars@.subrange(from as int, i as int)),
            acc <= MAX_MAGNITUDE,
        decreases to - i,
    {
        let d: u128 = (chars[i] as u32 - '0' as u32) as u128;
        let next: u128 = 10 * (acc as u128) + d;
        proof {
            assert(chars@.subrange(from as int, i + 1).drop_last() == chars@.subrange(
                from as int,
                i as int,
            ));
            assert(next == digits_value(chars@.subrange(from as int, i + 1)));
        }
        if next > MAX_MAGNITUDE as u128 {
            proof {
                lemma_digits_value_grows(chars@, from as int, i + 1, to as int);
            }
            return None;
        }
        acc = next as u64;
        i += 1;
    }
    Some(acc)
}

/// Whether a number starts at `pos`.
pub fn number_starts_at(chars: &Vec<char>, pos: usize) -> (b: bool)
    requires
        pos <= chars.len(),
    ensures
        b == number_starts(chars@, pos as int),
{
    let first = if has_char(chars, pos, '-') {
        pos + 1
    } else {
        pos
    };
    first < chars.len() && digit(chars[first])
}

/// The position behind the number at `pos`, and the position behind its sign
/// and integer digits.
pub fn scan_number(chars: &Vec<char>, pos: usize) -> (ends: (usize, usize))
    requires
        pos <= chars.len(),
        number_starts(chars@, pos as int),
    ensures
        ends.0 == integer_end(chars@, pos as int),
        ends.1 == number_end(chars@, pos as int),
        pos < ends.0 <= ends.1 <= chars.len(),
        forall|i: int|
            magnitude_start(chars@, pos as int) <= i < ends.0 ==> is_digit(#[trigger] chars@[i]),
{
    let start = if has_char(chars, pos, '-') {
        pos + 1
    } else {
        pos
    };
    let whole = scan_digits(chars, start);
    proof {
        lemma_digits_end_bounds(chars@, start + 1);
    }
    let fraction = if has_char(chars, whole, '.') {
        scan_digits(chars, whole + 1)
    } else {
        whole
    };
    let mut end = fraction;
    if has_char(chars, fraction, 'e') || has_char(chars, fraction, 'E') {
        let digits = if has_char(chars, fraction + 1, '+') || has_char(chars, fraction + 1, '-') {
            fraction + 2
        } else {
            fraction + 1
        };
        if digits < chars.len() && digit(chars[digits]) {
            end = scan_digits(chars, digits);
        }
    }
    (whole, end)
}

/// Parses an integer at `pos`.
pub fn int_from(chars: &Vec<char>, pos: usize) -> (found: Result<(Value, usize), ParseError>)
    requires
        pos <= chars.len(),
    ensures
        agrees(found, int_at(chars@, pos as int)),
        found matches Ok((_, end)) ==> pos < end <= chars.len(),
{
    if !number_starts_at(chars, pos) {
        return Err(fail(ErrorKind::UnexpectedCharacter, pos));
    }
    let negative = has_char(chars, pos, '-');
    let start = if negative {
        pos + 1
    } else {
        pos
    };
    let (whole, end) = scan_number(chars, pos);
    if end != whole {
        return Err(fail(ErrorKind::UnexpectedCharacter, whole));
    }
    match magnitude(chars, start, whole) {
        None => Err(fail(ErrorKind::UnexpectedCharacter, pos)),
        Some(m) => {
            if negative {
                if m == MAX_MAGNITUDE {
                    Ok((Value::Int(i64::MIN), whole))
                } else {
                    Ok((Value::Int(-(m as i64)), whole))
                }
            } else if m > i64::MAX as u64 {
                Err(fail(ErrorKind::UnexpectedCharacter, pos))
            } else {
                Ok((Value::Int(m as i64), whole))
            }
        },
    }
}

/// Parses a float at `pos`.
pub fn float_from(chars: &Vec<char>, pos: usize) -> (found: Result<(Value, usize), ParseError>)
    requires
        pos <= chars.len(),
    ensures
        agrees(found, float_at(chars@, pos as int)),
        found matches Ok((_, end)) ==> pos < end <= chars.len(),
{
    if !number_starts_at(chars, pos) {
        return Err(fail(ErrorKind::UnexpectedCharacter, pos));
    }
    let (_, end) = scan_number(chars, pos);
    let text = string_of(chars, pos, end);
    match read_double(text.as_str()) {
        Some((bits, rest)) => {
            if rest.as_str().is_empty() {
                Ok((Value::Float(bits), end))
            } else {
                Err(fail(ErrorKind::UnexpectedCharacter, pos))
            }
        },
        None => Err(fail(ErrorKind::UnexpectedCharacter, pos)),
    }
}

/// Parses a number at `pos`.
pub fn number_from(chars: &Vec<char>, pos: usize) -> (found: Result<(Value, usize), ParseError>)
    requires
        pos <= chars.len(),
    ensures
        agrees(found, number_at(chars@, pos as int)),
        found matches Ok((_, end)) ==> pos < end <= chars.len(),
{
    match int_from(chars, pos) {
        Ok(found) => Ok(found),
        Err(_) => float_from(chars, pos),
    }
}

// ---------------------------------------------------------------------------
// Booleans, strings, identifiers
// ---------------------------------------------------------------------------

/// Whether the word `word`, of four or five characters, stands at `pos`.
fn has_word(chars: &Vec<char>, pos: usize, word: [char; 5], length: usize) -> (b: bool)
    requires
        pos <= chars.len(),
        4 <= length <= 5,
    ensures
        b == word_at(chars@, pos as int, word@.take(length as int)),
{
    let left = chars.len() - pos;
    let ghost w = word@.take(length as int);
    if left < length {
        return false;
    }
    let mut i: usize = 0;
    while i < length
        invariant
            i <= length <= 5,
            pos + length <= chars.len(),
            w == word@.take(length as int),
            forall|j: int| 0 <= j < i ==> chars@[pos + j] == w[j],
        decreases length - i,
    {
        if chars[pos + i] != word[i] {
            proof {
                if word_at(chars@, pos as int, w) {
                    assert(chars@.subrange(pos as int, pos + w.len())[i as int] == w[i as int]);
                }
            }
            return false;
        }
        i += 1;
    }
    assert(chars@.subrange(pos as int, pos + w.len()) =~= w);
    true
}

/// Whether the keyword `word`, of four or five characters, stands at `pos`.
fn has_keyword(chars: &Vec<char>, pos: usize, word: [char; 5], length: usize) -> (b: bool)
    requires
        pos <= chars.len(),
        4 <= length <= 5,
    ensures
        b == keyword_at(chars@, pos as int, word@.take(length as int)),
{
    if !has_word(chars, pos, word, length) {
        return false;
    }
    let behind = pos + length;
    !(behind < chars.len() && identifier_part(chars[behind]))
}

/// Parses a boolean at `pos`.
pub fn bool_from(chars: &Vec<char>, pos: usize) -> (found: Result<(Value, usize), ParseError>)
    requires
        pos <= chars.len(),
    ensures
        agrees(found, bool_at(chars@, pos as int)),
        found matches Ok((_, end)) ==> pos < end <= chars.len(),
{
    let yes = ['T', 'r', 'u', 'e', ' '];
    let no = ['F', 'a', 'l', 's', 'e'];
    assert(yes@.take(4) =~= seq!['T', 'r', 'u', 'e']);
    assert(no@.take(5) =~= seq!['F', 'a', 'l', 's', 'e']);
    if has_keyword(chars, pos, yes, 4) {
        Ok((Value::Bool(true), pos + 4))
    } else if has_keyword(chars, pos, no, 5) {
        Ok((Value::Bool(false), pos + 5))
    } else {
        Err(fail(ErrorKind::UnexpectedCharacter, pos))
    }
}

/// The position of the quote that closes a string whose body goes on at
/// `pos`.
pub fn scan_string_body(chars: &Vec<char>, pos: usize, quote: char) -> (found: Result<
    usize,
    ParseError,
>)
    requires
        pos <= chars.len(),
    ensures
        match string_close(chars@, pos as int, quote) {
            Ok(close) => found == Ok::<usize, ParseError>(close as usize) && pos <= close
                < chars.len(),
            Err(e) => found == Err::<usize, ParseError>(e),
        },
{
    let mut i: usize = pos;
    while i < chars.len()
        invariant
            pos <= i <= chars.len(),
            string_close(chars@, pos as int, quote) == string_close(chars@, i as int, quote),
        decreases chars.len() - i,
    {
        let c = chars[i];
        if c == quote {
            return Ok(i);
        } else if c == '\\' {
            if i + 1 >= chars.len() {
                return Err(fail(ErrorKind::UnterminatedLiteral, chars.len()));
            } else if escapable(chars[i + 1]) {
                i += 2;
            } else {
                return Err(fail(ErrorKind::InvalidEscapeSequence, i));
            }
        } else {
            i += 1;
        }
    }
    Err(fail(ErrorKind::UnterminatedLiteral, chars.len()))
}

/// Parses a string at `pos`.
pub fn string_from(chars: &Vec<char>, pos: usize) -> (found: Result<(Value, usize), ParseError>)
    requires
        pos <= chars.len(),
    ensures
        agrees(found, string_at(chars@, pos as int)),
        found matches Ok((_, end)) ==> pos < end <= chars.len(),
{
    if has_char(chars, pos, '\'') || has_char(chars, pos, '"') {
        match scan_string_body(chars, pos + 1, chars[pos]) {
            Ok(close) => Ok((Value::Str(string_of(chars, pos, close + 1)), close + 1)),
            Err(e) => Err(e),
        }
    } else {
        Err(fail(ErrorKind::UnexpectedCharacter, pos))
    }
}

/// Parses an identifier at `pos`.
pub fn identifier(chars: &Vec<char>, pos: usize) -> (found: Result<(String, usize), ParseError>)
    requires
        pos <= chars.len(),
    ensures
        match identifier_at(chars@, pos as int) {
            Ok((name, end)) => found matches Ok((text, behind)) && text@ == name && behind == end
                && pos < end <= chars.len(),
            Err(e) => found matches Err(f) && f == e,
        },
{
    if pos < chars.len() && identifier_start(chars[pos]) {
        let end = scan_identifier_parts(chars, pos + 1);
        Ok((string_of(chars, pos, end), end))
    } else {
        Err(fail(ErrorKind::EmptyIdentifier, pos))
    }
}

/// Parses a name at `pos`.
pub fn name(chars: &Vec<char>, pos: usize) -> (found: Result<(String, usize), ParseError>)
    requires
        pos <= chars.len(),
    ensures
        match name_at(chars@, pos as int) {
            Ok((name, end)) => found matches Ok((text, behind)) && text@ == name && behind == end
                && pos < end <= chars.len(),
            Err(e) => found matches Err(f) && f == e,
        },
{
    let yes = ['T', 'r', 'u', 'e', ' '];
    let no = ['F', 'a', 'l', 's', 'e'];
    assert(yes@.take(4) =~= seq!['T', 'r', 'u', 'e']);
    assert(no@.take(5) =~= seq!['F', 'a', 'l', 's', 'e']);
    match identifier(chars, pos) {
        Ok((text, end)) => {
            if (end - pos == 4 && has_word(chars, pos, yes, 4)) || (end - pos == 5 && has_word(
                chars,
                pos,
                no,
                5,
            )) {
                Err(fail(ErrorKind::UnexpectedCharacter, pos))
            } else {
                Ok((text, end))
            }
        },
        Err(e) => Err(e),
    }
}

/// Parses a symbol at `pos`.
pub fn symbol_from(chars: &Vec<char>, pos: usize) -> (found: Result<(Value, usize), ParseError>)
    requires
        pos <= chars.len(),
    ensures
        agrees(found, symbol_at(chars@, pos as int)),
        found matches Ok((_, end)) ==> pos < end <= chars.len(),
{
    match name(chars, pos) {
        Ok((name, end)) => {
            if has_char(chars, end, '(') {
                Err(fail(ErrorKind::UnexpectedCharacter, end))
            } else {
                Ok((Value::Symbol(name), end))
            }
        },
        Err(e) => Err(e),
    }
}

} // verus!
