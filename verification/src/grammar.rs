//! The grammar of data expressions, as functions from a text and a position
//! in it to the value that starts there and the position behind it.
//!
//! The alternatives of a value are tried in a fixed order: number, boolean,
//! string, list, tuple, dictionary, set, constructor, symbol. A boolean is a
//! whole word: `Truest` is a symbol. An alternative
//! whose opening matches decides the outcome; its failure is the failure of
//! the whole value. Where a function here parses a value and then goes on
//! behind it, it first tests that the value `advances`: that it is not empty.
//! The test always holds (see `lemma_value_sound`); it is there to make the
//! recursion well founded.

use vstd::prelude::*;
use crate::error::{ErrorKind, ParseError};
use crate::trusted::{alphabetic, alphanumeric, double_value};
use crate::value::Tree;

verus! {

/// The failure of the given kind at `pos`.
pub open spec fn failure(kind: ErrorKind, pos: int) -> ParseError {
    ParseError { kind, position: pos as usize }
}

/// The failure at `pos`, where something else was due: the input ends there,
/// or holds a character that cannot stand there.
pub open spec fn stuck(s: Seq<char>, pos: int) -> ParseError {
    if pos >= s.len() {
        failure(ErrorKind::UnterminatedLiteral, pos)
    } else {
        failure(ErrorKind::UnexpectedCharacter, pos)
    }
}

/// Whether the character at `pos` is `c`.
pub open spec fn char_at(s: Seq<char>, pos: int, c: char) -> bool {
    0 <= pos < s.len() && s[pos] == c
}

/// Whether `word` stands in `s` at `pos`.
pub open spec fn word_at(s: Seq<char>, pos: int, word: Seq<char>) -> bool {
    0 <= pos && pos + word.len() <= s.len() && s.subrange(pos, pos + word.len()) == word
}

// ---------------------------------------------------------------------------
// Characters
// ---------------------------------------------------------------------------

/// Whether `c` is a decimal digit.
pub open spec fn is_digit(c: char) -> bool {
    '0' <= c <= '9'
}

/// Whether `c` is a blank, one of those that may follow a comma or a colon.
pub open spec fn is_space(c: char) -> bool {
    c == ' ' || c == '\t' || c == '\n' || c == '\r'
}

/// Whether `c` is a letter of the ASCII alphabet.
pub open spec fn is_ascii_letter(c: char) -> bool {
    ('a' <= c <= 'z') || ('A' <= c <= 'Z')
}

/// Whether an identifier may start with `c`: a letter or an underscore. Of
/// an ASCII character this is settled here; of any other, `char::is_alphabetic`
/// decides.
pub open spec fn is_identifier_start(c: char) -> bool {
    c == '_' || if c <= '\u{7f}' {
        is_ascii_letter(c)
    } else {
        alphabetic(c)
    }
}

/// Whether an identifier may go on with `c`: a letter, a digit or an
/// underscore. Of an ASCII character this is settled here; of any other,
/// `char::is_alphanumeric` decides.
pub open spec fn is_identifier_part(c: char) -> bool {
    c == '_' || if c <= '\u{7f}' {
        is_ascii_letter(c) || is_digit(c)
    } else {
        alphanumeric(c)
    }
}

/// Whether a backslash may be followed by `c` inside a string.
pub open spec fn is_escapable(c: char) -> bool {
    c == '\'' || c == '"' || c == '\\' || c == 'a' || c == 'b' || c == 'f' || c == 'n' || c == 'N'
        || c == 'r' || c == 't' || c == 'u' || c == 'U' || c == 'v' || c == 'x' || ('0' <= c
        <= '7')
}

// ---------------------------------------------------------------------------
// Runs of characters
// ---------------------------------------------------------------------------

/// The position behind the blanks that start at `pos`.
pub open spec fn skip_spaces(s: Seq<char>, pos: int) -> int
    decreases s.len() - pos,
{
    if 0 <= pos < s.len() && is_space(s[pos]) {
        skip_spaces(s, pos + 1)
    } else {
        pos
    }
}

/// The position behind the digits that start at `pos`.
pub open spec fn digits_end(s: Seq<char>, pos: int) -> int
    decreases s.len() - pos,
{
    if 0 <= pos < s.len() && is_digit(s[pos]) {
        digits_end(s, pos + 1)
    } else {
        pos
    }
}

/// The position behind the identifier characters that start at `pos`.
pub open spec fn identifier_end(s: Seq<char>, pos: int) -> int
    decreases s.len() - pos,
{
    if 0 <= pos < s.len() && is_identifier_part(s[pos]) {
        identifier_end(s, pos + 1)
    } else {
        pos
    }
}

/// A run of blanks ends at or behind its start, within the text.
pub proof fn lemma_skip_spaces_bounds(s: Seq<char>, pos: int)
    requires
        0 <= pos <= s.len(),
    ensures
        pos <= skip_spaces(s, pos) <= s.len(),
    decreases s.len() - pos,
{
    if pos < s.len() && is_space(s[pos]) {
        lemma_skip_spaces_bounds(s, pos + 1);
    }
}

/// A run of digits ends at or behind its start, within the text.
pub proof fn lemma_digits_end_bounds(s: Seq<char>, pos: int)
    requires
        0 <= pos <= s.len(),
    ensures
        pos <= digits_end(s, pos) <= s.len(),
    decreases s.len() - pos,
{
    if pos < s.len() && is_digit(s[pos]) {
        lemma_digits_end_bounds(s, pos + 1);
    }
}

/// A run of identifier characters ends at or behind its start, within the
/// text.
pub proof fn lemma_identifier_end_bounds(s: Seq<char>, pos: int)
    requires
        0 <= pos <= s.len(),
    ensures
        pos <= identifier_end(s, pos) <= s.len(),
    decreases s.len() - pos,
{
    if pos < s.len() && is_identifier_part(s[pos]) {
        lemma_identifier_end_bounds(s, pos + 1);
    }
}

/// The number that a sequence of digits denotes.
pub open spec fn digits_value(digits: Seq<char>) -> nat
    decreases digits.len(),
{
    if digits.len() == 0 {
        0
    } else {
        10 * digits_value(digits.drop_last()) + (digits.last() as nat - '0' as nat) as nat
    }
}

// ---------------------------------------------------------------------------
// Numbers
// ---------------------------------------------------------------------------

/// Whether a number starts at `pos`: a digit, or a minus sign and a digit.
pub open spec fn number_starts(s: Seq<char>, pos: int) -> bool {
    let first = if char_at(s, pos, '-') {
        pos + 1
    } else {
        pos
    };
    0 <= first < s.len() && is_digit(s[first])
}

/// The position of the first digit of the number at `pos`.
pub open spec fn magnitude_start(s: Seq<char>, pos: int) -> int {
    if char_at(s, pos, '-') {
        pos + 1
    } else {
        pos
    }
}

/// The position behind the sign and the integer digits of the number at `pos`.
pub open spec fn integer_end(s: Seq<char>, pos: int) -> int {
    digits_end(s, magnitude_start(s, pos))
}

/// The position behind a fraction at `pos`, a dot and any digits, or `pos`
/// where there is none.
pub open spec fn fraction_end(s: Seq<char>, pos: int) -> int {
    if char_at(s, pos, '.') {
        digits_end(s, pos + 1)
    } else {
        pos
    }
}

/// The position behind an exponent at `pos`, an `e` or `E`, an optional sign
/// and at least one digit, or `pos` where there is none.
pub open spec fn exponent_end(s: Seq<char>, pos: int) -> int {
    if char_at(s, pos, 'e') || char_at(s, pos, 'E') {
        let digits = if char_at(s, pos + 1, '+') || char_at(s, pos + 1, '-') {
            pos + 2
        } else {
            pos + 1
        };
        if 0 <= digits < s.len() && is_digit(s[digits]) {
            digits_end(s, digits)
        } else {
            pos
        }
    } else {
        pos
    }
}

/// The position behind the number at `pos`.
pub open spec fn number_end(s: Seq<char>, pos: int) -> int {
    exponent_end(s, fraction_end(s, integer_end(s, pos)))
}

/// The integer that the sign and the integer digits of the number at `pos`
/// denote.
pub open spec fn integer_value(s: Seq<char>, pos: int) -> int {
    let magnitude = digits_value(s.subrange(magnitude_start(s, pos), integer_end(s, pos)));
    if char_at(s, pos, '-') {
        -magnitude
    } else {
        magnitude as int
    }
}

/// An integer at `pos`: a number without fraction or exponent that fits in
/// 64 bits.
pub open spec fn int_at(s: Seq<char>, pos: int) -> Result<(Tree, int), ParseError> {
    if !number_starts(s, pos) {
        Err(failure(ErrorKind::UnexpectedCharacter, pos))
    } else if number_end(s, pos) != integer_end(s, pos) {
        Err(failure(ErrorKind::UnexpectedCharacter, integer_end(s, pos)))
    } else if !(i64::MIN <= integer_value(s, pos) <= i64::MAX) {
        Err(failure(ErrorKind::UnexpectedCharacter, pos))
    } else {
        Ok((Tree::Int(integer_value(s, pos) as i64), integer_end(s, pos)))
    }
}

/// A float at `pos`: a number, read as a 64-bit float.
pub open spec fn float_at(s: Seq<char>, pos: int) -> Result<(Tree, int), ParseError> {
    if !number_starts(s, pos) {
        Err(failure(ErrorKind::UnexpectedCharacter, pos))
    } else {
        match double_value(s.subrange(pos, number_end(s, pos))) {
            Some((bits, rest)) if rest.len() == 0 => Ok((Tree::Float(bits), number_end(s, pos))),
            _ => Err(failure(ErrorKind::UnexpectedCharacter, pos)),
        }
    }
}

/// A number at `pos`: an integer where it is one, a float otherwise.
pub open spec fn number_at(s: Seq<char>, pos: int) -> Result<(Tree, int), ParseError> {
    match int_at(s, pos) {
        Ok(found) => Ok(found),
        Err(_) => float_at(s, pos),
    }
}

// ---------------------------------------------------------------------------
// Booleans, strings, identifiers
// ---------------------------------------------------------------------------

/// Whether the keyword `word` stands at `pos`: the word, with no character
/// behind it that an identifier could go on with.
pub open spec fn keyword_at(s: Seq<char>, pos: int, word: Seq<char>) -> bool {
    word_at(s, pos, word) && !(pos + word.len() < s.len() && is_identifier_part(
        s[pos + word.len()],
    ))
}

/// A boolean at `pos`: the keyword `True` or the keyword `False`.
pub open spec fn bool_at(s: Seq<char>, pos: int) -> Result<(Tree, int), ParseError> {
    if keyword_at(s, pos, seq!['T', 'r', 'u', 'e']) {
        Ok((Tree::Bool(true), pos + 4))
    } else if keyword_at(s, pos, seq!['F', 'a', 'l', 's', 'e']) {
        Ok((Tree::Bool(false), pos + 5))
    } else {
        Err(failure(ErrorKind::UnexpectedCharacter, pos))
    }
}

/// The position of the quote that closes a string whose body goes on at
/// `pos`.
pub open spec fn string_close(s: Seq<char>, pos: int, quote: char) -> Result<int, ParseError>
    decreases s.len() - pos,
{
    if !(0 <= pos < s.len()) {
        Err(failure(ErrorKind::UnterminatedLiteral, s.len() as int))
    } else if s[pos] == quote {
        Ok(pos)
    } else if s[pos] == '\\' {
        if pos + 1 >= s.len() {
            Err(failure(ErrorKind::UnterminatedLiteral, s.len() as int))
        } else if is_escapable(s[pos + 1]) {
            string_close(s, pos + 2, quote)
        } else {
            Err(failure(ErrorKind::InvalidEscapeSequence, pos))
        }
    } else {
        string_close(s, pos + 1, quote)
    }
}

/// A string at `pos`: a quote, a body in which a backslash escapes the
/// character behind it, and the same quote again. The value is the text from
/// quote to quote, as written.
pub open spec fn string_at(s: Seq<char>, pos: int) -> Result<(Tree, int), ParseError> {
    if char_at(s, pos, '\'') || char_at(s, pos, '"') {
        match string_close(s, pos + 1, s[pos]) {
            Ok(close) => Ok((Tree::Str(s.subrange(pos, close + 1)), close + 1)),
            Err(e) => Err(e),
        }
    } else {
        Err(failure(ErrorKind::UnexpectedCharacter, pos))
    }
}

/// An identifier at `pos`: a letter or an underscore, then letters, digits
/// and underscores as far as they go.
pub open spec fn identifier_at(s: Seq<char>, pos: int) -> Result<(Seq<char>, int), ParseError> {
    if 0 <= pos < s.len() && is_identifier_start(s[pos]) {
        Ok((s.subrange(pos, identifier_end(s, pos + 1)), identifier_end(s, pos + 1)))
    } else {
        Err(failure(ErrorKind::EmptyIdentifier, pos))
    }
}

/// Whether a text is one of the two keywords, `True` and `False`.
pub open spec fn is_keyword(text: Seq<char>) -> bool {
    text == seq!['T', 'r', 'u', 'e'] || text == seq!['F', 'a', 'l', 's', 'e']
}

/// A name at `pos`: an identifier that is no keyword.
pub open spec fn name_at(s: Seq<char>, pos: int) -> Result<(Seq<char>, int), ParseError> {
    match identifier_at(s, pos) {
        Ok((name, end)) => if is_keyword(name) {
            Err(failure(ErrorKind::UnexpectedCharacter, pos))
        } else {
            Ok((name, end))
        },
        Err(e) => Err(e),
    }
}

/// A symbol at `pos`: a name that no opening parenthesis follows.
pub open spec fn symbol_at(s: Seq<char>, pos: int) -> Result<(Tree, int), ParseError> {
    match name_at(s, pos) {
        Ok((name, end)) => if char_at(s, end, '(') {
            Err(failure(ErrorKind::UnexpectedCharacter, end))
        } else {
            Ok((Tree::Symbol(name), end))
        },
        Err(e) => Err(e),
    }
}

// ---------------------------------------------------------------------------
// Values
// ---------------------------------------------------------------------------

/// A value at `pos`.
pub open spec fn value_at(s: Seq<char>, pos: int) -> Result<(Tree, int), ParseError>
    decreases s.len() - pos, 2int,
{
    if !(0 <= pos < s.len()) {
        Err(failure(ErrorKind::UnexpectedCharacter, pos))
    } else if number_starts(s, pos) {
        number_at(s, pos)
    } else if bool_at(s, pos) is Ok {
        bool_at(s, pos)
    } else if s[pos] == '\'' || s[pos] == '"' {
        string_at(s, pos)
    } else if s[pos] == '[' {
        list_at(s, pos)
    } else if s[pos] == '(' {
        tuple_at(s, pos)
    } else if s[pos] == '{' {
        if braces_hold_set(s, pos) {
            set_at(s, pos)
        } else {
            dict_at(s, pos)
        }
    } else if is_identifier_start(s[pos]) {
        if char_at(s, identifier_end(s, pos + 1), '(') {
            constructor_at(s, pos)
        } else {
            symbol_at(s, pos)
        }
    } else {
        Err(failure(ErrorKind::UnexpectedCharacter, pos))
    }
}

/// Whether the braces that open at `pos` hold a set and no dictionary: their
/// first item is a value that no colon follows.
pub open spec fn braces_hold_set(s: Seq<char>, pos: int) -> bool
    decreases s.len() - pos, 1int,
{
    if 0 <= pos < s.len() && !char_at(s, pos + 1, '}') {
        match value_at(s, pos + 1) {
            Ok((_, end)) => !char_at(s, end, ':'),
            Err(_) => false,
        }
    } else {
        false
    }
}

/// Whether a part of the text that starts at `pos` and ends at `end` is
/// not empty and lies within the text.
pub open spec fn advances(s: Seq<char>, pos: int, end: int) -> bool {
    pos < end <= s.len()
}

/// What `found` is with `first` put in front of its items.
pub open spec fn prepend<T>(first: T, found: Result<(Seq<T>, int), ParseError>) -> Result<
    (Seq<T>, int),
    ParseError,
> {
    match found {
        Ok((items, end)) => Ok((seq![first] + items, end)),
        Err(e) => Err(e),
    }
}

/// What `found` is with `firsts` put in front of its items.
pub open spec fn prepend_all<T>(firsts: Seq<T>, found: Result<(Seq<T>, int), ParseError>) -> Result<
    (Seq<T>, int),
    ParseError,
> {
    match found {
        Ok((items, end)) => Ok((firsts + items, end)),
        Err(e) => Err(e),
    }
}

/// A value that is due at `pos`, within brackets: where the text ends at
/// `pos`, what is open is not closed.
pub open spec fn due_at(s: Seq<char>, pos: int) -> Result<(Tree, int), ParseError>
    decreases s.len() - pos, 3int,
{
    if pos >= s.len() {
        Err(failure(ErrorKind::UnterminatedLiteral, pos))
    } else {
        value_at(s, pos)
    }
}

/// The items of a sequence from `pos` on, and the position behind the
/// delimiter that closes it: a value and what is behind it.
pub open spec fn items_at(s: Seq<char>, pos: int, close: char) -> Result<
    (Seq<Tree>, int),
    ParseError,
>
    decreases s.len() - pos, 4int,
{
    match due_at(s, pos) {
        Ok((item, end)) if advances(s, pos, end) => prepend(item, items_behind(s, end, close)),
        Ok((_, end)) => Err(stuck(s, end)),
        Err(e) => Err(e),
    }
}

/// The items of a sequence that follow an item that ends at `pos`, and the
/// position behind the delimiter that closes the sequence: either that
/// delimiter, or a comma, blanks and further items.
pub open spec fn items_behind(s: Seq<char>, pos: int, close: char) -> Result<
    (Seq<Tree>, int),
    ParseError,
>
    decreases s.len() - pos, 0int,
{
    if char_at(s, pos, close) {
        Ok((Seq::empty(), pos + 1))
    } else if char_at(s, pos, ',') {
        proof {
            lemma_skip_spaces_bounds(s, pos + 1);
        }
        items_at(s, skip_spaces(s, pos + 1), close)
    } else {
        Err(stuck(s, pos))
    }
}

/// A sequence at `pos`: the opening delimiter, items separated by commas, and
/// the closing delimiter. It may be empty.
pub open spec fn sequence_at(s: Seq<char>, pos: int, open: char, close: char) -> Result<
    (Seq<Tree>, int),
    ParseError,
>
    decreases s.len() - pos, 0int,
{
    if !char_at(s, pos, open) {
        Err(failure(ErrorKind::UnexpectedCharacter, pos))
    } else if char_at(s, pos + 1, close) {
        Ok((Seq::empty(), pos + 2))
    } else {
        items_at(s, pos + 1, close)
    }
}

/// A list at `pos`: a sequence in square brackets.
pub open spec fn list_at(s: Seq<char>, pos: int) -> Result<(Tree, int), ParseError>
    decreases s.len() - pos, 1int,
{
    match sequence_at(s, pos, '[', ']') {
        Ok((items, end)) => Ok((Tree::List(items), end)),
        Err(e) => Err(e),
    }
}

/// A tuple at `pos`: a sequence in parentheses.
pub open spec fn tuple_at(s: Seq<char>, pos: int) -> Result<(Tree, int), ParseError>
    decreases s.len() - pos, 1int,
{
    match sequence_at(s, pos, '(', ')') {
        Ok((items, end)) => Ok((Tree::Tuple(items), end)),
        Err(e) => Err(e),
    }
}

/// A set at `pos`: a sequence in braces.
pub open spec fn set_at(s: Seq<char>, pos: int) -> Result<(Tree, int), ParseError>
    decreases s.len() - pos, 1int,
{
    match sequence_at(s, pos, '{', '}') {
        Ok((items, end)) => Ok((Tree::SetOf(items), end)),
        Err(e) => Err(e),
    }
}

/// An entry of a dictionary at `pos`: a value, a colon, blanks, a value.
pub open spec fn entry_at(s: Seq<char>, pos: int) -> Result<((Tree, Tree), int), ParseError>
    decreases s.len() - pos, 4int,
{
    match due_at(s, pos) {
        Ok((key, end)) if advances(s, pos, end) && char_at(s, end, ':') => {
            proof {
                lemma_skip_spaces_bounds(s, end + 1);
            }
            match due_at(s, skip_spaces(s, end + 1)) {
                Ok((value, behind)) => Ok(((key, value), behind)),
                Err(e) => Err(e),
            }
        },
        Ok((_, end)) => Err(stuck(s, end)),
        Err(e) => Err(e),
    }
}

/// The entries of a dictionary from `pos` on, and the position behind the
/// closing brace: an entry and what is behind it.
pub open spec fn entries_at(s: Seq<char>, pos: int) -> Result<
    (Seq<(Tree, Tree)>, int),
    ParseError,
>
    decreases s.len() - pos, 5int,
{
    match entry_at(s, pos) {
        Ok((entry, end)) if advances(s, pos, end) => prepend(entry, entries_behind(s, end)),
        Ok((_, end)) => Err(stuck(s, end)),
        Err(e) => Err(e),
    }
}

/// The entries of a dictionary that follow an entry that ends at `pos`, and
/// the position behind the closing brace: either that brace, or a comma,
/// blanks and further entries.
pub open spec fn entries_behind(s: Seq<char>, pos: int) -> Result<
    (Seq<(Tree, Tree)>, int),
    ParseError,
>
    decreases s.len() - pos, 0int,
{
    if char_at(s, pos, '}') {
        Ok((Seq::empty(), pos + 1))
    } else if char_at(s, pos, ',') {
        proof {
            lemma_skip_spaces_bounds(s, pos + 1);
        }
        entries_at(s, skip_spaces(s, pos + 1))
    } else {
        Err(stuck(s, pos))
    }
}

/// A dictionary at `pos`: entries in braces, separated by commas. It may be
/// empty.
pub open spec fn dict_at(s: Seq<char>, pos: int) -> Result<(Tree, int), ParseError>
    decreases s.len() - pos, 1int,
{
    if !char_at(s, pos, '{') {
        Err(failure(ErrorKind::UnexpectedCharacter, pos))
    } else if char_at(s, pos + 1, '}') {
        Ok((Tree::Dict(Seq::empty()), pos + 2))
    } else {
        match entries_at(s, pos + 1) {
            Ok((entries, end)) => Ok((Tree::Dict(entries), end)),
            Err(e) => Err(e),
        }
    }
}

/// A keyword argument at `pos`: an identifier, an equals sign, a value.
pub open spec fn kwarg_at(s: Seq<char>, pos: int) -> Result<((Seq<char>, Tree), int), ParseError>
    decreases s.len() - pos, 4int,
{
    if pos >= s.len() {
        Err(failure(ErrorKind::UnterminatedLiteral, pos))
    } else {
        match identifier_at(s, pos) {
            Ok((key, end)) if char_at(s, end, '=') => {
                proof {
                    lemma_identifier_end_bounds(s, pos + 1);
                }
                match due_at(s, end + 1) {
                    Ok((value, behind)) => Ok(((key, value), behind)),
                    Err(e) => Err(e),
                }
            },
            Ok((_, end)) => Err(stuck(s, end)),
            Err(e) => Err(e),
        }
    }
}

/// The keyword arguments of a constructor from `pos` on, and the position
/// behind the closing parenthesis: an argument and what is behind it.
pub open spec fn kwargs_at(s: Seq<char>, pos: int) -> Result<
    (Seq<(Seq<char>, Tree)>, int),
    ParseError,
>
    decreases s.len() - pos, 5int,
{
    match kwarg_at(s, pos) {
        Ok((kwarg, end)) if advances(s, pos, end) => prepend(kwarg, kwargs_behind(s, end)),
        Ok((_, end)) => Err(stuck(s, end)),
        Err(e) => Err(e),
    }
}

/// The keyword arguments that follow an argument that ends at `pos`, and the
/// position behind the closing parenthesis: either that parenthesis, or a
/// comma, blanks and further arguments.
pub open spec fn kwargs_behind(s: Seq<char>, pos: int) -> Result<
    (Seq<(Seq<char>, Tree)>, int),
    ParseError,
>
    decreases s.len() - pos, 0int,
{
    if char_at(s, pos, ')') {
        Ok((Seq::empty(), pos + 1))
    } else if char_at(s, pos, ',') {
        proof {
            lemma_skip_spaces_bounds(s, pos + 1);
        }
        kwargs_at(s, skip_spaces(s, pos + 1))
    } else {
        Err(stuck(s, pos))
    }
}

/// A constructor at `pos`: a name and, in parentheses, keyword arguments
/// separated by commas. There may be none.
pub open spec fn constructor_at(s: Seq<char>, pos: int) -> Result<(Tree, int), ParseError>
    decreases s.len() - pos, 1int,
{
    match name_at(s, pos) {
        Ok((name, end)) if char_at(s, end, '(') => {
            proof {
                lemma_identifier_end_bounds(s, pos + 1);
            }
            if char_at(s, end + 1, ')') {
                Ok((Tree::Constructor(name, Seq::empty()), end + 2))
            } else {
                match kwargs_at(s, end + 1) {
                    Ok((kwargs, behind)) => Ok((Tree::Constructor(name, kwargs), behind)),
                    Err(e) => Err(e),
                }
            }
        },
        Ok((_, end)) => Err(stuck(s, end)),
        Err(e) => Err(e),
    }
}

} // verus!
