//! A text within a larger text: what the grammar reads from a text that
//! stands alone, it reads from the same text where something follows that
//! cannot go on with it.

use vstd::prelude::*;
use crate::canon::{
    faithful, is_name, is_string_literal, lemma_name_is_symbol, lemma_scalar_reads_back, text_of,
};
use crate::error::ParseError;
use crate::grammar::{
    bool_at, char_at, constructor_at, dict_at, digits_end, exponent_end, float_at, fraction_end,
    identifier_end, int_at, integer_end, integer_value, is_digit, is_identifier_part,
    is_identifier_start, is_space, keyword_at, lemma_digits_end_bounds, list_at, magnitude_start,
    name_at, number_at, number_end, number_starts, set_at, string_at, string_close, symbol_at,
    tuple_at, value_at, word_at,
};
use crate::value::Tree;

verus! {

/// Whether the text `t` stands in `s` at `pos`.
pub open spec fn stands_at(s: Seq<char>, pos: int, t: Seq<char>) -> bool {
    &&& 0 <= pos
    &&& pos + t.len() <= s.len()
    &&& forall|i: int| 0 <= i < t.len() ==> s[pos + i] == #[trigger] t[i]
}

/// Whether a character ends the value before it: a comma, a closing
/// delimiter or a colon.
pub open spec fn is_stop(c: char) -> bool {
    c == ',' || c == ']' || c == ')' || c == '}' || c == ':'
}

/// Whether the text ends at `pos`, or holds there a character that ends the
/// value before it.
pub open spec fn stops(s: Seq<char>, pos: int) -> bool {
    pos >= s.len() || (0 <= pos && is_stop(s[pos]))
}

/// Whether the text ends at `pos`, or holds there a character that ends the
/// word before it: one that ends a value, an opening parenthesis or an equals
/// sign.
pub open spec fn ends_word(s: Seq<char>, pos: int) -> bool {
    stops(s, pos) || char_at(s, pos, '(') || char_at(s, pos, '=')
}

/// A text that stands somewhere is there as a range.
pub proof fn lemma_stands_as_range(s: Seq<char>, pos: int, t: Seq<char>)
    requires
        stands_at(s, pos, t),
    ensures
        s.subrange(pos, pos + t.len()) == t,
{
    assert(s.subrange(pos, pos + t.len()) =~= t);
}

/// Where two texts stand one behind the other, each of them stands.
pub proof fn lemma_stands_parts(s: Seq<char>, pos: int, a: Seq<char>, b: Seq<char>)
    requires
        stands_at(s, pos, a + b),
    ensures
        stands_at(s, pos, a),
        stands_at(s, pos + a.len(), b),
{
    let t = a + b;
    assert forall|i: int| 0 <= i < a.len() implies s[pos + i] == #[trigger] a[i] by {
        assert(t[i] == a[i]);
    }
    assert forall|i: int| 0 <= i < b.len() implies s[pos + a.len() + i] == #[trigger] b[i] by {
        assert(t[a.len() + i] == b[i]);
    }
}

/// A run of digits within a text ends where it ends in the text alone.
pub proof fn lemma_digits_end_local(s: Seq<char>, pos: int, t: Seq<char>, k: int)
    requires
        stands_at(s, pos, t),
        0 <= k <= t.len(),
        stops(s, pos + t.len()),
    ensures
        digits_end(s, pos + k) == pos + digits_end(t, k),
    decreases t.len() - k,
{
    if k < t.len() {
        assert(s[pos + k] == t[k]);
        if is_digit(t[k]) {
            lemma_digits_end_local(s, pos, t, k + 1);
        }
    }
}

/// A run of identifier characters within a text ends where it ends in the
/// text alone.
pub proof fn lemma_identifier_end_local(s: Seq<char>, pos: int, t: Seq<char>, k: int)
    requires
        stands_at(s, pos, t),
        0 <= k <= t.len(),
        ends_word(s, pos + t.len()),
    ensures
        identifier_end(s, pos + k) == pos + identifier_end(t, k),
    decreases t.len() - k,
{
    if k < t.len() {
        assert(s[pos + k] == t[k]);
        if is_identifier_part(t[k]) {
            lemma_identifier_end_local(s, pos, t, k + 1);
        }
    }
}

/// The quote that closes a string within a text is the one that closes it
/// in the text alone.
pub proof fn lemma_string_close_local(s: Seq<char>, pos: int, t: Seq<char>, k: int, quote: char)
    requires
        stands_at(s, pos, t),
        0 <= k <= t.len(),
        string_close(t, k, quote) is Ok,
    ensures
        string_close(s, pos + k, quote) == Ok::<int, ParseError>(
            pos + string_close(t, k, quote)->Ok_0,
        ),
        k <= string_close(t, k, quote)->Ok_0 < t.len(),
    decreases t.len() - k,
{
    if k < t.len() {
        assert(s[pos + k] == t[k]);
        if t[k] == quote {
        } else if t[k] == '\\' {
            assert(k + 1 < t.len());
            assert(s[pos + (k + 1)] == t[k + 1]);
            lemma_string_close_local(s, pos, t, k + 2, quote);
        } else {
            lemma_string_close_local(s, pos, t, k + 1, quote);
        }
    }
}

/// A number within a text is the number that starts the text alone.
pub proof fn lemma_number_local(s: Seq<char>, pos: int, t: Seq<char>)
    requires
        stands_at(s, pos, t),
        number_starts(t, 0),
        stops(s, pos + t.len()),
    ensures
        number_starts(s, pos),
        magnitude_start(s, pos) == pos + magnitude_start(t, 0),
        integer_end(s, pos) == pos + integer_end(t, 0),
        number_end(s, pos) == pos + number_end(t, 0),
        integer_end(t, 0) <= number_end(t, 0) <= t.len(),
        char_at(s, pos, '-') == char_at(t, 0, '-'),
{
    assert(t.len() > 0);
    assert(s[pos + 0] == t[0]);
    let m = magnitude_start(t, 0);
    assert(s[pos + m] == t[m]);
    lemma_digits_end_local(s, pos, t, m);
    lemma_digits_end_bounds(t, m);
    let a = integer_end(t, 0);
    // The fraction.
    if a < t.len() {
        assert(s[pos + a] == t[a]);
    }
    if char_at(t, a, '.') {
        lemma_digits_end_local(s, pos, t, a + 1);
        lemma_digits_end_bounds(t, a + 1);
    }
    let b = fraction_end(t, a);
    assert(fraction_end(s, pos + a) == pos + b);
    // The exponent.
    if b < t.len() {
        assert(s[pos + b] == t[b]);
        if b + 1 < t.len() {
            assert(s[pos + (b + 1)] == t[b + 1]);
        }
        if b + 2 < t.len() {
            assert(s[pos + (b + 2)] == t[b + 2]);
        }
    }
    if char_at(t, b, 'e') || char_at(t, b, 'E') {
        let d = if char_at(t, b + 1, '+') || char_at(t, b + 1, '-') {
            b + 2
        } else {
            b + 1
        };
        if 0 <= d < t.len() && is_digit(t[d]) {
            lemma_digits_end_local(s, pos, t, d);
            lemma_digits_end_bounds(t, d);
        }
    }
    assert(exponent_end(s, pos + b) == pos + exponent_end(t, b));
}

/// What a number within a text is read as is what it is read as alone.
pub proof fn lemma_number_at_local(s: Seq<char>, pos: int, t: Seq<char>, tree: Tree)
    requires
        stands_at(s, pos, t),
        stops(s, pos + t.len()),
        number_starts(t, 0),
        number_at(t, 0) == Ok::<(Tree, int), ParseError>((tree, t.len() as int)),
    ensures
        number_at(s, pos) == Ok::<(Tree, int), ParseError>((tree, pos + t.len())),
{
    lemma_number_local(s, pos, t);
    let ms = magnitude_start(s, pos);
    let mt = magnitude_start(t, 0);
    let digits_s = s.subrange(ms, integer_end(s, pos));
    let digits_t = t.subrange(mt, integer_end(t, 0));
    assert forall|i: int| 0 <= i < digits_t.len() implies digits_s[i] == #[trigger] digits_t[i] by {
        assert(s[pos + (mt + i)] == t[mt + i]);
    }
    assert(digits_s =~= digits_t);
    assert(integer_value(s, pos) == integer_value(t, 0));
    assert(s.subrange(pos, number_end(s, pos)) =~= t.subrange(0, number_end(t, 0)));
    if int_at(t, 0) is Ok {
        assert(int_at(s, pos) == Ok::<(Tree, int), ParseError>((tree, pos + t.len())));
    } else {
        assert(int_at(s, pos) is Err);
        assert(float_at(t, 0) == Ok::<(Tree, int), ParseError>((tree, t.len() as int)));
        assert(float_at(s, pos) == Ok::<(Tree, int), ParseError>((tree, pos + t.len())));
    }
}

/// Whether a value holds no other value.
pub open spec fn is_scalar(tree: Tree) -> bool {
    tree is Bool || tree is Str || tree is Int || tree is Float || tree is Symbol
}

/// Where no number starts a text alone, none starts it within a larger text.
pub proof fn lemma_no_number_local(s: Seq<char>, pos: int, t: Seq<char>)
    requires
        stands_at(s, pos, t),
        t.len() > 0,
        !number_starts(t, 0),
        ends_word(s, pos + t.len()),
    ensures
        !number_starts(s, pos),
{
    assert(s[pos + 0] == t[0]);
    if t.len() > 1 {
        assert(s[pos + 1] == t[1]);
    }
}

/// Where no boolean starts a text alone, none starts it within a larger
/// text.
pub proof fn lemma_no_bool_local(s: Seq<char>, pos: int, t: Seq<char>)
    requires
        stands_at(s, pos, t),
        bool_at(t, 0) is Err,
        ends_word(s, pos + t.len()),
    ensures
        bool_at(s, pos) is Err,
{
    let yes = seq!['T', 'r', 'u', 'e'];
    let no = seq!['F', 'a', 'l', 's', 'e'];
    if word_at(s, pos, yes) {
        let w = s.subrange(pos, pos + 4);
        assert(w[0] == 'T' && w[1] == 'r' && w[2] == 'u' && w[3] == 'e');
        if t.len() >= 4 {
            assert(t[0] == 'T' && t[1] == 'r' && t[2] == 'u' && t[3] == 'e');
            assert(t.subrange(0, 4) =~= yes);
        } else {
            let c = w[t.len() as int];
            assert(is_stop(c) || c == '(' || c == '=');
        }
    }
    if word_at(s, pos, no) {
        let w = s.subrange(pos, pos + 5);
        assert(w[0] == 'F' && w[1] == 'a' && w[2] == 'l' && w[3] == 's' && w[4] == 'e');
        if t.len() >= 5 {
            assert(t[0] == 'F' && t[1] == 'a' && t[2] == 'l' && t[3] == 's' && t[4] == 'e');
            assert(t.subrange(0, 5) =~= no);
        } else {
            let c = w[t.len() as int];
            assert(is_stop(c) || c == '(' || c == '=');
        }
    }
}

/// The text of a faithful value that holds no value is read as the value
/// where it stands within a larger text and what follows ends it.
pub proof fn lemma_scalar_local(s: Seq<char>, pos: int, tree: Tree)
    requires
        is_scalar(tree),
        faithful(tree),
        stands_at(s, pos, text_of(tree)),
        stops(s, pos + text_of(tree).len()),
    ensures
        value_at(s, pos) == Ok::<(Tree, int), ParseError>((tree, pos + text_of(tree).len())),
{
    let t = text_of(tree);
    lemma_scalar_reads_back(tree);
    match tree {
        Tree::Bool(b) => {
            assert(t[0] == 'T' || t[0] == 'F');
            assert(!number_starts(t, 0));
            lemma_no_number_local(s, pos, t);
            assert(value_at(t, 0) == bool_at(t, 0));
            lemma_bool_local(s, pos, t);
        },
        Tree::Str(q) => {
            lemma_string_local(s, pos, q);
        },
        Tree::Symbol(name) => {
            lemma_symbol_local(s, pos, name);
        },
        _ => {
            lemma_number_alone(t, tree);
            lemma_number_at_local(s, pos, t, tree);
        },
    }
}

/// A text that is read as an integer or as a float starts as a number does
/// and is read as a number.
pub proof fn lemma_number_alone(t: Seq<char>, tree: Tree)
    requires
        tree is Int || tree is Float,
        value_at(t, 0) == Ok::<(Tree, int), ParseError>((tree, t.len() as int)),
    ensures
        number_starts(t, 0),
        number_at(t, 0) == Ok::<(Tree, int), ParseError>((tree, t.len() as int)),
{
    let alone = value_at(t, 0);
    if !number_starts(t, 0) && bool_at(t, 0) is Err {
        if t[0] == '\'' || t[0] == '"' {
            assert(string_at(t, 0) == alone);
        } else if t[0] == '[' {
            assert(list_at(t, 0) == alone);
        } else if t[0] == '(' {
            assert(tuple_at(t, 0) == alone);
        } else if t[0] == '{' {
            assert(set_at(t, 0) == alone || dict_at(t, 0) == alone);
        } else if is_identifier_start(t[0]) {
            assert(constructor_at(t, 0) == alone || symbol_at(t, 0) == alone);
        }
    }
}

/// A boolean that is all of a text is the same boolean where the text stands
/// within a larger text and what follows ends it.
pub proof fn lemma_bool_local(s: Seq<char>, pos: int, t: Seq<char>)
    requires
        stands_at(s, pos, t),
        stops(s, pos + t.len()),
        bool_at(t, 0) matches Ok((_, end)) && end == t.len(),
    ensures
        bool_at(s, pos) == Ok::<(Tree, int), ParseError>((bool_at(t, 0)->Ok_0.0, pos + t.len())),
{
    lemma_stands_as_range(s, pos, t);
    if keyword_at(t, 0, seq!['T', 'r', 'u', 'e']) {
        assert(t.subrange(0, 4) =~= t);
        assert(keyword_at(s, pos, seq!['T', 'r', 'u', 'e']));
    } else {
        assert(t.subrange(0, 5) =~= t);
        lemma_no_bool_true(s, pos, t);
        assert(keyword_at(s, pos, seq!['F', 'a', 'l', 's', 'e']));
    }
}

/// A string literal is read as the string wherever it stands.
pub proof fn lemma_string_local(s: Seq<char>, pos: int, q: Seq<char>)
    requires
        is_string_literal(q),
        stands_at(s, pos, q),
    ensures
        value_at(s, pos) == Ok::<(Tree, int), ParseError>((Tree::Str(q), pos + q.len())),
{
    assert(s[pos + 0] == q[0]);
    lemma_string_close_local(s, pos, q, 1, q[0]);
    let close = string_close(q, 1, q[0])->Ok_0;
    assert(s.subrange(pos, pos + close + 1) =~= q.subrange(0, close + 1));
    assert(string_at(s, pos) == Ok::<(Tree, int), ParseError>((Tree::Str(q), pos + q.len())));
    assert(!number_starts(s, pos));
    if word_at(s, pos, seq!['T', 'r', 'u', 'e']) {
        assert(s.subrange(pos, pos + 4)[0] == 'T');
    }
    if word_at(s, pos, seq!['F', 'a', 'l', 's', 'e']) {
        assert(s.subrange(pos, pos + 5)[0] == 'F');
    }
    assert(bool_at(s, pos) is Err);
}

/// A name is read as a symbol where it stands within a larger text and what
/// follows ends it.
pub proof fn lemma_symbol_local(s: Seq<char>, pos: int, name: Seq<char>)
    requires
        is_name(name),
        stands_at(s, pos, name),
        stops(s, pos + name.len()),
    ensures
        value_at(s, pos) == Ok::<(Tree, int), ParseError>((Tree::Symbol(name), pos + name.len())),
{
    lemma_name_shape(name);
    lemma_name_local(s, pos, name);
    assert(s[pos + 0] == name[0]);
    assert(symbol_at(s, pos) == Ok::<(Tree, int), ParseError>(
        (Tree::Symbol(name), pos + name.len()),
    ));
}

/// A name is read as the name where it stands within a larger text and what
/// follows ends the word; no number and no boolean starts there.
pub proof fn lemma_name_local(s: Seq<char>, pos: int, name: Seq<char>)
    requires
        is_name(name),
        stands_at(s, pos, name),
        ends_word(s, pos + name.len()),
    ensures
        name_at(s, pos) == Ok::<(Seq<char>, int), ParseError>((name, pos + name.len())),
        identifier_end(s, pos + 1) == pos + name.len(),
        !number_starts(s, pos),
        bool_at(s, pos) is Err,
{
    lemma_name_shape(name);
    lemma_no_number_local(s, pos, name);
    lemma_no_bool_local(s, pos, name);
    lemma_identifier_end_local(s, pos, name, 1);
    assert(s[pos + 0] == name[0]);
    lemma_stands_as_range(s, pos, name);
}

/// Where the word `False` stands, the word `True` does not.
proof fn lemma_no_bool_true(s: Seq<char>, pos: int, t: Seq<char>)
    requires
        stands_at(s, pos, t),
        word_at(t, 0, seq!['F', 'a', 'l', 's', 'e']),
    ensures
        !word_at(s, pos, seq!['T', 'r', 'u', 'e']),
{
    let w = t.subrange(0, 5);
    assert(w[0] == 'F');
    assert(t[0] == 'F');
    assert(s[pos + 0] == t[0]);
    if word_at(s, pos, seq!['T', 'r', 'u', 'e']) {
        let v = s.subrange(pos, pos + 4);
        assert(v[0] == 'T');
    }
}

/// Whether a value can start with a character: whether it is neither a
/// blank nor a character that ends a value.
pub open spec fn can_start(c: char) -> bool {
    !is_space(c) && !is_stop(c)
}

/// A text that is read as a value starts with a character that a value can
/// start with.
pub proof fn lemma_value_start(t: Seq<char>)
    requires
        value_at(t, 0) is Ok,
    ensures
        t.len() > 0,
        can_start(t[0]),
{
    if t.len() > 0 && !can_start(t[0]) {
        if word_at(t, 0, seq!['T', 'r', 'u', 'e']) {
            assert(t.subrange(0, 4)[0] == 'T');
        }
        if word_at(t, 0, seq!['F', 'a', 'l', 's', 'e']) {
            assert(t.subrange(0, 5)[0] == 'F');
        }
        assert(bool_at(t, 0) is Err);
        assert(!number_starts(t, 0));
    }
}

/// What makes a text a name: it starts as an identifier does and goes on as
/// one to its end, and starts with no number and no boolean.
pub proof fn lemma_name_shape(name: Seq<char>)
    requires
        is_name(name),
    ensures
        name.len() > 0,
        is_identifier_start(name[0]),
        identifier_end(name, 1) == name.len(),
        !number_starts(name, 0),
        bool_at(name, 0) is Err,
{
    lemma_name_is_symbol(name);
    if bool_at(name, 0) is Ok {
        assert(value_at(name, 0) == bool_at(name, 0));
    }
}

} // verus!
