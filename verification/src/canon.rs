//! The single-line text of a value, and the values that this text gives
//! back when it is parsed.

use vstd::prelude::*;
use crate::error::ParseError;
use crate::floats::float_text;
use crate::grammar::{
    bool_at, char_at, digits_end, digits_value, exponent_end, fraction_end, identifier_at,
    identifier_end, int_at, integer_end, integer_value, is_digit, is_identifier_part, is_keyword,
    lemma_identifier_end_bounds, magnitude_start, name_at, number_at, number_end, number_starts,
    string_at, symbol_at, value_at, word_at,
};
use crate::text::{digit_char, int_text, nat_text};
use crate::trusted::float_display;
use crate::value::Tree;

verus! {

/// The texts `texts[from..]` with a comma and a space between each two of
/// them.
pub open spec fn joined(texts: Seq<Seq<char>>, from: int) -> Seq<char>
    decreases texts.len() - from,
{
    if from < 0 || from >= texts.len() {
        Seq::empty()
    } else if from + 1 == texts.len() {
        texts[from]
    } else {
        texts[from] + seq![',', ' '] + joined(texts, from + 1)
    }
}

/// The text of a value on a single line.
pub open spec fn text_of(tree: Tree) -> Seq<char>
    decreases tree, 1int,
{
    match tree {
        Tree::Bool(b) => if b {
            seq!['T', 'r', 'u', 'e']
        } else {
            seq!['F', 'a', 'l', 's', 'e']
        },
        Tree::Str(s) => s,
        Tree::Int(i) => int_text(i as int),
        Tree::Float(bits) => float_text(float_display(bits)),
        Tree::Symbol(s) => s,
        Tree::Tuple(xs) => seq!['('] + joined(item_texts(xs), 0) + seq![')'],
        Tree::List(xs) => seq!['['] + joined(item_texts(xs), 0) + seq![']'],
        Tree::SetOf(xs) => seq!['{'] + joined(item_texts(xs), 0) + seq!['}'],
        Tree::Dict(ps) => seq!['{'] + joined(entry_texts(ps), 0) + seq!['}'],
        Tree::Constructor(name, args) => name + seq!['('] + joined(kwarg_texts(args), 0) + seq![
            ')',
        ],
    }
}

/// The texts of the items of a sequence.
pub open spec fn item_texts(items: Seq<Tree>) -> Seq<Seq<char>>
    decreases items, 0int,
{
    Seq::new(
        items.len(),
        |i: int|
            if 0 <= i < items.len() {
                text_of(items[i])
            } else {
                Seq::empty()
            },
    )
}

/// The texts of the entries of a dictionary: the key, a colon and a space,
/// the value.
pub open spec fn entry_texts(entries: Seq<(Tree, Tree)>) -> Seq<Seq<char>>
    decreases entries, 0int,
{
    Seq::new(
        entries.len(),
        |i: int|
            if 0 <= i < entries.len() {
                text_of(entries[i].0) + seq![':', ' '] + text_of(entries[i].1)
            } else {
                Seq::empty()
            },
    )
}

/// The texts of the keyword arguments of a constructor: the key, an equals
/// sign, the value.
pub open spec fn kwarg_texts(kwargs: Seq<(Seq<char>, Tree)>) -> Seq<Seq<char>>
    decreases kwargs, 0int,
{
    Seq::new(
        kwargs.len(),
        |i: int|
            if 0 <= i < kwargs.len() {
                kwargs[i].0 + seq!['='] + text_of(kwargs[i].1)
            } else {
                Seq::empty()
            },
    )
}

/// Whether a text is an identifier and nothing else.
pub open spec fn is_identifier(text: Seq<char>) -> bool {
    identifier_at(text, 0) == Ok::<(Seq<char>, int), ParseError>((text, text.len() as int))
}

/// Whether a text is a name and nothing else: an identifier that is no
/// keyword.
pub open spec fn is_name(text: Seq<char>) -> bool {
    is_identifier(text) && !is_keyword(text)
}

/// Whether a text is a string literal and nothing else: a quote, a body in
/// which each backslash escapes a character that can be escaped, and the
/// same quote again.
pub open spec fn is_string_literal(text: Seq<char>) -> bool {
    string_at(text, 0) == Ok::<(Tree, int), ParseError>((Tree::Str(text), text.len() as int))
}

/// Whether a text, taken alone, is a symbol and nothing else.
pub open spec fn is_symbol(text: Seq<char>) -> bool {
    value_at(text, 0) == Ok::<(Tree, int), ParseError>((Tree::Symbol(text), text.len() as int))
}

/// Whether the text of a value is one that the grammar reads as that value.
///
/// A boolean and an integer always are. A string is where it holds a string
/// literal, and a symbol where it holds a name. A float is where its text is
/// read as the same float. A set is where it is not empty, since empty braces
/// are a dictionary. A constructor is where its name is a name and its keys
/// are identifiers. Every value within the value has to be faithful too.
pub open spec fn faithful(tree: Tree) -> bool
    decreases tree, 1int,
{
    match tree {
        Tree::Bool(_) => true,
        Tree::Int(_) => true,
        Tree::Str(s) => is_string_literal(s),
        Tree::Float(_) => reads_back(tree),
        Tree::Symbol(s) => is_name(s),
        Tree::Tuple(xs) => faithful_items(xs),
        Tree::List(xs) => faithful_items(xs),
        Tree::SetOf(xs) => xs.len() > 0 && faithful_items(xs),
        Tree::Dict(ps) => faithful_entries(ps),
        Tree::Constructor(name, args) => is_name(name) && faithful_kwargs(args),
    }
}

/// Whether nothing in a value is printed as something else is: whether every
/// set in it holds something, so that it is not printed as the empty
/// dictionary is, and the text of every float in it is read as the float.
pub open spec fn prints_apart(tree: Tree) -> bool
    decreases tree,
{
    match tree {
        Tree::Float(_) => reads_back(tree),
        Tree::Tuple(xs) => forall|i: int| 0 <= i < xs.len() ==> prints_apart(#[trigger] xs[i]),
        Tree::List(xs) => forall|i: int| 0 <= i < xs.len() ==> prints_apart(#[trigger] xs[i]),
        Tree::SetOf(xs) => xs.len() > 0 && forall|i: int|
            0 <= i < xs.len() ==> prints_apart(#[trigger] xs[i]),
        Tree::Dict(ps) => forall|i: int|
            0 <= i < ps.len() ==> prints_apart((#[trigger] ps[i]).0) && prints_apart(ps[i].1),
        Tree::Constructor(_, args) => forall|i: int|
            0 <= i < args.len() ==> prints_apart((#[trigger] args[i]).1),
        _ => true,
    }
}

/// Whether the text of a value, taken alone, is read as that value.
pub open spec fn reads_back(tree: Tree) -> bool {
    value_at(text_of(tree), 0) == Ok::<(Tree, int), ParseError>(
        (tree, text_of(tree).len() as int),
    )
}

/// Whether every item of a sequence is faithful.
pub open spec fn faithful_items(items: Seq<Tree>) -> bool
    decreases items, 0int,
{
    forall|i: int| 0 <= i < items.len() ==> faithful(#[trigger] items[i])
}

/// Whether every key and value of a dictionary is faithful.
pub open spec fn faithful_entries(entries: Seq<(Tree, Tree)>) -> bool
    decreases entries, 0int,
{
    forall|i: int|
        0 <= i < entries.len() ==> faithful((#[trigger] entries[i]).0) && faithful(entries[i].1)
}

/// Whether every key of a constructor's arguments is an identifier and
/// every value is faithful.
pub open spec fn faithful_kwargs(kwargs: Seq<(Seq<char>, Tree)>) -> bool
    decreases kwargs, 0int,
{
    forall|i: int|
        0 <= i < kwargs.len() ==> is_identifier((#[trigger] kwargs[i]).0) && faithful(kwargs[i].1)
}

/// The decimal notation of a number is made of digits, one at least, and
/// denotes the number.
pub proof fn lemma_nat_text(n: nat)
    ensures
        nat_text(n).len() >= 1,
        forall|i: int| 0 <= i < nat_text(n).len() ==> is_digit(#[trigger] nat_text(n)[i]),
        digits_value(nat_text(n)) == n,
    decreases n,
{
    if n < 10 {
        let t = nat_text(n);
        assert(t.drop_last() =~= Seq::<char>::empty());
        assert(digits_value(t.drop_last()) == 0);
        assert(t.last() == digit_char(n));
    } else {
        lemma_nat_text(n / 10);
        let t = nat_text(n);
        let front = nat_text(n / 10);
        assert(t.drop_last() =~= front);
        assert(t.last() == digit_char(n % 10));
        assert forall|i: int| 0 <= i < t.len() implies is_digit(#[trigger] t[i]) by {
            if i < front.len() {
                assert(t[i] == front[i]);
            }
        }
    }
}

/// A run of digits that ends at `end` is what `digits_end` finds.
pub proof fn lemma_digits_run(t: Seq<char>, from: int, end: int)
    requires
        0 <= from <= end <= t.len(),
        forall|i: int| from <= i < end ==> is_digit(#[trigger] t[i]),
        end == t.len() || !is_digit(t[end]),
    ensures
        digits_end(t, from) == end,
    decreases end - from,
{
    if from < end {
        lemma_digits_run(t, from + 1, end);
    }
}

/// Every character of a run of digits is one.
pub proof fn lemma_digits_parts(s: Seq<char>, from: int)
    requires
        0 <= from,
    ensures
        forall|i: int| from <= i < digits_end(s, from) ==> is_digit(#[trigger] s[i]),
    decreases s.len() - from,
{
    if from < s.len() && is_digit(s[from]) {
        lemma_digits_parts(s, from + 1);
    }
}

/// The text of a boolean is read as the boolean.
pub proof fn lemma_bool_reads_back(b: bool)
    ensures
        reads_back(Tree::Bool(b)),
{
    let t = text_of(Tree::Bool(b));
    if b {
        assert(t.subrange(0, 4) =~= seq!['T', 'r', 'u', 'e']);
        assert(bool_at(t, 0) is Ok);
    } else {
        assert(t.subrange(0, 5) =~= seq!['F', 'a', 'l', 's', 'e']);
        assert(t[0] == 'F');
        if word_at(t, 0, seq!['T', 'r', 'u', 'e']) {
            assert(t.subrange(0, 4)[0] == 'T');
        }
        assert(bool_at(t, 0) is Ok);
    }
    assert(!number_starts(t, 0));
}

/// The text of an integer is read as the integer.
pub proof fn lemma_int_reads_back(i: i64)
    ensures
        reads_back(Tree::Int(i)),
{
    let t = text_of(Tree::Int(i));
    let m: nat = if i < 0 {
        (-i) as nat
    } else {
        i as nat
    };
    let digits = nat_text(m);
    lemma_nat_text(m);
    let start: int = if i < 0 {
        1
    } else {
        0
    };
    assert(t.len() == start + digits.len());
    assert forall|k: int| start <= k < t.len() implies is_digit(#[trigger] t[k]) by {
        assert(t[k] == digits[k - start]);
    }
    assert(is_digit(t[start]));
    if i < 0 {
        assert(t[0] == '-');
    }
    assert(char_at(t, 0, '-') == (i < 0));
    assert(magnitude_start(t, 0) == start);
    lemma_digits_run(t, start, t.len() as int);
    assert(integer_end(t, 0) == t.len());
    assert(fraction_end(t, t.len() as int) == t.len());
    assert(exponent_end(t, t.len() as int) == t.len());
    assert(number_end(t, 0) == t.len());
    assert(t.subrange(start, t.len() as int) =~= digits);
    assert(integer_value(t, 0) == i);
    assert(number_starts(t, 0));
    assert(int_at(t, 0) == Ok::<(Tree, int), ParseError>(
        (Tree::Int(i), t.len() as int),
    ));
    assert(number_at(t, 0) == int_at(t, 0));
}

/// A name, taken alone, is read as a symbol.
pub proof fn lemma_name_is_symbol(name: Seq<char>)
    requires
        is_name(name),
    ensures
        is_symbol(name),
{
    lemma_identifier_end_bounds(name, 1);
    assert(!number_starts(name, 0));
    if word_at(name, 0, seq!['T', 'r', 'u', 'e']) {
        assert(name.subrange(0, 4)[0] == 'T');
        if name.len() == 4 {
            assert(name.subrange(0, 4) =~= name);
        } else {
            lemma_identifier_parts(name, 1);
            assert(is_identifier_part(name[4]));
        }
    }
    if word_at(name, 0, seq!['F', 'a', 'l', 's', 'e']) {
        if name.len() == 5 {
            assert(name.subrange(0, 5) =~= name);
        } else {
            lemma_identifier_parts(name, 1);
            assert(is_identifier_part(name[5]));
        }
    }
    assert(bool_at(name, 0) is Err);
    assert(name_at(name, 0) == identifier_at(name, 0));
    assert(symbol_at(name, 0) == Ok::<(Tree, int), ParseError>(
        (Tree::Symbol(name), name.len() as int),
    ));
}

/// Every character of a run of identifier characters is one.
pub proof fn lemma_identifier_parts(s: Seq<char>, from: int)
    requires
        0 <= from,
    ensures
        forall|i: int| from <= i < identifier_end(s, from) ==> is_identifier_part(#[trigger] s[i]),
    decreases s.len() - from,
{
    if from < s.len() && is_identifier_part(s[from]) {
        lemma_identifier_parts(s, from + 1);
    }
}

/// The text of a faithful value that holds no value is read as the value.
pub proof fn lemma_scalar_reads_back(tree: Tree)
    requires
        faithful(tree),
        tree is Bool || tree is Int || tree is Str || tree is Float || tree is Symbol,
    ensures
        reads_back(tree),
{
    match tree {
        Tree::Bool(b) => {
            lemma_bool_reads_back(b);
        },
        Tree::Int(i) => {
            lemma_int_reads_back(i);
        },
        Tree::Str(s) => {
            assert(s.len() > 0);
            assert(!number_starts(s, 0));
            if word_at(s, 0, seq!['T', 'r', 'u', 'e']) {
                assert(s.subrange(0, 4)[0] == 'T');
            }
            if word_at(s, 0, seq!['F', 'a', 'l', 's', 'e']) {
                assert(s.subrange(0, 5)[0] == 'F');
            }
            assert(bool_at(s, 0) is Err);
        },
        Tree::Symbol(s) => {
            lemma_name_is_symbol(s);
        },
        _ => {},
    }
}

} // verus!
