//! What holds of the grammar, of equality, and of printing and parsing
//! together.

use vstd::prelude::*;
use crate::canon::{
    faithful, faithful_entries, faithful_items, faithful_kwargs, is_identifier, lemma_digits_parts,
    lemma_digits_run, prints_apart, text_of,
};
use crate::context::{lemma_number_alone, stands_at};
use crate::error::ParseError;
use crate::floats::{digits_start, is_whole};
use crate::grammar::{
    bool_at, braces_hold_set, char_at, constructor_at, dict_at, fraction_end, int_at, integer_end,
    integer_value, is_digit, is_identifier_start, list_at, magnitude_start, number_at, number_end,
    number_starts, set_at, string_at, string_close, symbol_at, tuple_at, value_at,
};
use crate::options::PrintOptions;
use crate::print::{document_of, lemma_single_line, rendered, stays_on_a_line};
use crate::roundtrip::{lemma_opening, lemma_value_reads};
use crate::sound::{
    lemma_number_bounds, lemma_string_close_within, well_formed, well_formed_entries,
    well_formed_items, well_formed_kwargs,
};
use crate::trusted::float_display;
use crate::value::{alike, alike_entries, alike_items, alike_kwargs, holds_no_float, Tree, Value};

verus! {

/// The document of a value is a text or a group.
pub proof fn lemma_document_shape(tree: Tree, indent: nat)
    ensures
        document_of(tree, indent) is Text || document_of(tree, indent) is Group,
{
}

/// The single-line text of a faithful value is read as the value, all of
/// it.
pub proof fn law_text_reads_back(tree: Tree)
    requires
        faithful(tree),
    ensures
        value_at(text_of(tree), 0) == Ok::<(Tree, int), ParseError>(
            (tree, text_of(tree).len() as int),
        ),
{
    let t = text_of(tree);
    assert(stands_at(t, 0, t));
    lemma_value_reads(tree, t, 0);
}

/// Printing and then parsing gives the value back: a faithful value that
/// stays on a line, because it is plain or because its single-line text fits
/// the line, is laid out as its single-line text, and this text is read as
/// the value, all of it.
pub proof fn law_round_trip(tree: Tree, options: PrintOptions)
    requires
        faithful(tree),
        stays_on_a_line(tree, options),
    ensures
        document_of(tree, options.indent as nat).single_line(options.columns as nat) == Some(
            text_of(tree),
        ),
        value_at(text_of(tree), 0) == Ok::<(Tree, int), ParseError>(
            (tree, text_of(tree).len() as int),
        ),
{
    lemma_single_line(tree, options);
    law_text_reads_back(tree);
}

/// Printing twice gives the same text: what a value is laid out to depends
/// on nothing but its content and the options.
pub proof fn law_render_again(first: Value, second: Value, options: PrintOptions)
    requires
        first@ == second@,
    ensures
        rendered(first@, options) == rendered(second@, options),
{
}

/// Empty braces are a dictionary, never a set.
pub proof fn law_empty_braces(s: Seq<char>, pos: int)
    requires
        char_at(s, pos, '{'),
        char_at(s, pos + 1, '}'),
    ensures
        value_at(s, pos) == Ok::<(Tree, int), ParseError>((Tree::Dict(Seq::empty()), pos + 2)),
{
    lemma_opening(s, pos);
    assert(!braces_hold_set(s, pos));
    assert(dict_at(s, pos) == Ok::<(Tree, int), ParseError>((Tree::Dict(Seq::empty()), pos + 2)));
}

/// A number is read whole, as an integer or as a float: as an integer where
/// it has neither fraction nor exponent and fits in 64 bits, as a float
/// otherwise.
pub proof fn law_integer_or_float(s: Seq<char>, pos: int)
    requires
        0 <= pos,
        number_starts(s, pos),
        value_at(s, pos) is Ok,
    ensures
        value_at(s, pos)->Ok_0.1 == number_end(s, pos),
        value_at(s, pos)->Ok_0.0 is Int || value_at(s, pos)->Ok_0.0 is Float,
        value_at(s, pos)->Ok_0.0 is Int <==> number_end(s, pos) == integer_end(s, pos) && i64::MIN
            <= integer_value(s, pos) <= i64::MAX,
        value_at(s, pos)->Ok_0.0 matches Tree::Int(i) ==> i == integer_value(s, pos),
{
    lemma_number_bounds(s, pos);
    assert(value_at(s, pos) == number_at(s, pos));
}

/// A string is kept as it is written: the value holds the text from the
/// opening quote to the closing quote, and the two quotes are the same.
pub proof fn law_string_is_kept(s: Seq<char>, pos: int)
    requires
        0 <= pos,
        value_at(s, pos) matches Ok((tree, _)) && tree is Str,
    ensures
        value_at(s, pos) matches Ok((Tree::Str(text), end)) && text == s.subrange(pos, end)
            && text.len() >= 2 && (text[0] == '\'' || text[0] == '"') && text.last() == text[0],
{
    lemma_string_start(s, pos);
    assert(value_at(s, pos) == string_at(s, pos));
    lemma_string_close_within(s, pos, pos + 1, s[pos]);
    let close = string_close(s, pos + 1, s[pos])->Ok_0;
    let text = s.subrange(pos, close + 1);
    assert(text[0] == s[pos]);
    assert(text.last() == s[close]);
}

/// A value that starts as a number or as a boolean does is no string.
proof fn lemma_string_start(s: Seq<char>, pos: int)
    requires
        0 <= pos,
        value_at(s, pos) matches Ok((tree, _)) && tree is Str,
    ensures
        pos < s.len(),
        !number_starts(s, pos),
        bool_at(s, pos) is Err,
        s[pos] == '\'' || s[pos] == '"',
{
    if number_starts(s, pos) {
        assert(value_at(s, pos) == number_at(s, pos));
    } else if bool_at(s, pos) is Err {
        let alone = value_at(s, pos);
        if s[pos] == '[' {
            assert(list_at(s, pos) == alone);
        } else if s[pos] == '(' {
            assert(tuple_at(s, pos) == alone);
        } else if s[pos] == '{' {
            assert(set_at(s, pos) == alone || dict_at(s, pos) == alone);
        } else if is_identifier_start(s[pos]) {
            assert(constructor_at(s, pos) == alone || symbol_at(s, pos) == alone);
        }
    }
}

/// Without floats, to be alike is to be equal: a value that holds no float
/// is alike exactly the values with its content.
pub proof fn law_alike_without_floats(a: Tree, b: Tree)
    requires
        holds_no_float(a),
    ensures
        alike(a, b) <==> a == b,
    decreases a,
{
    match (a, b) {
        (Tree::Tuple(xs), Tree::Tuple(ys)) => {
            lemma_alike_items_without_floats(xs, ys);
        },
        (Tree::List(xs), Tree::List(ys)) => {
            lemma_alike_items_without_floats(xs, ys);
        },
        (Tree::SetOf(xs), Tree::SetOf(ys)) => {
            lemma_alike_items_without_floats(xs, ys);
        },
        (Tree::Dict(xs), Tree::Dict(ys)) => {
            if xs.len() == ys.len() {
                assert forall|i: int| 0 <= i < xs.len() implies (alike(xs[i].0, ys[i].0)
                    <==> xs[i].0 == ys[i].0) && (alike(xs[i].1, ys[i].1) <==> xs[i].1
                    == ys[i].1) by {
                    assert(holds_no_float(xs[i].0));
                    law_alike_without_floats(xs[i].0, ys[i].0);
                    law_alike_without_floats(xs[i].1, ys[i].1);
                }
                if alike_entries(xs, ys) {
                    assert forall|i: int| 0 <= i < xs.len() implies xs[i] == ys[i] by {
                        assert(alike(xs[i].0, ys[i].0));
                    }
                    assert(xs =~= ys);
                }
            }
        },
        (Tree::Constructor(n, xs), Tree::Constructor(m, ys)) => {
            if xs.len() == ys.len() {
                assert forall|i: int| 0 <= i < xs.len() implies (alike(xs[i].1, ys[i].1)
                    <==> xs[i].1 == ys[i].1) by {
                    assert(holds_no_float(xs[i].1));
                    law_alike_without_floats(xs[i].1, ys[i].1);
                }
                if alike_kwargs(xs, ys) {
                    assert forall|i: int| 0 <= i < xs.len() implies xs[i] == ys[i] by {
                        assert(xs[i].0 == ys[i].0);
                    }
                    assert(xs =~= ys);
                }
            }
        },
        _ => {},
    }
}

/// Without floats, sequences are alike exactly where they are equal.
proof fn lemma_alike_items_without_floats(xs: Seq<Tree>, ys: Seq<Tree>)
    requires
        forall|i: int| 0 <= i < xs.len() ==> holds_no_float(#[trigger] xs[i]),
    ensures
        alike_items(xs, ys) <==> xs == ys,
    decreases xs,
{
    if xs.len() == ys.len() {
        assert forall|i: int| 0 <= i < xs.len() implies (alike(xs[i], ys[i]) <==> xs[i]
            == ys[i]) by {
            assert(holds_no_float(xs[i]));
            law_alike_without_floats(xs[i], ys[i]);
        }
        if alike_items(xs, ys) {
            assert forall|i: int| 0 <= i < xs.len() implies xs[i] == ys[i] by {
                assert(alike(xs[i], ys[i]));
            }
            assert(xs =~= ys);
        }
    }
}

/// The faithful values are the well-formed values in which nothing is
/// printed as something else is: in which every string is a string literal,
/// every symbol and every constructor's name a name, every key an
/// identifier, every set holds something, and the text of every float is
/// read as the float.
pub proof fn law_faithful(tree: Tree)
    ensures
        faithful(tree) <==> well_formed(tree) && prints_apart(tree),
    decreases tree,
{
    match tree {
        Tree::Tuple(xs) => {
            lemma_faithful_items(xs);
        },
        Tree::List(xs) => {
            lemma_faithful_items(xs);
        },
        Tree::SetOf(xs) => {
            lemma_faithful_items(xs);
        },
        Tree::Dict(ps) => {
            assert forall|i: int| 0 <= i < ps.len() implies (faithful(ps[i].0) <==> well_formed(
                ps[i].0,
            ) && prints_apart(ps[i].0)) && (faithful(ps[i].1) <==> well_formed(ps[i].1)
                && prints_apart(ps[i].1)) by {
                law_faithful(ps[i].0);
                law_faithful(ps[i].1);
            }
            if faithful_entries(ps) {
                assert forall|i: int| 0 <= i < ps.len() implies well_formed(
                    (#[trigger] ps[i]).0,
                ) && well_formed(ps[i].1) && prints_apart(ps[i].0) && prints_apart(ps[i].1) by {
                    assert(faithful(ps[i].0));
                }
            }
            if well_formed_entries(ps) && prints_apart(tree) {
                assert forall|i: int| 0 <= i < ps.len() implies faithful((#[trigger] ps[i]).0)
                    && faithful(ps[i].1) by {
                    assert(well_formed(ps[i].0));
                    assert(prints_apart(ps[i].0));
                }
            }
        },
        Tree::Constructor(name, args) => {
            assert forall|i: int| 0 <= i < args.len() implies (faithful(args[i].1) <==> well_formed(
                args[i].1,
            ) && prints_apart(args[i].1)) by {
                law_faithful(args[i].1);
            }
            if faithful_kwargs(args) {
                assert forall|i: int| 0 <= i < args.len() implies is_identifier(
                    (#[trigger] args[i]).0,
                ) && well_formed(args[i].1) && prints_apart(args[i].1) by {
                    assert(faithful(args[i].1));
                }
            }
            if well_formed_kwargs(args) && prints_apart(tree) {
                assert forall|i: int| 0 <= i < args.len() implies is_identifier(
                    (#[trigger] args[i]).0,
                ) && faithful(args[i].1) by {
                    assert(well_formed(args[i].1));
                    assert(prints_apart(args[i].1));
                }
            }
        },
        _ => {},
    }
}

/// The faithful items are the well-formed items in which nothing is printed
/// as something else is.
proof fn lemma_faithful_items(xs: Seq<Tree>)
    ensures
        faithful_items(xs) <==> well_formed_items(xs) && forall|i: int|
            0 <= i < xs.len() ==> prints_apart(#[trigger] xs[i]),
    decreases xs,
{
    assert forall|i: int| 0 <= i < xs.len() implies (faithful(xs[i]) <==> well_formed(xs[i])
        && prints_apart(xs[i])) by {
        law_faithful(xs[i]);
    }
    if faithful_items(xs) {
        assert forall|i: int| 0 <= i < xs.len() implies well_formed(#[trigger] xs[i])
            && prints_apart(xs[i]) by {
            assert(faithful(xs[i]));
        }
    }
    if well_formed_items(xs) && forall|i: int|
        0 <= i < xs.len() ==> prints_apart(#[trigger] xs[i]) {
        assert forall|i: int| 0 <= i < xs.len() implies faithful(#[trigger] xs[i]) by {
            assert(well_formed(xs[i]));
        }
    }
}

/// A float is written as no integer is: the text of a float is never read,
/// all of it, as an integer.
pub proof fn law_float_is_no_integer(bits: u64)
    ensures
        !(value_at(text_of(Tree::Float(bits)), 0) matches Ok((tree, end)) && tree is Int && end
            == text_of(Tree::Float(bits)).len()),
{
    let t = float_display(bits);
    let w = text_of(Tree::Float(bits));
    if is_whole(t) {
        let start = digits_start(t);
        let n = t.len() as int;
        assert(w[0] == t[0]);
        assert(w[start] == t[start]);
        assert forall|i: int| start <= i < t.len() implies is_digit(#[trigger] w[i]) by {
            assert(w[i] == t[i]);
        }
        assert(w[n] == '.');
        assert(w[n + 1] == '0');
        assert(number_starts(w, 0));
        lemma_digits_run(w, start, n);
        assert(integer_end(w, 0) == n);
        lemma_digits_run(w, n + 1, n + 2);
        assert(fraction_end(w, n) == n + 2);
        lemma_number_bounds(w, 0);
        assert(value_at(w, 0) == number_at(w, 0));
        assert(int_at(w, 0) is Err);
    } else if value_at(w, 0) matches Ok((tree, end)) && tree is Int && end == w.len() {
        let tree = value_at(w, 0)->Ok_0.0;
        lemma_number_alone(w, tree);
        assert(int_at(w, 0) is Ok);
        lemma_digits_parts(w, magnitude_start(w, 0));
        lemma_number_bounds(w, 0);
        assert(is_whole(w));
    }
}

} // verus!
