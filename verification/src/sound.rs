//! What holds of everything that the grammar reads: a value is not empty,
//! lies within the text and is well formed, and a failure lies within the
//! text.

use vstd::prelude::*;
use crate::canon::{is_identifier, is_name, is_string_literal, lemma_identifier_parts};
use crate::error::ParseError;
use crate::grammar::{
    advances, bool_at, char_at, constructor_at, dict_at, entries_at, entries_behind, entry_at,
    fraction_end, identifier_at, identifier_end, integer_end, is_digit, is_escapable,
    is_identifier_part, is_identifier_start, items_at, items_behind, kwarg_at, kwargs_at,
    kwargs_behind, lemma_digits_end_bounds, lemma_identifier_end_bounds, lemma_skip_spaces_bounds,
    list_at, magnitude_start, number_at, number_end, number_starts, sequence_at, set_at,
    skip_spaces, string_at, string_close, symbol_at, tuple_at, value_at,
};
use crate::value::Tree;

verus! {

/// Whether a value is well formed: whether each string in it is a string
/// literal, each symbol and each constructor's name a name, and each key of a
/// keyword argument an identifier.
pub open spec fn well_formed(tree: Tree) -> bool
    decreases tree, 1int,
{
    match tree {
        Tree::Str(s) => is_string_literal(s),
        Tree::Symbol(s) => is_name(s),
        Tree::Tuple(xs) => well_formed_items(xs),
        Tree::List(xs) => well_formed_items(xs),
        Tree::SetOf(xs) => well_formed_items(xs),
        Tree::Dict(ps) => well_formed_entries(ps),
        Tree::Constructor(name, args) => is_name(name) && well_formed_kwargs(args),
        _ => true,
    }
}

/// Whether every item of a sequence is well formed.
pub open spec fn well_formed_items(items: Seq<Tree>) -> bool
    decreases items, 0int,
{
    forall|i: int| 0 <= i < items.len() ==> well_formed(#[trigger] items[i])
}

/// Whether every key and value of a dictionary is well formed.
pub open spec fn well_formed_entries(entries: Seq<(Tree, Tree)>) -> bool
    decreases entries, 0int,
{
    forall|i: int|
        0 <= i < entries.len() ==> well_formed((#[trigger] entries[i]).0) && well_formed(
            entries[i].1,
        )
}

/// Whether every key of a constructor's arguments is an identifier and every
/// value is well formed.
pub open spec fn well_formed_kwargs(kwargs: Seq<(Seq<char>, Tree)>) -> bool
    decreases kwargs, 0int,
{
    forall|i: int|
        0 <= i < kwargs.len() ==> is_identifier((#[trigger] kwargs[i]).0) && well_formed(
            kwargs[i].1,
        )
}

/// Whether a failure lies at or behind `pos` and within the text.
pub open spec fn fails_within(s: Seq<char>, pos: int, e: ParseError) -> bool {
    pos <= e.position <= s.len()
}

/// A number is not empty and ends within the text.
pub proof fn lemma_number_bounds(s: Seq<char>, pos: int)
    requires
        0 <= pos,
        number_starts(s, pos),
    ensures
        pos < integer_end(s, pos) <= number_end(s, pos) <= s.len(),
{
    let m = magnitude_start(s, pos);
    lemma_digits_end_bounds(s, m + 1);
    let a = integer_end(s, pos);
    if char_at(s, a, '.') {
        lemma_digits_end_bounds(s, a + 1);
    }
    let b = fraction_end(s, a);
    if char_at(s, b, 'e') || char_at(s, b, 'E') {
        let d = if char_at(s, b + 1, '+') || char_at(s, b + 1, '-') {
            b + 2
        } else {
            b + 1
        };
        if 0 <= d < s.len() && is_digit(s[d]) {
            lemma_digits_end_bounds(s, d);
        }
    }
}

/// The quote that closes a string lies within the text and is the quote
/// asked for, and the string up to it is closed by it when it stands alone.
pub proof fn lemma_string_close_within(s: Seq<char>, start: int, pos: int, quote: char)
    requires
        0 <= start <= pos,
        string_close(s, pos, quote) is Ok,
    ensures
        pos <= string_close(s, pos, quote)->Ok_0 < s.len(),
        s[string_close(s, pos, quote)->Ok_0] == quote,
        string_close(
            s.subrange(start, string_close(s, pos, quote)->Ok_0 + 1),
            pos - start,
            quote,
        ) == Ok::<int, ParseError>(string_close(s, pos, quote)->Ok_0 - start),
    decreases s.len() - pos,
{
    let close = string_close(s, pos, quote)->Ok_0;
    if s[pos] == quote {
        let q = s.subrange(start, close + 1);
        assert(q[pos - start] == quote);
    } else {
        let next = if s[pos] == '\\' {
            pos + 2
        } else {
            pos + 1
        };
        lemma_string_close_within(s, start, next, quote);
        let q = s.subrange(start, close + 1);
        assert(q[pos - start] == s[pos]);
        if s[pos] == '\\' {
            assert(q[pos - start + 1] == s[pos + 1]);
        }
    }
}

/// Where the grammar finds no quote that closes a string, the failure lies
/// within the text.
pub proof fn lemma_string_close_fails(s: Seq<char>, pos: int, quote: char)
    requires
        0 <= pos <= s.len() <= usize::MAX,
    ensures
        string_close(s, pos, quote) matches Err(e) ==> fails_within(s, pos, e),
    decreases s.len() - pos,
{
    if pos < s.len() && s[pos] != quote {
        if s[pos] == '\\' {
            if pos + 1 < s.len() && is_escapable(s[pos + 1]) {
                lemma_string_close_fails(s, pos + 2, quote);
            }
        } else {
            lemma_string_close_fails(s, pos + 1, quote);
        }
    }
}

/// A string that the grammar reads is not empty, ends within the text, and
/// is a string literal.
pub proof fn lemma_string_sound(s: Seq<char>, pos: int)
    requires
        0 <= pos,
        string_at(s, pos) is Ok,
    ensures
        advances(s, pos, string_at(s, pos)->Ok_0.1),
        well_formed(string_at(s, pos)->Ok_0.0),
{
    lemma_string_close_within(s, pos, pos + 1, s[pos]);
    let close = string_close(s, pos + 1, s[pos])->Ok_0;
    let q = s.subrange(pos, close + 1);
    assert(q[0] == s[pos]);
    assert(q.subrange(0, close - pos + 1) =~= q);
}

/// A run of identifier characters that ends at the end of the text is what
/// `identifier_end` finds.
pub proof fn lemma_identifier_run(t: Seq<char>, from: int)
    requires
        0 <= from <= t.len(),
        forall|i: int| from <= i < t.len() ==> is_identifier_part(#[trigger] t[i]),
    ensures
        identifier_end(t, from) == t.len(),
    decreases t.len() - from,
{
    if from < t.len() {
        lemma_identifier_run(t, from + 1);
    }
}

/// An identifier that the grammar reads is not empty, ends within the text,
/// and is an identifier when it stands alone.
pub proof fn lemma_identifier_sound(s: Seq<char>, pos: int)
    requires
        0 <= pos,
        identifier_at(s, pos) is Ok,
    ensures
        advances(s, pos, identifier_at(s, pos)->Ok_0.1),
        is_identifier(identifier_at(s, pos)->Ok_0.0),
{
    let end = identifier_end(s, pos + 1);
    lemma_identifier_end_bounds(s, pos + 1);
    lemma_identifier_parts(s, pos + 1);
    let name = s.subrange(pos, end);
    assert(name[0] == s[pos]);
    assert forall|i: int| 1 <= i < name.len() implies is_identifier_part(#[trigger] name[i]) by {
        assert(name[i] == s[pos + i]);
    }
    lemma_identifier_run(name, 1);
    assert(name.subrange(0, name.len() as int) =~= name);
}

/// A value that the grammar reads is not empty, ends within the text, and is
/// well formed.
/// Where the grammar fails, the failure lies within the text.
pub proof fn lemma_value_sound(s: Seq<char>, pos: int)
    requires
        0 <= pos <= s.len() <= usize::MAX,
    ensures
        value_at(s, pos) matches Err(e) ==> fails_within(s, pos, e),
        value_at(s, pos) matches Ok((tree, end)) ==> advances(s, pos, end) && well_formed(tree),
    decreases s.len() - pos, 2int,
{
    if pos < s.len() {
        if number_starts(s, pos) {
            lemma_number_bounds(s, pos);
            assert(value_at(s, pos) == number_at(s, pos));
        } else if bool_at(s, pos) is Ok {
        } else if s[pos] == '\'' || s[pos] == '"' {
            lemma_string_close_fails(s, pos + 1, s[pos]);
            if string_at(s, pos) is Ok {
                lemma_string_sound(s, pos);
            }
            assert(value_at(s, pos) == string_at(s, pos));
        } else if s[pos] == '[' {
            lemma_sequence_sound(s, pos, '[', ']');
            assert(value_at(s, pos) == list_at(s, pos));
        } else if s[pos] == '(' {
            lemma_sequence_sound(s, pos, '(', ')');
            assert(value_at(s, pos) == tuple_at(s, pos));
        } else if s[pos] == '{' {
            lemma_sequence_sound(s, pos, '{', '}');
            lemma_dict_sound(s, pos);
            assert(value_at(s, pos) == set_at(s, pos) || value_at(s, pos) == dict_at(s, pos));
        } else if is_identifier_start(s[pos]) {
            lemma_identifier_sound(s, pos);
            lemma_constructor_sound(s, pos);
            assert(value_at(s, pos) == constructor_at(s, pos) || value_at(s, pos) == symbol_at(
                s,
                pos,
            ));
        }
    }
}

/// The items of a sequence that the grammar reads are well formed, and the
/// sequence is not empty and ends within the text.
/// Where the grammar fails, the failure lies within the text.
pub proof fn lemma_sequence_sound(s: Seq<char>, pos: int, open: char, close: char)
    requires
        0 <= pos <= s.len() <= usize::MAX,
    ensures
        sequence_at(s, pos, open, close) matches Err(e) ==> fails_within(s, pos, e),
        sequence_at(s, pos, open, close) matches Ok((items, end)) ==> advances(s, pos, end)
            && well_formed_items(items),
    decreases s.len() - pos, 0int,
{
    if char_at(s, pos, open) && !char_at(s, pos + 1, close) {
        lemma_items_sound(s, pos + 1, close);
    }
}

/// The items that the grammar reads are well formed, and they are not empty
/// and end within the text.
/// Where the grammar fails, the failure lies within the text.
pub proof fn lemma_items_sound(s: Seq<char>, pos: int, close: char)
    requires
        0 <= pos <= s.len() <= usize::MAX,
    ensures
        items_at(s, pos, close) matches Err(e) ==> fails_within(s, pos, e),
        items_at(s, pos, close) matches Ok((items, end)) ==> advances(s, pos, end)
            && well_formed_items(items),
    decreases s.len() - pos, 3int,
{
    lemma_value_sound(s, pos);
    if let Ok((item, end)) = value_at(s, pos) {
        lemma_items_behind_sound(s, end, close);
        if let Ok((rest, behind)) = items_behind(s, end, close) {
            let items = seq![item] + rest;
            assert forall|i: int| 0 <= i < items.len() implies well_formed(#[trigger] items[i]) by {
                if i > 0 {
                    assert(items[i] == rest[i - 1]);
                }
            }
        }
    }
}

/// The items that the grammar reads behind an item are well formed, and they
/// end behind that item and within the text.
/// Where the grammar fails, the failure lies within the text.
pub proof fn lemma_items_behind_sound(s: Seq<char>, pos: int, close: char)
    requires
        0 <= pos <= s.len() <= usize::MAX,
    ensures
        items_behind(s, pos, close) matches Err(e) ==> fails_within(s, pos, e),
        items_behind(s, pos, close) matches Ok((items, end)) ==> advances(s, pos, end)
            && well_formed_items(items),
    decreases s.len() - pos, 0int,
{
    if !char_at(s, pos, close) && char_at(s, pos, ',') {
        lemma_skip_spaces_bounds(s, pos + 1);
        lemma_items_sound(s, skip_spaces(s, pos + 1), close);
    }
}

/// An entry that the grammar reads is well formed, not empty, and ends
/// within the text.
/// Where the grammar fails, the failure lies within the text.
pub proof fn lemma_entry_sound(s: Seq<char>, pos: int)
    requires
        0 <= pos <= s.len() <= usize::MAX,
    ensures
        entry_at(s, pos) matches Err(e) ==> fails_within(s, pos, e),
        entry_at(s, pos) matches Ok(((key, value), end)) ==> advances(s, pos, end) && well_formed(
            key,
        ) && well_formed(value),
    decreases s.len() - pos, 3int,
{
    lemma_value_sound(s, pos);
    if let Ok((key, end)) = value_at(s, pos) {
        if char_at(s, end, ':') {
            lemma_skip_spaces_bounds(s, end + 1);
            lemma_value_sound(s, skip_spaces(s, end + 1));
        }
    }
}

/// The entries that the grammar reads are well formed, and they are not
/// empty and end within the text.
/// Where the grammar fails, the failure lies within the text.
pub proof fn lemma_entries_sound(s: Seq<char>, pos: int)
    requires
        0 <= pos <= s.len() <= usize::MAX,
    ensures
        entries_at(s, pos) matches Err(e) ==> fails_within(s, pos, e),
        entries_at(s, pos) matches Ok((entries, end)) ==> advances(s, pos, end)
            && well_formed_entries(entries),
    decreases s.len() - pos, 4int,
{
    lemma_entry_sound(s, pos);
    if let Ok((entry, end)) = entry_at(s, pos) {
        lemma_entries_behind_sound(s, end);
        if let Ok((rest, behind)) = entries_behind(s, end) {
            let entries = seq![entry] + rest;
            assert forall|i: int| 0 <= i < entries.len() implies well_formed(
                (#[trigger] entries[i]).0,
            ) && well_formed(entries[i].1) by {
                if i > 0 {
                    assert(entries[i] == rest[i - 1]);
                }
            }
        }
    }
}

/// The entries that the grammar reads behind an entry are well formed, and
/// they end behind that entry and within the text.
/// Where the grammar fails, the failure lies within the text.
pub proof fn lemma_entries_behind_sound(s: Seq<char>, pos: int)
    requires
        0 <= pos <= s.len() <= usize::MAX,
    ensures
        entries_behind(s, pos) matches Err(e) ==> fails_within(s, pos, e),
        entries_behind(s, pos) matches Ok((entries, end)) ==> advances(s, pos, end)
            && well_formed_entries(entries),
    decreases s.len() - pos, 0int,
{
    if !char_at(s, pos, '}') && char_at(s, pos, ',') {
        lemma_skip_spaces_bounds(s, pos + 1);
        lemma_entries_sound(s, skip_spaces(s, pos + 1));
    }
}

/// A dictionary that the grammar reads is well formed, not empty, and ends
/// within the text.
/// Where the grammar fails, the failure lies within the text.
pub proof fn lemma_dict_sound(s: Seq<char>, pos: int)
    requires
        0 <= pos <= s.len() <= usize::MAX,
    ensures
        dict_at(s, pos) matches Err(e) ==> fails_within(s, pos, e),
        dict_at(s, pos) matches Ok((tree, end)) ==> advances(s, pos, end) && well_formed(tree),
    decreases s.len() - pos, 1int,
{
    if char_at(s, pos, '{') && !char_at(s, pos + 1, '}') {
        lemma_entries_sound(s, pos + 1);
    }
}

/// A keyword argument that the grammar reads has an identifier for its key
/// and a well-formed value, is not empty, and ends within the text.
/// Where the grammar fails, the failure lies within the text.
pub proof fn lemma_kwarg_sound(s: Seq<char>, pos: int)
    requires
        0 <= pos <= s.len() <= usize::MAX,
    ensures
        kwarg_at(s, pos) matches Err(e) ==> fails_within(s, pos, e),
        kwarg_at(s, pos) matches Ok(((key, value), end)) ==> advances(s, pos, end)
            && is_identifier(key) && well_formed(value),
    decreases s.len() - pos, 3int,
{
    if identifier_at(s, pos) is Ok {
        lemma_identifier_sound(s, pos);
        let end = identifier_at(s, pos)->Ok_0.1;
        if char_at(s, end, '=') {
            lemma_value_sound(s, end + 1);
        }
    }
}

/// The keyword arguments that the grammar reads are well formed, and they
/// are not empty and end within the text.
/// Where the grammar fails, the failure lies within the text.
pub proof fn lemma_kwargs_sound(s: Seq<char>, pos: int)
    requires
        0 <= pos <= s.len() <= usize::MAX,
    ensures
        kwargs_at(s, pos) matches Err(e) ==> fails_within(s, pos, e),
        kwargs_at(s, pos) matches Ok((kwargs, end)) ==> advances(s, pos, end)
            && well_formed_kwargs(kwargs),
    decreases s.len() - pos, 4int,
{
    lemma_kwarg_sound(s, pos);
    if let Ok((kwarg, end)) = kwarg_at(s, pos) {
        lemma_kwargs_behind_sound(s, end);
        if let Ok((rest, behind)) = kwargs_behind(s, end) {
            let kwargs = seq![kwarg] + rest;
            assert forall|i: int| 0 <= i < kwargs.len() implies is_identifier(
                (#[trigger] kwargs[i]).0,
            ) && well_formed(kwargs[i].1) by {
                if i > 0 {
                    assert(kwargs[i] == rest[i - 1]);
                }
            }
        }
    }
}

/// The keyword arguments that the grammar reads behind an argument are well
/// formed, and they end behind that argument and within the text.
/// Where the grammar fails, the failure lies within the text.
pub proof fn lemma_kwargs_behind_sound(s: Seq<char>, pos: int)
    requires
        0 <= pos <= s.len() <= usize::MAX,
    ensures
        kwargs_behind(s, pos) matches Err(e) ==> fails_within(s, pos, e),
        kwargs_behind(s, pos) matches Ok((kwargs, end)) ==> advances(s, pos, end)
            && well_formed_kwargs(kwargs),
    decreases s.len() - pos, 0int,
{
    if !char_at(s, pos, ')') && char_at(s, pos, ',') {
        lemma_skip_spaces_bounds(s, pos + 1);
        lemma_kwargs_sound(s, skip_spaces(s, pos + 1));
    }
}

/// A constructor that the grammar reads is well formed, not empty, and ends
/// within the text.
/// Where the grammar fails, the failure lies within the text.
pub proof fn lemma_constructor_sound(s: Seq<char>, pos: int)
    requires
        0 <= pos <= s.len() <= usize::MAX,
    ensures
        constructor_at(s, pos) matches Err(e) ==> fails_within(s, pos, e),
        constructor_at(s, pos) matches Ok((tree, end)) ==> advances(s, pos, end) && well_formed(
            tree,
        ),
    decreases s.len() - pos, 1int,
{
    if identifier_at(s, pos) is Ok {
        lemma_identifier_sound(s, pos);
        let end = identifier_at(s, pos)->Ok_0.1;
        if char_at(s, end, '(') && !char_at(s, end + 1, ')') {
            lemma_kwargs_sound(s, end + 1);
        }
    }
}

} // verus!
