//! The single-line text of a faithful value is read as that value.

use vstd::prelude::*;
use crate::canon::{
    entry_texts, faithful, faithful_entries, faithful_items, faithful_kwargs, is_identifier,
    is_name, item_texts, joined, kwarg_texts, lemma_bool_reads_back, lemma_int_reads_back,
    lemma_scalar_reads_back, text_of,
};
use crate::context::{
    can_start, ends_word, is_stop, lemma_identifier_end_local, lemma_name_local, lemma_name_shape,
    lemma_scalar_local, lemma_stands_as_range, lemma_stands_parts, lemma_value_start, stands_at,
    stops,
};
use crate::error::ParseError;
use crate::grammar::{
    advances, bool_at, braces_hold_set, constructor_at, dict_at, entries_at, entries_behind,
    entry_at, identifier_at, identifier_end, is_identifier_start, is_space, items_at, items_behind,
    kwarg_at, kwargs_at, kwargs_behind, list_at, number_starts, sequence_at, set_at, skip_spaces,
    tuple_at, value_at, word_at,
};
use crate::value::Tree;

verus! {

/// Whether the text of `tree` is read at `pos` as `tree`.
pub open spec fn reads(s: Seq<char>, pos: int, tree: Tree) -> bool {
    value_at(s, pos) == Ok::<(Tree, int), ParseError>((tree, pos + text_of(tree).len()))
}

/// The text of a faithful value is not empty and starts with a character
/// that a value can start with.
pub proof fn lemma_text_starts(tree: Tree)
    requires
        faithful(tree),
    ensures
        text_of(tree).len() > 0,
        can_start(text_of(tree)[0]),
{
    let t = text_of(tree);
    match tree {
        Tree::Bool(b) => {
            lemma_bool_reads_back(b);
            lemma_value_start(t);
        },
        Tree::Int(i) => {
            lemma_int_reads_back(i);
            lemma_value_start(t);
        },
        Tree::Str(_) => {
            lemma_scalar_reads_back(tree);
            lemma_value_start(t);
        },
        Tree::Float(_) => {
            lemma_value_start(t);
        },
        Tree::Symbol(_) => {
            lemma_scalar_reads_back(tree);
            lemma_value_start(t);
        },
        Tree::Tuple(xs) => {
            assert(t[0] == '(');
        },
        Tree::List(xs) => {
            assert(t[0] == '[');
        },
        Tree::SetOf(xs) => {
            assert(t[0] == '{');
        },
        Tree::Dict(ps) => {
            assert(t[0] == '{');
        },
        Tree::Constructor(name, args) => {
            lemma_name_shape(name);
            assert(t[0] == name[0]);
        },
    }
}

/// One space before a character that is no blank is all that is skipped.
pub proof fn lemma_skip_one_space(s: Seq<char>, pos: int)
    requires
        0 <= pos,
        pos + 1 < s.len(),
        s[pos] == ' ',
        !is_space(s[pos + 1]),
    ensures
        skip_spaces(s, pos) == pos + 1,
{
    assert(skip_spaces(s, pos + 1) == pos + 1);
}

/// At an opening delimiter no number and no boolean starts.
pub proof fn lemma_opening(s: Seq<char>, pos: int)
    requires
        0 <= pos < s.len(),
        s[pos] == '[' || s[pos] == '(' || s[pos] == '{',
    ensures
        !number_starts(s, pos),
        bool_at(s, pos) is Err,
{
    if word_at(s, pos, seq!['T', 'r', 'u', 'e']) {
        assert(s.subrange(pos, pos + 4)[0] == 'T');
    }
    if word_at(s, pos, seq!['F', 'a', 'l', 's', 'e']) {
        assert(s.subrange(pos, pos + 5)[0] == 'F');
    }
}

/// The text of a faithful value is read as the value, where what follows
/// it ends it.
pub proof fn lemma_value_reads(tree: Tree, s: Seq<char>, pos: int)
    requires
        faithful(tree),
        stands_at(s, pos, text_of(tree)),
        stops(s, pos + text_of(tree).len()),
    ensures
        reads(s, pos, tree),
    decreases tree, 0int,
{
    let t = text_of(tree);
    lemma_text_starts(tree);
    assert(s[pos + 0] == t[0]);
    match tree {
        Tree::Bool(b) => {
            lemma_scalar_local(s, pos, tree);
        },
        Tree::Int(i) => {
            lemma_scalar_local(s, pos, tree);
        },
        Tree::Str(_) => {
            lemma_scalar_local(s, pos, tree);
        },
        Tree::Float(_) => {
            lemma_scalar_local(s, pos, tree);
        },
        Tree::Symbol(_) => {
            lemma_scalar_local(s, pos, tree);
        },
        Tree::Tuple(xs) => {
            lemma_opening(s, pos);
            lemma_sequence_reads(xs, s, pos, '(', ')');
            assert(tuple_at(s, pos) == Ok::<(Tree, int), ParseError>((tree, pos + t.len())));
        },
        Tree::List(xs) => {
            lemma_opening(s, pos);
            lemma_sequence_reads(xs, s, pos, '[', ']');
            assert(list_at(s, pos) == Ok::<(Tree, int), ParseError>((tree, pos + t.len())));
        },
        Tree::SetOf(xs) => {
            lemma_opening(s, pos);
            lemma_set_reads(xs, s, pos);
        },
        Tree::Dict(ps) => {
            lemma_opening(s, pos);
            lemma_dict_reads(ps, s, pos);
        },
        Tree::Constructor(name, args) => {
            lemma_constructor_reads(name, args, s, pos);
        },
    }
}

/// The text of a set of faithful values, one at least, is read as the set.
pub proof fn lemma_set_reads(xs: Seq<Tree>, s: Seq<char>, pos: int)
    requires
        xs.len() > 0,
        faithful_items(xs),
        stands_at(s, pos, text_of(Tree::SetOf(xs))),
        !number_starts(s, pos),
        bool_at(s, pos) is Err,
    ensures
        reads(s, pos, Tree::SetOf(xs)),
    decreases xs, xs.len() + 2,
{
    let tree = Tree::SetOf(xs);
    let t = text_of(tree);
    assert(s[pos + 0] == t[0]);
    lemma_sequence_reads(xs, s, pos, '{', '}');
    assert(set_at(s, pos) == Ok::<(Tree, int), ParseError>((tree, pos + t.len())));
    // The first item is followed by a comma or the closing brace: the braces
    // hold a set.
    let texts = item_texts(xs);
    let first = text_of(xs[0]);
    assert(texts[0] == first);
    lemma_text_starts(xs[0]);
    let body = joined(texts, 0);
    assert(t =~= seq!['{'] + (body + seq!['}']));
    lemma_stands_parts(s, pos, seq!['{'], body + seq!['}']);
    let tail = lemma_joined_head(texts, 0, seq!['}']);
    lemma_stands_parts(s, pos + 1, first, tail);
    assert(s[pos + 1 + 0] == first[0]);
    assert(s[pos + 1 + first.len() + 0] == tail[0]);
    lemma_value_reads(xs[0], s, pos + 1);
    assert(braces_hold_set(s, pos));
}

/// The text of a dictionary of faithful values is read as the dictionary.
pub proof fn lemma_dict_reads(ps: Seq<(Tree, Tree)>, s: Seq<char>, pos: int)
    requires
        faithful_entries(ps),
        stands_at(s, pos, text_of(Tree::Dict(ps))),
        !number_starts(s, pos),
        bool_at(s, pos) is Err,
    ensures
        reads(s, pos, Tree::Dict(ps)),
    decreases ps, ps.len() + 2,
{
    let tree = Tree::Dict(ps);
    let t = text_of(tree);
    assert(s[pos + 0] == t[0]);
    let texts = entry_texts(ps);
    let body = joined(texts, 0);
    assert(t =~= seq!['{'] + (body + seq!['}']));
    lemma_stands_parts(s, pos, seq!['{'], body + seq!['}']);
    if ps.len() == 0 {
        assert(body.len() == 0);
        assert(s[pos + 1 + 0] == (body + seq!['}'])[0]);
        assert(ps =~= Seq::<(Tree, Tree)>::empty());
        assert(!braces_hold_set(s, pos));
        assert(dict_at(s, pos) == Ok::<(Tree, int), ParseError>((tree, pos + t.len())));
    } else {
        lemma_entries_read(ps, 0, s, pos + 1);
        assert(ps.skip(0) =~= ps);
        // The first key is followed by a colon: the braces hold a
        // dictionary.
        let key = text_of(ps[0].0);
        let value = text_of(ps[0].1);
        assert(texts[0] == key + seq![':', ' '] + value);
        lemma_text_starts(ps[0].0);
        lemma_first_of_joined(texts, 0, seq!['}']);
        assert(s[pos + 1 + 0] == (body + seq!['}'])[0]);
        let tail = lemma_joined_head(texts, 0, seq!['}']);
        let behind = seq![':', ' '] + value + tail;
        assert(texts[0] + tail =~= key + behind);
        lemma_stands_parts(s, pos + 1, key, behind);
        assert(s[pos + 1 + key.len() + 0] == behind[0]);
        lemma_value_reads(ps[0].0, s, pos + 1);
        assert(!braces_hold_set(s, pos));
        assert(dict_at(s, pos) == Ok::<(Tree, int), ParseError>((tree, pos + t.len())));
    }
}

/// The text of a constructor with a name and faithful arguments is read as
/// the constructor.
pub proof fn lemma_constructor_reads(
    name: Seq<char>,
    args: Seq<(Seq<char>, Tree)>,
    s: Seq<char>,
    pos: int,
)
    requires
        is_name(name),
        faithful_kwargs(args),
        stands_at(s, pos, text_of(Tree::Constructor(name, args))),
    ensures
        reads(s, pos, Tree::Constructor(name, args)),
    decreases args, args.len() + 2,
{
    let tree = Tree::Constructor(name, args);
    let t = text_of(tree);
    lemma_name_shape(name);
    let texts = kwarg_texts(args);
    let body = joined(texts, 0);
    assert(t =~= name + (seq!['('] + (body + seq![')'])));
    lemma_stands_parts(s, pos, name, seq!['('] + (body + seq![')']));
    let e = pos + name.len();
    lemma_stands_parts(s, e, seq!['('], body + seq![')']);
    assert(s[e + 0] == seq!['('][0]);
    assert(ends_word(s, e));
    lemma_name_local(s, pos, name);
    assert(s[pos + 0] == name[0]);
    if args.len() == 0 {
        assert(body.len() == 0);
        assert(s[e + 1 + 0] == (body + seq![')'])[0]);
        assert(args =~= Seq::<(Seq<char>, Tree)>::empty());
        assert(constructor_at(s, pos) == Ok::<(Tree, int), ParseError>((tree, pos + t.len())));
    } else {
        lemma_kwargs_read(args, 0, s, e + 1);
        assert(args.skip(0) =~= args);
        // The first key starts the arguments, not the closing parenthesis.
        let key = args[0].0;
        lemma_identifier_shape(key);
        assert(texts[0] == key + seq!['='] + text_of(args[0].1));
        lemma_first_of_joined(texts, 0, seq![')']);
        assert(s[e + 1 + 0] == (body + seq![')'])[0]);
        assert(constructor_at(s, pos) == Ok::<(Tree, int), ParseError>((tree, pos + t.len())));
    }
}

/// An identifier is not empty and starts as an identifier does.
pub proof fn lemma_identifier_shape(key: Seq<char>)
    requires
        is_identifier(key),
    ensures
        key.len() > 0,
        is_identifier_start(key[0]),
        identifier_end(key, 1) == key.len(),
{
}

/// The joined texts from `from` on, with `end` behind them, start with the
/// text at `from`; what follows that text is handed back.
pub proof fn lemma_joined_head(texts: Seq<Seq<char>>, from: int, end: Seq<char>) -> (tail: Seq<
    char,
>)
    requires
        0 <= from < texts.len(),
        end.len() > 0,
        is_stop(end[0]),
    ensures
        joined(texts, from) + end == texts[from] + tail,
        tail.len() > 0,
        is_stop(tail[0]),
        tail == if from + 1 == texts.len() {
            end
        } else {
            seq![',', ' '] + (joined(texts, from + 1) + end)
        },
{
    if from + 1 == texts.len() {
        end
    } else {
        let tail = seq![',', ' '] + (joined(texts, from + 1) + end);
        assert(joined(texts, from) + end =~= texts[from] + tail);
        tail
    }
}

/// The joined texts from `from` on, with `end` behind them, start with the
/// first character of the text at `from`, where that text is not empty.
pub proof fn lemma_first_of_joined(texts: Seq<Seq<char>>, from: int, end: Seq<char>)
    requires
        0 <= from < texts.len(),
        texts[from].len() > 0,
    ensures
        (joined(texts, from) + end).len() > 0,
        (joined(texts, from) + end)[0] == texts[from][0],
{
}

/// The text of a sequence of faithful values is read as the sequence.
pub proof fn lemma_sequence_reads(xs: Seq<Tree>, s: Seq<char>, pos: int, open: char, close: char)
    requires
        faithful_items(xs),
        close == ']' || close == ')' || close == '}',
        stands_at(s, pos, seq![open] + joined(item_texts(xs), 0) + seq![close]),
    ensures
        sequence_at(s, pos, open, close) == Ok::<(Seq<Tree>, int), ParseError>(
            (xs, pos + 1 + joined(item_texts(xs), 0).len() + 1),
        ),
    decreases xs, xs.len() + 1,
{
    let texts = item_texts(xs);
    let body = joined(texts, 0);
    let t = seq![open] + body + seq![close];
    assert(t =~= seq![open] + (body + seq![close]));
    lemma_stands_parts(s, pos, seq![open], body + seq![close]);
    assert(s[pos + 0] == seq![open][0]);
    if xs.len() == 0 {
        assert(body.len() == 0);
        assert(s[pos + 1 + 0] == (body + seq![close])[0]);
        assert(xs =~= Seq::<Tree>::empty());
    } else {
        assert(texts[0] == text_of(xs[0]));
        lemma_text_starts(xs[0]);
        lemma_first_of_joined(texts, 0, seq![close]);
        assert(s[pos + 1 + 0] == (body + seq![close])[0]);
        lemma_items_read(xs, 0, s, pos + 1, close);
        assert(xs.skip(0) =~= xs);
    }
}

/// The texts of faithful items from the `k`th on, joined and closed, are
/// read as those items.
pub proof fn lemma_items_read(xs: Seq<Tree>, k: int, s: Seq<char>, pos: int, close: char)
    requires
        faithful_items(xs),
        0 <= k < xs.len(),
        close == ']' || close == ')' || close == '}',
        stands_at(s, pos, joined(item_texts(xs), k) + seq![close]),
    ensures
        items_at(s, pos, close) == Ok::<(Seq<Tree>, int), ParseError>(
            (xs.skip(k), pos + joined(item_texts(xs), k).len() + 1),
        ),
    decreases xs, xs.len() - k,
{
    let texts = item_texts(xs);
    let t = text_of(xs[k]);
    assert(texts[k] == t);
    lemma_text_starts(xs[k]);
    let tail = lemma_joined_head(texts, k, seq![close]);
    lemma_stands_parts(s, pos, t, tail);
    let p = pos + t.len();
    assert(s[p + 0] == tail[0]);
    lemma_value_reads(xs[k], s, pos);
    assert(advances(s, pos, p));
    if k + 1 == xs.len() {
        assert(items_behind(s, p, close) == Ok::<(Seq<Tree>, int), ParseError>(
            (Seq::empty(), p + 1),
        ));
        assert(seq![xs[k]] + Seq::<Tree>::empty() =~= xs.skip(k));
    } else {
        let rest = joined(texts, k + 1) + seq![close];
        assert(tail == seq![',', ' '] + rest);
        lemma_stands_parts(s, p, seq![',', ' '], rest);
        assert(s[p + 1] == seq![',', ' '][1]);
        assert(texts[k + 1] == text_of(xs[k + 1]));
        lemma_text_starts(xs[k + 1]);
        lemma_first_of_joined(texts, k + 1, seq![close]);
        assert(s[p + 2 + 0] == rest[0]);
        lemma_skip_one_space(s, p + 1);
        lemma_items_read(xs, k + 1, s, p + 2, close);
        assert(items_behind(s, p, close) == items_at(s, p + 2, close));
        assert(seq![xs[k]] + xs.skip(k + 1) =~= xs.skip(k));
    }
}

/// The texts of faithful entries from the `k`th on, joined and closed, are
/// read as those entries.
pub proof fn lemma_entries_read(ps: Seq<(Tree, Tree)>, k: int, s: Seq<char>, pos: int)
    requires
        faithful_entries(ps),
        0 <= k < ps.len(),
        stands_at(s, pos, joined(entry_texts(ps), k) + seq!['}']),
    ensures
        entries_at(s, pos) == Ok::<(Seq<(Tree, Tree)>, int), ParseError>(
            (ps.skip(k), pos + joined(entry_texts(ps), k).len() + 1),
        ),
    decreases ps, ps.len() - k,
{
    let texts = entry_texts(ps);
    let key = text_of(ps[k].0);
    let value = text_of(ps[k].1);
    let t = key + seq![':', ' '] + value;
    assert(texts[k] == t);
    lemma_text_starts(ps[k].0);
    lemma_text_starts(ps[k].1);
    let tail = lemma_joined_head(texts, k, seq!['}']);
    lemma_stands_parts(s, pos, t, tail);
    let p = pos + t.len();
    assert(s[p + 0] == tail[0]);
    // The entry: the key, the colon and the space, the value.
    assert(t =~= key + (seq![':', ' '] + value));
    lemma_stands_parts(s, pos, key, seq![':', ' '] + value);
    let colon = pos + key.len();
    lemma_stands_parts(s, colon, seq![':', ' '], value);
    assert(s[colon + 0] == seq![':', ' '][0]);
    assert(s[colon + 1] == seq![':', ' '][1]);
    assert(s[colon + 2 + 0] == value[0]);
    lemma_value_reads(ps[k].0, s, pos);
    lemma_skip_one_space(s, colon + 1);
    lemma_value_reads(ps[k].1, s, colon + 2);
    assert(entry_at(s, pos) == Ok::<((Tree, Tree), int), ParseError>(((ps[k].0, ps[k].1), p)));
    assert(advances(s, pos, p));
    if k + 1 == ps.len() {
        assert(entries_behind(s, p) == Ok::<(Seq<(Tree, Tree)>, int), ParseError>(
            (Seq::empty(), p + 1),
        ));
        assert(seq![ps[k]] + Seq::<(Tree, Tree)>::empty() =~= ps.skip(k));
    } else {
        let rest = joined(texts, k + 1) + seq!['}'];
        assert(tail == seq![',', ' '] + rest);
        lemma_stands_parts(s, p, seq![',', ' '], rest);
        assert(s[p + 1] == seq![',', ' '][1]);
        assert(texts[k + 1] == text_of(ps[k + 1].0) + seq![':', ' '] + text_of(ps[k + 1].1));
        lemma_text_starts(ps[k + 1].0);
        lemma_first_of_joined(texts, k + 1, seq!['}']);
        assert(s[p + 2 + 0] == rest[0]);
        lemma_skip_one_space(s, p + 1);
        lemma_entries_read(ps, k + 1, s, p + 2);
        assert(entries_behind(s, p) == entries_at(s, p + 2));
        assert(seq![ps[k]] + ps.skip(k + 1) =~= ps.skip(k));
    }
}

/// The texts of faithful keyword arguments from the `k`th on, joined and
/// closed, are read as those arguments.
pub proof fn lemma_kwargs_read(args: Seq<(Seq<char>, Tree)>, k: int, s: Seq<char>, pos: int)
    requires
        faithful_kwargs(args),
        0 <= k < args.len(),
        stands_at(s, pos, joined(kwarg_texts(args), k) + seq![')']),
    ensures
        kwargs_at(s, pos) == Ok::<(Seq<(Seq<char>, Tree)>, int), ParseError>(
            (args.skip(k), pos + joined(kwarg_texts(args), k).len() + 1),
        ),
    decreases args, args.len() - k,
{
    let texts = kwarg_texts(args);
    let key = args[k].0;
    let value = text_of(args[k].1);
    let t = key + seq!['='] + value;
    assert(texts[k] == t);
    lemma_identifier_shape(key);
    lemma_text_starts(args[k].1);
    let tail = lemma_joined_head(texts, k, seq![')']);
    lemma_stands_parts(s, pos, t, tail);
    let p = pos + t.len();
    assert(s[p + 0] == tail[0]);
    // The argument: the key, the equals sign, the value.
    assert(t =~= key + (seq!['='] + value));
    lemma_stands_parts(s, pos, key, seq!['='] + value);
    let equals = pos + key.len();
    lemma_stands_parts(s, equals, seq!['='], value);
    assert(s[equals + 0] == seq!['='][0]);
    assert(s[pos + 0] == key[0]);
    assert(ends_word(s, equals));
    lemma_identifier_end_local(s, pos, key, 1);
    lemma_stands_as_range(s, pos, key);
    assert(identifier_at(s, pos) == Ok::<(Seq<char>, int), ParseError>((key, equals)));
    lemma_value_reads(args[k].1, s, equals + 1);
    assert(kwarg_at(s, pos) == Ok::<((Seq<char>, Tree), int), ParseError>(
        ((key, args[k].1), p),
    ));
    assert(advances(s, pos, p));
    if k + 1 == args.len() {
        assert(kwargs_behind(s, p) == Ok::<(Seq<(Seq<char>, Tree)>, int), ParseError>(
            (Seq::empty(), p + 1),
        ));
        assert(seq![args[k]] + Seq::<(Seq<char>, Tree)>::empty() =~= args.skip(k));
    } else {
        let rest = joined(texts, k + 1) + seq![')'];
        assert(tail == seq![',', ' '] + rest);
        lemma_stands_parts(s, p, seq![',', ' '], rest);
        assert(s[p + 1] == seq![',', ' '][1]);
        let next = args[k + 1].0;
        lemma_identifier_shape(next);
        assert(texts[k + 1] == next + seq!['='] + text_of(args[k + 1].1));
        lemma_first_of_joined(texts, k + 1, seq![')']);
        assert(s[p + 2 + 0] == rest[0]);
        lemma_skip_one_space(s, p + 1);
        lemma_kwargs_read(args, k + 1, s, p + 2);
        assert(kwargs_behind(s, p) == kwargs_at(s, p + 2));
        assert(seq![args[k]] + args.skip(k + 1) =~= args.skip(k));
    }
}

} // verus!
