//! The recursive descent: parsers for values and for the forms that hold
//! values, each from a position in the text.

use vstd::prelude::*;
use crate::error::{ErrorKind, ParseError};
use crate::grammar::{
    braces_hold_set, char_at, constructor_at, dict_at, due_at, entries_behind, entry_at,
    items_behind, kwarg_at, kwargs_behind, list_at, prepend_all, sequence_at, set_at, tuple_at,
    value_at,
};
use crate::scan::{
    agrees, bool_from, colon_space, comma_space, fail, has_char, identifier, identifier_start, name,
    number_from, number_starts_at, scan_identifier_parts, string_from, stuck_at, symbol_from,
};
use crate::value::{
    lemma_named_trees_push, lemma_pair_trees_push, lemma_trees_push, named_trees, pair_trees, trees,
    Tree, Value,
};

verus! {

/// Whether the items that a parser found, behind the items `before` that it
/// was given, are what the grammar says.
pub open spec fn items_agree(
    found: Result<(Vec<Value>, usize), ParseError>,
    before: Seq<Tree>,
    wanted: Result<(Seq<Tree>, int), ParseError>,
) -> bool {
    match wanted {
        Ok((items, end)) => found matches Ok((values, behind)) && trees(values@) == before + items
            && behind == end,
        Err(e) => found matches Err(f) && f == e,
    }
}

/// Whether the entries that a parser found, behind the entries `before`, are
/// what the grammar says.
pub open spec fn entries_agree(
    found: Result<(Vec<(Value, Value)>, usize), ParseError>,
    before: Seq<(Tree, Tree)>,
    wanted: Result<(Seq<(Tree, Tree)>, int), ParseError>,
) -> bool {
    match wanted {
        Ok((entries, end)) => found matches Ok((values, behind)) && pair_trees(values@) == before
            + entries && behind == end,
        Err(e) => found matches Err(f) && f == e,
    }
}

/// Whether the keyword arguments that a parser found, behind the arguments
/// `before`, are what the grammar says.
pub open spec fn kwargs_agree(
    found: Result<(Vec<(String, Value)>, usize), ParseError>,
    before: Seq<(Seq<char>, Tree)>,
    wanted: Result<(Seq<(Seq<char>, Tree)>, int), ParseError>,
) -> bool {
    match wanted {
        Ok((kwargs, end)) => found matches Ok((values, behind)) && named_trees(values@) == before
            + kwargs && behind == end,
        Err(e) => found matches Err(f) && f == e,
    }
}

/// Parses a value at `pos`.
pub fn value_from(chars: &Vec<char>, pos: usize) -> (found: Result<(Value, usize), ParseError>)
    requires
        pos <= chars.len(),
    ensures
        agrees(found, value_at(chars@, pos as int)),
        found matches Ok((_, end)) ==> pos < end <= chars.len(),
    decreases chars.len() - pos, 2int,
{
    if pos >= chars.len() {
        return Err(fail(ErrorKind::UnexpectedCharacter, pos));
    }
    if number_starts_at(chars, pos) {
        return number_from(chars, pos);
    }
    match bool_from(chars, pos) {
        Ok(found) => {
            return Ok(found);
        },
        Err(_) => {},
    }
    let c = chars[pos];
    if c == '\'' || c == '"' {
        string_from(chars, pos)
    } else if c == '[' {
        list_from(chars, pos)
    } else if c == '(' {
        tuple_from(chars, pos)
    } else if c == '{' {
        braces_from(chars, pos)
    } else if identifier_start(c) {
        let end = scan_identifier_parts(chars, pos + 1);
        if has_char(chars, end, '(') {
            constructor_from(chars, pos)
        } else {
            symbol_from(chars, pos)
        }
    } else {
        Err(fail(ErrorKind::UnexpectedCharacter, pos))
    }
}

/// Parses a value that is due at `pos`, within brackets.
pub fn value_due(chars: &Vec<char>, pos: usize) -> (found: Result<(Value, usize), ParseError>)
    requires
        pos <= chars.len(),
    ensures
        agrees(found, due_at(chars@, pos as int)),
        found matches Ok((_, end)) ==> pos < end <= chars.len(),
    decreases chars.len() - pos, 3int,
{
    if pos >= chars.len() {
        Err(fail(ErrorKind::UnterminatedLiteral, pos))
    } else {
        value_from(chars, pos)
    }
}

/// Parses what follows an item of a sequence that ends at `pos`: the further
/// items and the closing delimiter. Hands back the items that it was given
/// and, behind them, those that it found.
pub fn items_rest(chars: &Vec<char>, given: Vec<Value>, pos: usize, close: char) -> (found: Result<
    (Vec<Value>, usize),
    ParseError,
>)
    requires
        pos <= chars.len(),
    ensures
        items_agree(found, trees(given@), items_behind(chars@, pos as int, close)),
        found matches Ok((_, end)) ==> pos < end <= chars.len(),
    decreases chars.len() - pos, 0int,
{
    let ghost before = trees(given@);
    let ghost mut added: Seq<Tree> = Seq::empty();
    let mut items = given;
    let mut at: usize = pos;
    assert(before + added =~= before);
    loop
        invariant
            pos <= at <= chars.len(),
            before == trees(given@),
            trees(items@) == before + added,
            items_behind(chars@, pos as int, close) == prepend_all(
                added,
                items_behind(chars@, at as int, close),
            ),
        decreases chars.len() - at,
    {
        if has_char(chars, at, close) {
            assert(added + Seq::<Tree>::empty() =~= added);
            return Ok((items, at + 1));
        }
        match comma_space(chars, at) {
            None => {
                return Err(stuck_at(chars, at));
            },
            Some(next) => match value_due(chars, next) {
                Err(e) => {
                    return Err(e);
                },
                Ok((item, end)) => {
                    proof {
                        let tail = items_behind(chars@, end as int, close);
                        if let Ok((rest, behind)) = tail {
                            assert(added + (seq![item@] + rest) =~= added.push(item@) + rest);
                        }
                        lemma_trees_push(items@, item);
                        assert((before + added).push(item@) =~= before + added.push(item@));
                        added = added.push(item@);
                    }
                    items.push(item);
                    at = end;
                },
            },
        }
    }
}

/// Parses a sequence at `pos`.
pub fn parse_seq(chars: &Vec<char>, pos: usize, open: char, close: char) -> (found: Result<
    (Vec<Value>, usize),
    ParseError,
>)
    requires
        pos <= chars.len(),
    ensures
        items_agree(found, Seq::empty(), sequence_at(chars@, pos as int, open, close)),
        found matches Ok((_, end)) ==> pos < end <= chars.len(),
    decreases chars.len() - pos, 0int,
{
    if !has_char(chars, pos, open) {
        return Err(fail(ErrorKind::UnexpectedCharacter, pos));
    }
    if has_char(chars, pos + 1, close) {
        let items: Vec<Value> = Vec::new();
        assert(trees(items@) =~= Seq::<Tree>::empty() + Seq::<Tree>::empty());
        return Ok((items, pos + 2));
    }
    match value_due(chars, pos + 1) {
        Err(e) => Err(e),
        Ok((first, end)) => {
            let mut items: Vec<Value> = Vec::new();
            items.push(first);
            assert(trees(items@) =~= seq![first@]);
            let found = items_rest(chars, items, end, close);
            proof {
                if let Ok((rest, behind)) = items_behind(chars@, end as int, close) {
                    assert(seq![first@] + rest =~= Seq::<Tree>::empty() + (seq![first@] + rest));
                }
            }
            found
        },
    }
}

/// Parses a list at `pos`.
pub fn list_from(chars: &Vec<char>, pos: usize) -> (found: Result<(Value, usize), ParseError>)
    requires
        pos <= chars.len(),
    ensures
        agrees(found, list_at(chars@, pos as int)),
        found matches Ok((_, end)) ==> pos < end <= chars.len(),
    decreases chars.len() - pos, 1int,
{
    match parse_seq(chars, pos, '[', ']') {
        Ok((items, end)) => {
            proof {
                assert(Seq::<Tree>::empty() + sequence_at(chars@, pos as int, '[', ']')->Ok_0.0
                    =~= sequence_at(chars@, pos as int, '[', ']')->Ok_0.0);
            }
            Ok((Value::List(items), end))
        },
        Err(e) => Err(e),
    }
}

/// Parses a tuple at `pos`.
pub fn tuple_from(chars: &Vec<char>, pos: usize) -> (found: Result<(Value, usize), ParseError>)
    requires
        pos <= chars.len(),
    ensures
        agrees(found, tuple_at(chars@, pos as int)),
        found matches Ok((_, end)) ==> pos < end <= chars.len(),
    decreases chars.len() - pos, 1int,
{
    match parse_seq(chars, pos, '(', ')') {
        Ok((items, end)) => {
            proof {
                assert(Seq::<Tree>::empty() + sequence_at(chars@, pos as int, '(', ')')->Ok_0.0
                    =~= sequence_at(chars@, pos as int, '(', ')')->Ok_0.0);
            }
            Ok((Value::Tuple(items), end))
        },
        Err(e) => Err(e),
    }
}

/// Parses a set at `pos`.
pub fn set_from(chars: &Vec<char>, pos: usize) -> (found: Result<(Value, usize), ParseError>)
    requires
        pos <= chars.len(),
    ensures
        agrees(found, set_at(chars@, pos as int)),
        found matches Ok((_, end)) ==> pos < end <= chars.len(),
    decreases chars.len() - pos, 1int,
{
    match parse_seq(chars, pos, '{', '}') {
        Ok((items, end)) => {
            proof {
                assert(Seq::<Tree>::empty() + sequence_at(chars@, pos as int, '{', '}')->Ok_0.0
                    =~= sequence_at(chars@, pos as int, '{', '}')->Ok_0.0);
            }
            Ok((Value::SetOf(items), end))
        },
        Err(e) => Err(e),
    }
}

/// Parses an entry of a dictionary at `pos`.
pub fn parse_dict_key_value(chars: &Vec<char>, pos: usize) -> (found: Result<
    ((Value, Value), usize),
    ParseError,
>)
    requires
        pos <= chars.len(),
    ensures
        match entry_at(chars@, pos as int) {
            Ok(((key, value), end)) => found matches Ok(((k, v), behind)) && k@ == key && v@
                == value && behind == end,
            Err(e) => found matches Err(f) && f == e,
        },
        found matches Ok((_, end)) ==> pos < end <= chars.len(),
    decreases chars.len() - pos, 4int,
{
    match value_due(chars, pos) {
        Err(e) => Err(e),
        Ok((key, end)) => entry_value_from(chars, pos, key, end),
    }
}

/// Parses what follows the key of an entry that starts at `pos`, where the
/// key ends at `end`: the colon, blanks, and the entry's value.
pub fn entry_value_from(chars: &Vec<char>, pos: usize, key: Value, end: usize) -> (found: Result<
    ((Value, Value), usize),
    ParseError,
>)
    requires
        pos < end <= chars.len(),
        due_at(chars@, pos as int) == Ok::<(Tree, int), ParseError>((key@, end as int)),
    ensures
        match entry_at(chars@, pos as int) {
            Ok(((k, v), behind)) => found matches Ok(((fk, fv), fb)) && fk@ == k && fv@ == v && fb
                == behind,
            Err(e) => found matches Err(f) && f == e,
        },
        found matches Ok((_, behind)) ==> pos < behind <= chars.len(),
    decreases chars.len() - end, 4int,
{
    match colon_space(chars, end) {
        None => Err(stuck_at(chars, end)),
        Some(next) => match value_due(chars, next) {
            Err(e) => Err(e),
            Ok((value, behind)) => Ok(((key, value), behind)),
        },
    }
}

/// Parses what follows an entry of a dictionary that ends at `pos`: the
/// further entries and the closing brace. Hands back the entries that it was
/// given and, behind them, those that it found.
pub fn entries_rest(chars: &Vec<char>, given: Vec<(Value, Value)>, pos: usize) -> (found: Result<
    (Vec<(Value, Value)>, usize),
    ParseError,
>)
    requires
        pos <= chars.len(),
    ensures
        entries_agree(found, pair_trees(given@), entries_behind(chars@, pos as int)),
        found matches Ok((_, end)) ==> pos < end <= chars.len(),
    decreases chars.len() - pos, 0int,
{
    let ghost before = pair_trees(given@);
    let ghost mut added: Seq<(Tree, Tree)> = Seq::empty();
    let mut entries = given;
    let mut at: usize = pos;
    assert(before + added =~= before);
    loop
        invariant
            pos <= at <= chars.len(),
            before == pair_trees(given@),
            pair_trees(entries@) == before + added,
            entries_behind(chars@, pos as int) == prepend_all(
                added,
                entries_behind(chars@, at as int),
            ),
        decreases chars.len() - at,
    {
        if has_char(chars, at, '}') {
            assert(added + Seq::<(Tree, Tree)>::empty() =~= added);
            return Ok((entries, at + 1));
        }
        match comma_space(chars, at) {
            None => {
                return Err(stuck_at(chars, at));
            },
            Some(next) => match parse_dict_key_value(chars, next) {
                Err(e) => {
                    return Err(e);
                },
                Ok((entry, end)) => {
                    proof {
                        let tree = (entry.0@, entry.1@);
                        let tail = entries_behind(chars@, end as int);
                        if let Ok((rest, behind)) = tail {
                            assert(added + (seq![tree] + rest) =~= added.push(tree) + rest);
                        }
                        lemma_pair_trees_push(entries@, entry);
                        assert((before + added).push(tree) =~= before + added.push(tree));
                        added = added.push(tree);
                    }
                    entries.push(entry);
                    at = end;
                },
            },
        }
    }
}

/// Parses a dictionary at `pos`.
pub fn dict_from(chars: &Vec<char>, pos: usize) -> (found: Result<(Value, usize), ParseError>)
    requires
        pos <= chars.len(),
    ensures
        agrees(found, dict_at(chars@, pos as int)),
        found matches Ok((_, end)) ==> pos < end <= chars.len(),
    decreases chars.len() - pos, 1int,
{
    if !has_char(chars, pos, '{') {
        return Err(fail(ErrorKind::UnexpectedCharacter, pos));
    }
    if has_char(chars, pos + 1, '}') {
        let entries: Vec<(Value, Value)> = Vec::new();
        proof {
            assert(pair_trees(entries@) =~= Seq::<(Tree, Tree)>::empty());
        }
        return Ok((Value::Dict(entries), pos + 2));
    }
    match parse_dict_key_value(chars, pos + 1) {
        Err(e) => Err(e),
        Ok((first, end)) => dict_rest(chars, pos, first, end),
    }
}

/// Parses what follows the first entry of the dictionary that opens at `pos`,
/// where that entry ends at `end`.
pub fn dict_rest(chars: &Vec<char>, pos: usize, first: (Value, Value), end: usize) -> (found:
    Result<(Value, usize), ParseError>)
    requires
        pos + 1 < end <= chars.len(),
        char_at(chars@, pos as int, '{'),
        !char_at(chars@, pos + 1, '}'),
        entry_at(chars@, pos + 1) == Ok::<((Tree, Tree), int), ParseError>(
            ((first.0@, first.1@), end as int),
        ),
    ensures
        agrees(found, dict_at(chars@, pos as int)),
        found matches Ok((_, behind)) ==> pos < behind <= chars.len(),
    decreases chars.len() - end, 1int,
{
    let mut entries: Vec<(Value, Value)> = Vec::new();
    let ghost tree = (first.0@, first.1@);
    entries.push(first);
    assert(pair_trees(entries@) =~= seq![tree]);
    match entries_rest(chars, entries, end) {
        Err(e) => Err(e),
        Ok((entries, behind)) => Ok((Value::Dict(entries), behind)),
    }
}

/// Parses what the braces that open at `pos` hold: a set or a dictionary.
pub fn braces_from(chars: &Vec<char>, pos: usize) -> (found: Result<(Value, usize), ParseError>)
    requires
        pos < chars.len(),
        chars@[pos as int] == '{',
    ensures
        agrees(
            found,
            if braces_hold_set(chars@, pos as int) {
                set_at(chars@, pos as int)
            } else {
                dict_at(chars@, pos as int)
            },
        ),
        found matches Ok((_, end)) ==> pos < end <= chars.len(),
    decreases chars.len() - pos, 1int,
{
    if has_char(chars, pos + 1, '}') {
        let entries: Vec<(Value, Value)> = Vec::new();
        proof {
            assert(pair_trees(entries@) =~= Seq::<(Tree, Tree)>::empty());
        }
        return Ok((Value::Dict(entries), pos + 2));
    }
    match value_due(chars, pos + 1) {
        Err(e) => Err(e),
        Ok((first, end)) => {
            if has_char(chars, end, ':') {
                match entry_value_from(chars, pos + 1, first, end) {
                    Err(e) => Err(e),
                    Ok((entry, behind)) => dict_rest(chars, pos, entry, behind),
                }
            } else {
                let mut items: Vec<Value> = Vec::new();
                items.push(first);
                assert(trees(items@) =~= seq![first@]);
                match items_rest(chars, items, end, '}') {
                    Err(e) => Err(e),
                    Ok((items, behind)) => Ok((Value::SetOf(items), behind)),
                }
            }
        },
    }
}

/// Parses a keyword argument at `pos`.
pub fn parse_kwarg(chars: &Vec<char>, pos: usize) -> (found: Result<
    ((String, Value), usize),
    ParseError,
>)
    requires
        pos <= chars.len(),
    ensures
        match kwarg_at(chars@, pos as int) {
            Ok(((key, value), end)) => found matches Ok(((k, v), behind)) && k@ == key && v@
                == value && behind == end,
            Err(e) => found matches Err(f) && f == e,
        },
        found matches Ok((_, end)) ==> pos < end <= chars.len(),
    decreases chars.len() - pos, 4int,
{
    if pos >= chars.len() {
        return Err(fail(ErrorKind::UnterminatedLiteral, pos));
    }
    match identifier(chars, pos) {
        Err(e) => Err(e),
        Ok((key, end)) => {
            if !has_char(chars, end, '=') {
                return Err(stuck_at(chars, end));
            }
            match value_due(chars, end + 1) {
                Err(e) => Err(e),
                Ok((value, behind)) => Ok(((key, value), behind)),
            }
        },
    }
}

/// Parses what follows a keyword argument that ends at `pos`: the further
/// arguments and the closing parenthesis. Hands back the arguments that it
/// was given and, behind them, those that it found.
pub fn kwargs_rest(chars: &Vec<char>, given: Vec<(String, Value)>, pos: usize) -> (found: Result<
    (Vec<(String, Value)>, usize),
    ParseError,
>)
    requires
        pos <= chars.len(),
    ensures
        kwargs_agree(found, named_trees(given@), kwargs_behind(chars@, pos as int)),
        found matches Ok((_, end)) ==> pos < end <= chars.len(),
    decreases chars.len() - pos, 0int,
{
    let ghost before = named_trees(given@);
    let ghost mut added: Seq<(Seq<char>, Tree)> = Seq::empty();
    let mut kwargs = given;
    let mut at: usize = pos;
    assert(before + added =~= before);
    loop
        invariant
            pos <= at <= chars.len(),
            before == named_trees(given@),
            named_trees(kwargs@) == before + added,
            kwargs_behind(chars@, pos as int) == prepend_all(
                added,
                kwargs_behind(chars@, at as int),
            ),
        decreases chars.len() - at,
    {
        if has_char(chars, at, ')') {
            assert(added + Seq::<(Seq<char>, Tree)>::empty() =~= added);
            return Ok((kwargs, at + 1));
        }
        match comma_space(chars, at) {
            None => {
                return Err(stuck_at(chars, at));
            },
            Some(next) => match parse_kwarg(chars, next) {
                Err(e) => {
                    return Err(e);
                },
                Ok((kwarg, end)) => {
                    proof {
                        let tree = (kwarg.0@, kwarg.1@);
                        let tail = kwargs_behind(chars@, end as int);
                        if let Ok((rest, behind)) = tail {
                            assert(added + (seq![tree] + rest) =~= added.push(tree) + rest);
                        }
                        lemma_named_trees_push(kwargs@, kwarg);
                        assert((before + added).push(tree) =~= before + added.push(tree));
                        added = added.push(tree);
                    }
                    kwargs.push(kwarg);
                    at = end;
                },
            },
        }
    }
}

/// Parses a constructor at `pos`.
pub fn constructor_from(chars: &Vec<char>, pos: usize) -> (found: Result<
    (Value, usize),
    ParseError,
>)
    requires
        pos <= chars.len(),
    ensures
        agrees(found, constructor_at(chars@, pos as int)),
        found matches Ok((_, end)) ==> pos < end <= chars.len(),
    decreases chars.len() - pos, 1int,
{
    match name(chars, pos) {
        Err(e) => Err(e),
        Ok((name, end)) => {
            if !has_char(chars, end, '(') {
                return Err(stuck_at(chars, end));
            }
            let mut kwargs: Vec<(String, Value)> = Vec::new();
            if has_char(chars, end + 1, ')') {
                proof {
                    assert(named_trees(kwargs@) =~= Seq::<(Seq<char>, Tree)>::empty());
                }
                return Ok((Value::Constructor(name, kwargs), end + 2));
            }
            match parse_kwarg(chars, end + 1) {
                Err(e) => Err(e),
                Ok((first, behind)) => {
                    let ghost tree = (first.0@, first.1@);
                    kwargs.push(first);
                    assert(named_trees(kwargs@) =~= seq![tree]);
                    match kwargs_rest(chars, kwargs, behind) {
                        Err(e) => Err(e),
                        Ok((kwargs, last)) => Ok((Value::Constructor(name, kwargs), last)),
                    }
                },
            }
        },
    }
}

} // verus!
