//! The fully expanded form of a value: every sequence that holds anything is
//! written over several lines, one item to a line. Each item is indented by
//! one step more than the sequence and followed by a comma, the last one too;
//! the closing delimiter stands on a line of its own, indented as the
//! sequence is. A sequence without items is its two delimiters.

use vstd::prelude::*;
use vstd::string::StringExecFns;
use crate::floats::{float_text, float_to_string};
use crate::options::PrintOptions;
use crate::text::{int_text, int_to_string};
use crate::trusted::float_display;
use crate::value::{named_trees, pair_trees, trees, Tree, Value};

verus! {

/// `n` spaces.
pub open spec fn spaces(n: nat) -> Seq<char> {
    Seq::new(n, |i: int| ' ')
}

/// The indentation of nesting level `level`, with `indent` spaces to a step.
pub open spec fn margin(level: nat, indent: nat) -> Seq<char> {
    spaces(level * indent)
}

/// The lines of the given items at nesting level `level`: each item behind
/// its indentation, with a comma and a line break behind it.
pub open spec fn lines(items: Seq<Seq<char>>, level: nat, indent: nat) -> Seq<char>
    decreases items.len(),
{
    if items.len() == 0 {
        Seq::empty()
    } else {
        lines(items.drop_last(), level, indent) + margin(level, indent) + items.last() + seq![
            ',',
            '\n',
        ]
    }
}

/// The expanded form of a sequence at nesting level `level`, given its
/// delimiters and the expanded forms of its items.
pub open spec fn expanded_sequence(
    open: char,
    items: Seq<Seq<char>>,
    close: char,
    level: nat,
    indent: nat,
) -> Seq<char> {
    if items.len() == 0 {
        seq![open, close]
    } else {
        seq![open, '\n'] + lines(items, level + 1, indent) + margin(level, indent) + seq![close]
    }
}

/// The expanded form of a value at nesting level `level`.
pub open spec fn expanded(tree: Tree, level: nat, indent: nat) -> Seq<char>
    decreases tree, 1int,
{
    match tree {
        Tree::Bool(b) => if b {
            "True"@
        } else {
            "False"@
        },
        Tree::Str(s) => s,
        Tree::Int(i) => int_text(i as int),
        Tree::Float(bits) => float_text(float_display(bits)),
        Tree::Symbol(s) => s,
        Tree::Tuple(xs) => expanded_sequence(
            '(',
            expanded_items(xs, level + 1, indent),
            ')',
            level,
            indent,
        ),
        Tree::List(xs) => expanded_sequence(
            '[',
            expanded_items(xs, level + 1, indent),
            ']',
            level,
            indent,
        ),
        Tree::SetOf(xs) => expanded_sequence(
            '{',
            expanded_items(xs, level + 1, indent),
            '}',
            level,
            indent,
        ),
        Tree::Dict(ps) => expanded_sequence(
            '{',
            expanded_entries(ps, level + 1, indent),
            '}',
            level,
            indent,
        ),
        Tree::Constructor(name, args) => name + expanded_sequence(
            '(',
            expanded_kwargs(args, level + 1, indent),
            ')',
            level,
            indent,
        ),
    }
}

/// The expanded forms of the items of a sequence.
pub open spec fn expanded_items(items: Seq<Tree>, level: nat, indent: nat) -> Seq<Seq<char>>
    decreases items, 0int,
{
    Seq::new(
        items.len(),
        |i: int|
            if 0 <= i < items.len() {
                expanded(items[i], level, indent)
            } else {
                Seq::empty()
            },
    )
}

/// The expanded form of an entry of a dictionary: the key, a colon and a
/// space, the value.
pub open spec fn expanded_entry(key: Seq<char>, value: Seq<char>) -> Seq<char> {
    key + seq![':', ' '] + value
}

/// The expanded forms of the entries of a dictionary.
pub open spec fn expanded_entries(entries: Seq<(Tree, Tree)>, level: nat, indent: nat) -> Seq<
    Seq<char>,
>
    decreases entries, 0int,
{
    Seq::new(
        entries.len(),
        |i: int|
            if 0 <= i < entries.len() {
                expanded_entry(
                    expanded(entries[i].0, level, indent),
                    expanded(entries[i].1, level, indent),
                )
            } else {
                Seq::empty()
            },
    )
}

/// The expanded form of a keyword argument: the key, an equals sign, the
/// value.
pub open spec fn expanded_kwarg(key: Seq<char>, value: Seq<char>) -> Seq<char> {
    key + seq!['='] + value
}

/// The expanded forms of the keyword arguments of a constructor.
pub open spec fn expanded_kwargs(kwargs: Seq<(Seq<char>, Tree)>, level: nat, indent: nat) -> Seq<
    Seq<char>,
>
    decreases kwargs, 0int,
{
    Seq::new(
        kwargs.len(),
        |i: int|
            if 0 <= i < kwargs.len() {
                expanded_kwarg(kwargs[i].0, expanded(kwargs[i].1, level, indent))
            } else {
                Seq::empty()
            },
    )
}

/// Whether the nesting levels of a value that stands at level `level` can
/// all be counted by the machine.
pub open spec fn levels_fit(tree: Tree, level: nat) -> bool
    decreases tree, 1int,
{
    match tree {
        Tree::Tuple(xs) => items_fit(xs, level),
        Tree::List(xs) => items_fit(xs, level),
        Tree::SetOf(xs) => items_fit(xs, level),
        Tree::Dict(ps) => entries_fit(ps, level),
        Tree::Constructor(_, args) => kwargs_fit(args, level),
        _ => true,
    }
}

/// Whether the items of a sequence at level `level` fit the machine's count.
pub open spec fn items_fit(items: Seq<Tree>, level: nat) -> bool
    decreases items, 0int,
{
    items.len() > 0 ==> level < usize::MAX && forall|i: int|
        0 <= i < items.len() ==> levels_fit(#[trigger] items[i], level + 1)
}

/// Whether the entries of a dictionary at level `level` fit the machine's
/// count.
pub open spec fn entries_fit(entries: Seq<(Tree, Tree)>, level: nat) -> bool
    decreases entries, 0int,
{
    entries.len() > 0 ==> level < usize::MAX && forall|i: int|
        0 <= i < entries.len() ==> levels_fit((#[trigger] entries[i]).0, level + 1) && levels_fit(
            entries[i].1,
            level + 1,
        )
}

/// Whether the arguments of a constructor at level `level` fit the machine's
/// count.
pub open spec fn kwargs_fit(kwargs: Seq<(Seq<char>, Tree)>, level: nat) -> bool
    decreases kwargs, 0int,
{
    kwargs.len() > 0 ==> level < usize::MAX && forall|i: int|
        0 <= i < kwargs.len() ==> levels_fit((#[trigger] kwargs[i]).1, level + 1)
}

/// Writes the indentation of nesting level `level`.
pub fn indent(out: &mut String, level: usize, options: &PrintOptions)
    ensures
        final(out)@ == old(out)@ + margin(level as nat, options.indent as nat),
{
    let ghost before = out@;
    let width = options.indent;
    assert(0 * width == 0) by (nonlinear_arith);
    assert(before + spaces(0) =~= before);
    for i in 0..level
        invariant
            width == options.indent,
            out@ == before + spaces((i * width) as nat),
    {
        assert(i * width + 0 == i * width);
        for j in 0..width
            invariant
                out@ == before + spaces((i * width + j) as nat),
        {
            out.push(' ');
            assert(before + spaces((i * width + j + 1) as nat) =~= (before + spaces(
                (i * width + j) as nat,
            )).push(' '));
        }
        assert(i * width + width == (i + 1) * width) by (nonlinear_arith);
    }
}

/// Writes the expanded form of a sequence at nesting level `level`.
pub fn write_comma_seq(
    out: &mut String,
    xs: &Vec<Value>,
    open: char,
    close: char,
    level: usize,
    options: &PrintOptions,
)
    requires
        items_fit(trees(xs@), level as nat),
    ensures
        final(out)@ == old(out)@ + expanded_sequence(
            open,
            expanded_items(trees(xs@), level as nat + 1, options.indent as nat),
            close,
            level as nat,
            options.indent as nat,
        ),
    decreases xs, 0int,
{
    let ghost before = out@;
    let ghost step = options.indent as nat;
    let ghost items = expanded_items(trees(xs@), level as nat + 1, step);
    out.push(open);
    if xs.len() > 0 {
        out.push('\n');
        assert(out@ =~= before + seq![open, '\n'] + lines(items.take(0), level as nat + 1, step));
        for i in 0..xs.len()
            invariant
                level < usize::MAX,
                step == options.indent as nat,
                items == expanded_items(trees(xs@), level as nat + 1, step),
                items_fit(trees(xs@), level as nat),
                out@ == before + seq![open, '\n'] + lines(
                    items.take(i as int),
                    level as nat + 1,
                    step,
                ),
        {
            let ghost start = out@;
            assert(levels_fit(trees(xs@)[i as int], level as nat + 1));
            indent(out, level + 1, options);
            display_value(out, &xs[i], level + 1, options);
            out.push(',');
            out.push('\n');
            proof {
                assert(items.take(i + 1).drop_last() =~= items.take(i as int));
                assert(items.take(i + 1).last() == items[i as int]);
                assert(out@ =~= start + margin(level as nat + 1, step) + items[i as int] + seq![
                    ',',
                    '\n',
                ]);
                assert(out@ =~= before + seq![open, '\n'] + lines(
                    items.take(i + 1),
                    level as nat + 1,
                    step,
                ));
            }
        }
        assert(items.take(xs@.len() as int) =~= items);
        indent(out, level, options);
        out.push(close);
        assert(out@ =~= before + expanded_sequence(open, items, close, level as nat, step));
    } else {
        out.push(close);
        assert(out@ =~= before + seq![open, close]);
    }
}

/// Writes a keyword argument: its key, an equals sign, and the expanded form
/// of its value at nesting level `level`.
pub fn write_kwarg(out: &mut String, kwarg: &(String, Value), level: usize, options: &PrintOptions)
    requires
        levels_fit(kwarg.1@, level as nat),
    ensures
        final(out)@ == old(out)@ + expanded_kwarg(
            kwarg.0@,
            expanded(kwarg.1@, level as nat, options.indent as nat),
        ),
    decreases kwarg, 2int,
{
    let ghost before = out@;
    out.append(kwarg.0.as_str());
    out.push('=');
    display_value(out, &kwarg.1, level, options);
    assert(out@ =~= before + expanded_kwarg(
        kwarg.0@,
        expanded(kwarg.1@, level as nat, options.indent as nat),
    ));
}

/// Writes the expanded form of a constructor at nesting level `level`.
pub fn write_constructor(
    out: &mut String,
    name: &String,
    kwargs: &Vec<(String, Value)>,
    level: usize,
    options: &PrintOptions,
)
    requires
        kwargs_fit(named_trees(kwargs@), level as nat),
    ensures
        final(out)@ == old(out)@ + (name@ + expanded_sequence(
            '(',
            expanded_kwargs(named_trees(kwargs@), level as nat + 1, options.indent as nat),
            ')',
            level as nat,
            options.indent as nat,
        )),
    decreases kwargs, 3int,
{
    let ghost before = out@;
    let ghost step = options.indent as nat;
    let ghost items = expanded_kwargs(named_trees(kwargs@), level as nat + 1, step);
    out.append(name.as_str());
    out.push('(');
    if kwargs.len() > 0 {
        out.push('\n');
        assert(out@ =~= before + name@ + seq!['(', '\n'] + lines(
            items.take(0),
            level as nat + 1,
            step,
        ));
        for i in 0..kwargs.len()
            invariant
                level < usize::MAX,
                step == options.indent as nat,
                items == expanded_kwargs(named_trees(kwargs@), level as nat + 1, step),
                kwargs_fit(named_trees(kwargs@), level as nat),
                out@ == before + name@ + seq!['(', '\n'] + lines(
                    items.take(i as int),
                    level as nat + 1,
                    step,
                ),
        {
            let ghost start = out@;
            assert(levels_fit(named_trees(kwargs@)[i as int].1, level as nat + 1));
            indent(out, level + 1, options);
            write_kwarg(out, &kwargs[i], level + 1, options);
            out.push(',');
            out.push('\n');
            proof {
                assert(items.take(i + 1).drop_last() =~= items.take(i as int));
                assert(items.take(i + 1).last() == items[i as int]);
                assert(out@ =~= start + margin(level as nat + 1, step) + items[i as int] + seq![
                    ',',
                    '\n',
                ]);
                assert(out@ =~= before + name@ + seq!['(', '\n'] + lines(
                    items.take(i + 1),
                    level as nat + 1,
                    step,
                ));
            }
        }
        assert(items.take(kwargs@.len() as int) =~= items);
        indent(out, level, options);
        out.push(')');
        assert(out@ =~= before + (name@ + expanded_sequence('(', items, ')', level as nat, step)));
    } else {
        out.push(')');
        assert(out@ =~= before + (name@ + seq!['(', ')']));
    }
}

/// Writes an entry of a dictionary: the expanded form of its key, a colon
/// and a space, and the expanded form of its value, both at nesting level
/// `level`.
pub fn write_dict_key_value(
    out: &mut String,
    pair: &(Value, Value),
    level: usize,
    options: &PrintOptions,
)
    requires
        levels_fit(pair.0@, level as nat),
        levels_fit(pair.1@, level as nat),
    ensures
        final(out)@ == old(out)@ + expanded_entry(
            expanded(pair.0@, level as nat, options.indent as nat),
            expanded(pair.1@, level as nat, options.indent as nat),
        ),
    decreases pair, 2int,
{
    let ghost before = out@;
    display_value(out, &pair.0, level, options);
    out.push(':');
    out.push(' ');
    display_value(out, &pair.1, level, options);
    assert(out@ =~= before + expanded_entry(
        expanded(pair.0@, level as nat, options.indent as nat),
        expanded(pair.1@, level as nat, options.indent as nat),
    ));
}

/// Writes the expanded form of a dictionary at nesting level `level`.
pub fn write_dict(
    out: &mut String,
    pairs: &Vec<(Value, Value)>,
    level: usize,
    options: &PrintOptions,
)
    requires
        entries_fit(pair_trees(pairs@), level as nat),
    ensures
        final(out)@ == old(out)@ + expanded_sequence(
            '{',
            expanded_entries(pair_trees(pairs@), level as nat + 1, options.indent as nat),
            '}',
            level as nat,
            options.indent as nat,
        ),
    decreases pairs, 3int,
{
    let ghost before = out@;
    let ghost step = options.indent as nat;
    let ghost items = expanded_entries(pair_trees(pairs@), level as nat + 1, step);
    out.push('{');
    if pairs.len() > 0 {
        out.push('\n');
        assert(out@ =~= before + seq!['{', '\n'] + lines(items.take(0), level as nat + 1, step));
        for i in 0..pairs.len()
            invariant
                level < usize::MAX,
                step == options.indent as nat,
                items == expanded_entries(pair_trees(pairs@), level as nat + 1, step),
                entries_fit(pair_trees(pairs@), level as nat),
                out@ == before + seq!['{', '\n'] + lines(
                    items.take(i as int),
                    level as nat + 1,
                    step,
                ),
        {
            let ghost start = out@;
            assert(levels_fit(pair_trees(pairs@)[i as int].0, level as nat + 1));
            indent(out, level + 1, options);
            write_dict_key_value(out, &pairs[i], level + 1, options);
            out.push(',');
            out.push('\n');
            proof {
                assert(items.take(i + 1).drop_last() =~= items.take(i as int));
                assert(items.take(i + 1).last() == items[i as int]);
                assert(out@ =~= start + margin(level as nat + 1, step) + items[i as int] + seq![
                    ',',
                    '\n',
                ]);
                assert(out@ =~= before + seq!['{', '\n'] + lines(
                    items.take(i + 1),
                    level as nat + 1,
                    step,
                ));
            }
        }
        assert(items.take(pairs@.len() as int) =~= items);
        indent(out, level, options);
        out.push('}');
        assert(out@ =~= before + expanded_sequence('{', items, '}', level as nat, step));
    } else {
        out.push('}');
        assert(out@ =~= before + seq!['{', '}']);
    }
}

/// Writes the expanded form of a value at nesting level `level`.
pub fn display_value(out: &mut String, value: &Value, level: usize, options: &PrintOptions)
    requires
        levels_fit(value@, level as nat),
    ensures
        final(out)@ == old(out)@ + expanded(value@, level as nat, options.indent as nat),
    decreases value, 4int,
{
    match value {
        Value::Bool(b) => out.append(
            if *b {
                "True"
            } else {
                "False"
            },
        ),
        Value::Str(s) => out.append(s.as_str()),
        Value::Int(i) => out.append(int_to_string(*i).as_str()),
        Value::Float(bits) => out.append(float_to_string(*bits).as_str()),
        Value::Tuple(xs) => write_comma_seq(out, xs, '(', ')', level, options),
        Value::List(xs) => write_comma_seq(out, xs, '[', ']', level, options),
        Value::SetOf(xs) => write_comma_seq(out, xs, '{', '}', level, options),
        Value::Dict(pairs) => write_dict(out, pairs, level, options),
        Value::Constructor(name, kwargs) => write_constructor(out, name, kwargs, level, options),
        Value::Symbol(s) => out.append(s.as_str()),
    }
}

/// Whether the items of a sequence at level `level` fit the machine's count.
fn can_expand_items(items: &Vec<Value>, level: usize) -> (fit: bool)
    ensures
        fit == items_fit(trees(items@), level as nat),
    decreases items, 0int,
{
    if items.len() == 0 {
        return true;
    }
    if level == usize::MAX {
        return false;
    }
    for i in 0..items.len()
        invariant
            level < usize::MAX,
            forall|j: int| 0 <= j < i ==> levels_fit(#[trigger] trees(items@)[j], level as nat + 1),
    {
        if !items[i].can_expand(level + 1) {
            assert(!levels_fit(trees(items@)[i as int], level as nat + 1));
            return false;
        }
    }
    true
}

/// Whether the entries of a dictionary at level `level` fit the machine's
/// count.
fn can_expand_entries(entries: &Vec<(Value, Value)>, level: usize) -> (fit: bool)
    ensures
        fit == entries_fit(pair_trees(entries@), level as nat),
    decreases entries, 0int,
{
    if entries.len() == 0 {
        return true;
    }
    if level == usize::MAX {
        return false;
    }
    for i in 0..entries.len()
        invariant
            level < usize::MAX,
            forall|j: int|
                0 <= j < i ==> levels_fit((#[trigger] pair_trees(entries@)[j]).0, level as nat + 1)
                    && levels_fit(pair_trees(entries@)[j].1, level as nat + 1),
    {
        if !entries[i].0.can_expand(level + 1) || !entries[i].1.can_expand(level + 1) {
            let ghost entry = pair_trees(entries@)[i as int];
            assert(!levels_fit(entry.0, level as nat + 1) || !levels_fit(
                entry.1,
                level as nat + 1,
            ));
            return false;
        }
    }
    true
}

/// Whether the arguments of a constructor at level `level` fit the machine's
/// count.
fn can_expand_kwargs(kwargs: &Vec<(String, Value)>, level: usize) -> (fit: bool)
    ensures
        fit == kwargs_fit(named_trees(kwargs@), level as nat),
    decreases kwargs, 0int,
{
    if kwargs.len() == 0 {
        return true;
    }
    if level == usize::MAX {
        return false;
    }
    for i in 0..kwargs.len()
        invariant
            level < usize::MAX,
            forall|j: int|
                0 <= j < i ==> levels_fit((#[trigger] named_trees(kwargs@)[j]).1, level as nat + 1),
    {
        if !kwargs[i].1.can_expand(level + 1) {
            assert(!levels_fit(named_trees(kwargs@)[i as int].1, level as nat + 1));
            return false;
        }
    }
    true
}

impl Value {
    /// Whether the nesting levels of this value, where it stands at level
    /// `level`, can all be counted by the machine.
    pub fn can_expand(&self, level: usize) -> (fit: bool)
        ensures
            fit == levels_fit(self@, level as nat),
        decreases self, 1int,
    {
        match self {
            Value::Tuple(xs) => can_expand_items(xs, level),
            Value::List(xs) => can_expand_items(xs, level),
            Value::SetOf(xs) => can_expand_items(xs, level),
            Value::Dict(pairs) => can_expand_entries(pairs, level),
            Value::Constructor(_, kwargs) => can_expand_kwargs(kwargs, level),
            _ => true,
        }
    }

    /// The expanded form of this value.
    pub fn expanded(&self, options: &PrintOptions) -> (text: String)
        requires
            levels_fit(self@, 0),
        ensures
            text@ == expanded(self@, 0, options.indent as nat),
    {
        let mut text = String::new();
        display_value(&mut text, self, 0, options);
        text
    }

    /// The expanded form of this value, where its nesting levels can be
    /// counted.
    pub fn try_expanded(&self, options: &PrintOptions) -> (found: Option<String>)
        ensures
            found is Some <==> levels_fit(self@, 0),
            found matches Some(text) ==> text@ == expanded(self@, 0, options.indent as nat),
    {
        if self.can_expand(0) {
            Some(self.expanded(options))
        } else {
            None
        }
    }
}

} // verus!
