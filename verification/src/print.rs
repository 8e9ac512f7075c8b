//! From a value to the document that lays it out.
//!
//! A scalar is a text; a float that is written as a whole number gets `.0`
//! behind it, so that its text is that of no integer. A sequence is a group:
//! its opening delimiter, a soft break, its items with a comma and a space
//! between them, a soft break, and its closing delimiter, with the first break
//! and the items indented by one step. On a single line this reads
//! `[a, b, c]`; over several lines each item stands on a line of its own. A
//! sequence without items is its two delimiters.

use vstd::prelude::*;
use vstd::string::StringExecFns;
use vstd::utf8::encode_utf8;
use crate::canon::{faithful, text_of};
use crate::document::{layouts, Document, Layout};
use crate::error::ParseError;
use crate::flat::{lemma_flat_document, lemma_flat_width_of_document, lemma_plain_is_rigid};
use crate::floats::{float_text, float_to_string};
use crate::grammar::value_at;
use crate::laws::{law_text_reads_back, lemma_document_shape};
use crate::layout::can_lay_out;
use crate::options::{default_options, PrintOptions};
use crate::text::{int_text, int_to_string};
use crate::trusted::{float_display, pretty_text};
use crate::value::{named_trees, pair_trees, trees, Tree, Value};

verus! {

/// What stands between two items of a sequence: a comma, and a space or a
/// line break.
pub open spec fn separator() -> Layout {
    Layout::Text(","@).append(Layout::Space)
}

/// The document of a sequence with the given delimiters and items.
pub open spec fn sequence_document(
    open: Seq<char>,
    items: Seq<Layout>,
    close: Seq<char>,
    indent: nat,
) -> Layout {
    if items.len() == 0 {
        Layout::Text(open).append(Layout::Text(close)).group()
    } else {
        Layout::Text(open).append(Layout::soft_break()).nest(indent).append(
            Layout::intersperse(items, separator()).nest(indent),
        ).append(Layout::soft_break()).append(Layout::Text(close)).group()
    }
}

/// The document of a dictionary's entry: the key, a colon and a space, the
/// value.
pub open spec fn entry_document(key: Layout, value: Layout) -> Layout {
    key.append(Layout::Text(": "@)).append(value)
}

/// The document of a keyword argument: the key, an equals sign, the value.
pub open spec fn kwarg_document(key: Seq<char>, value: Layout) -> Layout {
    Layout::Text(key).append(Layout::Text("="@)).append(value)
}

/// The document of a value, with `indent` columns to an indentation step.
pub open spec fn document_of(tree: Tree, indent: nat) -> Layout
    decreases tree, 1int,
{
    match tree {
        Tree::Bool(b) => Layout::Text(
            if b {
                "True"@
            } else {
                "False"@
            },
        ),
        Tree::Str(s) => Layout::Text(s),
        Tree::Int(i) => Layout::Text(int_text(i as int)),
        Tree::Float(bits) => Layout::Text(float_text(float_display(bits))),
        Tree::Symbol(s) => Layout::Text(s),
        Tree::List(xs) => sequence_document("["@, item_documents(xs, indent), "]"@, indent),
        Tree::Tuple(xs) => sequence_document("("@, item_documents(xs, indent), ")"@, indent),
        Tree::SetOf(xs) => sequence_document("{"@, item_documents(xs, indent), "}"@, indent),
        Tree::Dict(ps) => sequence_document(
            "{"@,
            entry_documents(ps, indent),
            "}"@,
            indent,
        ).group(),
        Tree::Constructor(name, args) => Layout::Text(name).append(
            sequence_document("("@, kwarg_documents(args, indent), ")"@, indent),
        ).group(),
    }
}

/// The documents of the items of a sequence.
pub open spec fn item_documents(items: Seq<Tree>, indent: nat) -> Seq<Layout>
    decreases items, 0int,
{
    Seq::new(
        items.len(),
        |i: int|
            if 0 <= i < items.len() {
                document_of(items[i], indent)
            } else {
                Layout::Nil
            },
    )
}

/// The documents of the entries of a dictionary.
pub open spec fn entry_documents(entries: Seq<(Tree, Tree)>, indent: nat) -> Seq<Layout>
    decreases entries, 0int,
{
    Seq::new(
        entries.len(),
        |i: int|
            if 0 <= i < entries.len() {
                entry_document(
                    document_of(entries[i].0, indent),
                    document_of(entries[i].1, indent),
                )
            } else {
                Layout::Nil
            },
    )
}

/// The documents of the keyword arguments of a constructor.
pub open spec fn kwarg_documents(kwargs: Seq<(Seq<char>, Tree)>, indent: nat) -> Seq<Layout>
    decreases kwargs, 0int,
{
    Seq::new(
        kwargs.len(),
        |i: int|
            if 0 <= i < kwargs.len() {
                kwarg_document(kwargs[i].0, document_of(kwargs[i].1, indent))
            } else {
                Layout::Nil
            },
    )
}

/// A comma, and a space or a line break.
fn comma_space() -> (doc: Document)
    ensures
        doc@ == separator(),
{
    Document::text(String::from_str(",")).append(Document::Space)
}

/// The documents `docs` with a comma and a space between each two of them.
fn intersperse(docs: Vec<Document>) -> (doc: Document)
    ensures
        doc@ == Layout::intersperse(layouts(docs@), separator()),
{
    let ghost all = layouts(docs@);
    let mut result = Document::Nil;
    let mut first = true;
    for doc in it: docs
        invariant
            layouts(it.seq()) == all,
            first == (it.index() == 0),
            result@ == Layout::intersperse(all.take(it.index() as int), separator()),
    {
        proof {
            let n = it.index() as int;
            assert(all.take(n + 1).drop_last() =~= all.take(n));
            assert(all.take(n + 1).last() == doc@);
        }
        if first {
            first = false;
        } else {
            result = result.append(comma_space());
        }
        result = result.append(doc);
    }
    assert(all.take(all.len() as int) =~= all);
    result
}

impl Value {
    /// The document of a sequence with the given delimiters and the given
    /// documents of its items.
    fn seq_to_doc(open: &str, docs: Vec<Document>, close: &str, options: &PrintOptions) -> (doc:
        Document)
        ensures
            doc@ == sequence_document(open@, layouts(docs@), close@, options.indent as nat),
    {
        let opening = Document::text(String::from_str(open));
        let closing = Document::text(String::from_str(close));
        if docs.len() == 0 {
            return opening.append(closing).group();
        }
        opening.append(Document::soft_break()).nest(options.indent).append(
            intersperse(docs).nest(options.indent),
        ).append(Document::soft_break()).append(closing).group()
    }

    /// The documents of the items of a sequence.
    fn items_to_docs(items: &Vec<Value>, options: &PrintOptions) -> (docs: Vec<Document>)
        ensures
            layouts(docs@) == item_documents(trees(items@), options.indent as nat),
        decreases items, 0int,
    {
        let ghost wanted = item_documents(trees(items@), options.indent as nat);
        let mut docs: Vec<Document> = Vec::new();
        for i in 0..items.len()
            invariant
                wanted == item_documents(trees(items@), options.indent as nat),
                layouts(docs@) == wanted.take(i as int),
        {
            let doc = items[i].to_doc(options);
            proof {
                assert(layouts(docs@.push(doc)) =~= wanted.take(i as int).push(doc@));
                assert(wanted.take(i + 1) =~= wanted.take(i as int).push(wanted[i as int]));
            }
            docs.push(doc);
        }
        assert(wanted.take(items@.len() as int) =~= wanted);
        docs
    }

    /// The document of a dictionary with the given entries.
    fn dictionary_to_doc(pairs: &Vec<(Value, Value)>, options: &PrintOptions) -> (doc: Document)
        ensures
            doc@ == sequence_document(
                "{"@,
                entry_documents(pair_trees(pairs@), options.indent as nat),
                "}"@,
                options.indent as nat,
            ).group(),
        decreases pairs, 0int,
    {
        let ghost wanted = entry_documents(pair_trees(pairs@), options.indent as nat);
        let mut docs: Vec<Document> = Vec::new();
        for i in 0..pairs.len()
            invariant
                wanted == entry_documents(pair_trees(pairs@), options.indent as nat),
                layouts(docs@) == wanted.take(i as int),
        {
            let key = pairs[i].0.to_doc(options);
            let value = pairs[i].1.to_doc(options);
            let doc = key.append(Document::text(String::from_str(": "))).append(value);
            proof {
                assert(layouts(docs@.push(doc)) =~= wanted.take(i as int).push(doc@));
                assert(wanted.take(i + 1) =~= wanted.take(i as int).push(wanted[i as int]));
            }
            docs.push(doc);
        }
        assert(wanted.take(pairs@.len() as int) =~= wanted);
        Value::seq_to_doc("{", docs, "}", options).group()
    }

    /// The document of a constructor with the given name and keyword
    /// arguments.
    fn constructor_to_doc(
        name: &String,
        kwargs: &Vec<(String, Value)>,
        options: &PrintOptions,
    ) -> (doc: Document)
        ensures
            doc@ == Layout::Text(name@).append(
                sequence_document(
                    "("@,
                    kwarg_documents(named_trees(kwargs@), options.indent as nat),
                    ")"@,
                    options.indent as nat,
                ),
            ).group(),
        decreases kwargs, 0int,
    {
        let ghost wanted = kwarg_documents(named_trees(kwargs@), options.indent as nat);
        let mut docs: Vec<Document> = Vec::new();
        for i in 0..kwargs.len()
            invariant
                wanted == kwarg_documents(named_trees(kwargs@), options.indent as nat),
                layouts(docs@) == wanted.take(i as int),
        {
            let key = Document::text(kwargs[i].0.clone());
            let value = kwargs[i].1.to_doc(options);
            let doc = key.append(Document::text(String::from_str("="))).append(value);
            proof {
                assert(layouts(docs@.push(doc)) =~= wanted.take(i as int).push(doc@));
                assert(wanted.take(i + 1) =~= wanted.take(i as int).push(wanted[i as int]));
            }
            docs.push(doc);
        }
        assert(wanted.take(kwargs@.len() as int) =~= wanted);
        Document::text(name.clone()).append(Value::seq_to_doc("(", docs, ")", options)).group()
    }

    /// The document that lays this value out, with `options.indent` columns
    /// to an indentation step.
    pub fn to_doc(&self, options: &PrintOptions) -> (doc: Document)
        ensures
            doc@ == document_of(self@, options.indent as nat),
        decreases self, 1int,
    {
        match self {
            Value::Int(x) => Document::text(int_to_string(*x)),
            Value::Float(bits) => Document::text(float_to_string(*bits)),
            Value::Bool(x) => Document::text(
                String::from_str(
                    if *x {
                        "True"
                    } else {
                        "False"
                    },
                ),
            ),
            Value::Symbol(x) => Document::text(x.clone()),
            Value::Str(x) => Document::text(x.clone()),
            Value::List(xs) => {
                Value::seq_to_doc("[", Value::items_to_docs(xs, options), "]", options)
            },
            Value::Tuple(xs) => {
                Value::seq_to_doc("(", Value::items_to_docs(xs, options), ")", options)
            },
            Value::SetOf(xs) => {
                Value::seq_to_doc("{", Value::items_to_docs(xs, options), "}", options)
            },
            Value::Dict(pairs) => Value::dictionary_to_doc(pairs, options),
            Value::Constructor(name, kwargs) => Value::constructor_to_doc(name, kwargs, options),
        }
    }
}

/// Whether a value can be laid out with the given options: whether its
/// document can be laid out within their line width.
pub open spec fn can_render(tree: Tree, options: PrintOptions) -> bool {
    can_lay_out(document_of(tree, options.indent as nat), options.columns)
}

/// Whether a value holds nothing that could stand on a line of its own:
/// whether it is a scalar or a sequence without items.
pub open spec fn is_plain(tree: Tree) -> bool {
    match tree {
        Tree::Tuple(xs) => xs.len() == 0,
        Tree::List(xs) => xs.len() == 0,
        Tree::SetOf(xs) => xs.len() == 0,
        Tree::Dict(ps) => ps.len() == 0,
        Tree::Constructor(_, args) => args.len() == 0,
        _ => true,
    }
}

/// Whether the single-line text of a value fits the line: whether it has no
/// more bytes than the line has columns.
pub open spec fn fits_on_a_line(tree: Tree, options: PrintOptions) -> bool {
    encode_utf8(text_of(tree)).len() <= options.columns
}

/// Whether a value is laid out on one line with the given options: whether
/// it is plain, or its single-line text fits the line.
pub open spec fn stays_on_a_line(tree: Tree, options: PrintOptions) -> bool {
    is_plain(tree) || fits_on_a_line(tree, options)
}

/// The text of a value, laid out with the given options.
pub open spec fn rendered(tree: Tree, options: PrintOptions) -> Seq<char> {
    pretty_text(document_of(tree, options.indent as nat), options.columns)
}

/// The single line of a value that stays on a line is its single-line text.
pub proof fn lemma_single_line(tree: Tree, options: PrintOptions)
    requires
        stays_on_a_line(tree, options),
    ensures
        document_of(tree, options.indent as nat).single_line(options.columns as nat) == Some(
            text_of(tree),
        ),
{
    let indent = options.indent as nat;
    lemma_flat_document(tree, indent);
    if is_plain(tree) {
        lemma_plain_is_rigid(tree, indent);
    } else {
        lemma_document_shape(tree, indent);
        lemma_flat_width_of_document(tree, indent);
    }
}

/// Lays `value` out with the given options.
///
/// A scalar, a sequence without items, and a value whose single-line text
/// fits the line are laid out as their single-line text. Where such a value
/// is faithful too, the text is read as the value again.
pub fn render(value: &Value, options: &PrintOptions) -> (text: String)
    requires
        can_render(value@, *options),
    ensures
        text@ == rendered(value@, *options),
        stays_on_a_line(value@, *options) ==> text@ == text_of(value@),
        stays_on_a_line(value@, *options) && faithful(value@) ==> value_at(text@, 0) == Ok::<
            (Tree, int),
            ParseError,
        >((value@, text@.len() as int)),
{
    proof {
        if stays_on_a_line(value@, *options) {
            lemma_single_line(value@, *options);
        }
        if faithful(value@) {
            law_text_reads_back(value@);
        }
    }
    value.to_doc(options).pretty(options.columns)
}

/// Lays `value` out with the given options, where it can be laid out.
pub fn try_render(value: &Value, options: &PrintOptions) -> (found: Option<String>)
    ensures
        found is Some <==> can_render(value@, *options),
        found matches Some(text) ==> {
            &&& text@ == rendered(value@, *options)
            &&& stays_on_a_line(value@, *options) ==> text@ == text_of(value@)
            &&& stays_on_a_line(value@, *options) && faithful(value@) ==> value_at(text@, 0)
                == Ok::<(Tree, int), ParseError>((value@, text@.len() as int))
        },
{
    proof {
        if stays_on_a_line(value@, *options) {
            lemma_single_line(value@, *options);
        }
        if faithful(value@) {
            law_text_reads_back(value@);
        }
    }
    value.to_doc(options).try_pretty(options.columns)
}

impl Value {
    /// This value laid out with the default options, four spaces to an
    /// indentation step and eighty columns to a line, where it can be laid
    /// out.
    pub fn to_text(&self) -> (found: Option<String>)
        ensures
            found is Some <==> can_render(self@, default_options()),
            found matches Some(text) ==> {
                &&& text@ == rendered(self@, default_options())
                &&& stays_on_a_line(self@, default_options()) ==> text@ == text_of(self@)
                &&& stays_on_a_line(self@, default_options()) && faithful(self@) ==> value_at(
                    text@,
                    0,
                ) == Ok::<(Tree, int), ParseError>((self@, text@.len() as int))
            },
    {
        let options = PrintOptions::default();
        try_render(self, &options)
    }
}

} // verus!
