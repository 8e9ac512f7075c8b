//! The document of a value on a single line: its text is the single-line
//! text of the value, and it holds no forced line break.

use vstd::prelude::*;
use vstd::utf8::{encode_scalar, encode_utf8, is_ascii_chars, is_ascii_chars_encode_utf8};
use crate::canon::{entry_texts, item_texts, joined, kwarg_texts, text_of};
use crate::document::Layout;
use crate::print::{
    document_of, entry_documents, is_plain, item_documents, kwarg_documents, separator,
    sequence_document,
};
use crate::value::Tree;

verus! {

/// The single-line texts of documents.
pub open spec fn flat_texts(docs: Seq<Layout>) -> Seq<Seq<char>> {
    Seq::new(docs.len(), |i: int| docs[i].flat_text())
}

/// Whether none of the documents holds a forced line break.
pub open spec fn none_breaks(docs: Seq<Layout>) -> bool {
    forall|i: int| 0 <= i < docs.len() ==> !(#[trigger] docs[i]).breaks_when_flat()
}

/// On a single line, one document and then another is the text of the one
/// and then the text of the other.
pub proof fn lemma_flat_append(a: Layout, b: Layout)
    ensures
        a.append(b).flat_text() == a.flat_text() + b.flat_text(),
        a.append(b).breaks_when_flat() == (a.breaks_when_flat() || b.breaks_when_flat()),
{
    assert(a.append(b).flat_text() =~= a.flat_text() + b.flat_text());
}

/// On a single line, indentation changes nothing.
pub proof fn lemma_flat_nest(a: Layout, offset: nat)
    ensures
        a.nest(offset).flat_text() == a.flat_text(),
        a.nest(offset).breaks_when_flat() == a.breaks_when_flat(),
{
}

/// Joined texts and one more are the joined texts, a comma and a space, and
/// the one.
pub proof fn lemma_joined_push(texts: Seq<Seq<char>>, from: int, last: Seq<char>)
    requires
        0 <= from < texts.len(),
    ensures
        joined(texts.push(last), from) == joined(texts, from) + seq![',', ' '] + last,
    decreases texts.len() - from,
{
    let more = texts.push(last);
    assert(more[from] == texts[from]);
    if from + 1 == texts.len() {
        assert(more[from + 1] == last);
        assert(joined(more, from + 1) == last);
    } else {
        lemma_joined_push(texts, from + 1, last);
        assert(joined(more, from) =~= joined(texts, from) + seq![',', ' '] + last);
    }
}

/// On a single line, documents with separators between them are their texts
/// with a comma and a space between them.
pub proof fn lemma_flat_intersperse(docs: Seq<Layout>)
    requires
        none_breaks(docs),
    ensures
        Layout::intersperse(docs, separator()).flat_text() == joined(flat_texts(docs), 0),
        !Layout::intersperse(docs, separator()).breaks_when_flat(),
    decreases docs.len(),
{
    reveal_strlit(",");
    let texts = flat_texts(docs);
    assert(separator().flat_text() =~= seq![',', ' ']) by {
        lemma_flat_append(Layout::Text(","@), Layout::Space);
        assert(","@ =~= seq![',']);
    }
    assert(!separator().breaks_when_flat()) by {
        lemma_flat_append(Layout::Text(","@), Layout::Space);
    }
    if docs.len() == 0 {
    } else if docs.len() == 1 {
        lemma_flat_append(Layout::Nil, docs[0]);
        assert(Layout::Nil.flat_text() + docs[0].flat_text() =~= texts[0]);
    } else {
        let front = docs.drop_last();
        let last = docs.last();
        assert(none_breaks(front)) by {
            assert forall|i: int| 0 <= i < front.len() implies !(
            #[trigger] front[i]).breaks_when_flat() by {
                assert(front[i] == docs[i]);
            }
        }
        lemma_flat_intersperse(front);
        let joined_front = Layout::intersperse(front, separator());
        lemma_flat_append(joined_front, separator());
        lemma_flat_append(joined_front.append(separator()), last);
        assert(texts =~= flat_texts(front).push(last.flat_text()));
        lemma_joined_push(flat_texts(front), 0, last.flat_text());
    }
}

/// On a single line, the document of a sequence is its opening delimiter,
/// the texts of its items with a comma and a space between them, and its
/// closing delimiter.
pub proof fn lemma_flat_sequence(open: Seq<char>, items: Seq<Layout>, close: Seq<char>, indent: nat)
    requires
        none_breaks(items),
    ensures
        sequence_document(open, items, close, indent).flat_text() == open + joined(
            flat_texts(items),
            0,
        ) + close,
        !sequence_document(open, items, close, indent).breaks_when_flat(),
{
    let o = Layout::Text(open);
    let c = Layout::Text(close);
    if items.len() == 0 {
        lemma_flat_append(o, c);
        assert(open + Seq::<char>::empty() + close =~= open + close);
    } else {
        let soft = Layout::soft_break();
        assert(Layout::Nil.flat_text() =~= Seq::<char>::empty());
        assert(!Layout::Nil.breaks_when_flat());
        assert(soft.flat_text() =~= Seq::<char>::empty());
        assert(!soft.breaks_when_flat());
        let body = Layout::intersperse(items, separator());
        lemma_flat_intersperse(items);
        lemma_flat_append(o, soft);
        lemma_flat_nest(o.append(soft), indent);
        lemma_flat_nest(body, indent);
        let a = o.append(soft).nest(indent);
        lemma_flat_append(a, body.nest(indent));
        let b = a.append(body.nest(indent));
        lemma_flat_append(b, soft);
        lemma_flat_append(b.append(soft), c);
        assert(Layout::Nil.flat_text() =~= Seq::<char>::empty());
        assert(!Layout::Nil.breaks_when_flat());
        assert(soft.flat_text() =~= Seq::<char>::empty());
        assert(!soft.breaks_when_flat());
        assert(sequence_document(open, items, close, indent).flat_text() =~= open + joined(
            flat_texts(items),
            0,
        ) + close);
    }
}

/// On a single line, the document of a value is the single-line text of the
/// value, and it holds no forced line break.
pub proof fn lemma_flat_document(tree: Tree, indent: nat)
    ensures
        document_of(tree, indent).flat_text() == text_of(tree),
        !document_of(tree, indent).breaks_when_flat(),
    decreases tree, 1int,
{
    reveal_strlit("True");
    reveal_strlit("False");
    reveal_strlit("[");
    reveal_strlit("]");
    reveal_strlit("(");
    reveal_strlit(")");
    reveal_strlit("{");
    reveal_strlit("}");
    match tree {
        Tree::Bool(b) => {
            assert("True"@ =~= seq!['T', 'r', 'u', 'e']);
            assert("False"@ =~= seq!['F', 'a', 'l', 's', 'e']);
        },
        Tree::Tuple(xs) => {
            lemma_flat_items(xs, indent);
            lemma_flat_sequence("("@, item_documents(xs, indent), ")"@, indent);
            assert("("@ =~= seq!['(']);
            assert(")"@ =~= seq![')']);
        },
        Tree::List(xs) => {
            lemma_flat_items(xs, indent);
            lemma_flat_sequence("["@, item_documents(xs, indent), "]"@, indent);
            assert("["@ =~= seq!['[']);
            assert("]"@ =~= seq![']']);
        },
        Tree::SetOf(xs) => {
            lemma_flat_items(xs, indent);
            lemma_flat_sequence("{"@, item_documents(xs, indent), "}"@, indent);
            assert("{"@ =~= seq!['{']);
            assert("}"@ =~= seq!['}']);
        },
        Tree::Dict(ps) => {
            lemma_flat_entries(ps, indent);
            lemma_flat_sequence("{"@, entry_documents(ps, indent), "}"@, indent);
            assert("{"@ =~= seq!['{']);
            assert("}"@ =~= seq!['}']);
        },
        Tree::Constructor(name, args) => {
            lemma_flat_kwargs(args, indent);
            lemma_flat_sequence("("@, kwarg_documents(args, indent), ")"@, indent);
            assert("("@ =~= seq!['(']);
            assert(")"@ =~= seq![')']);
            let body = sequence_document("("@, kwarg_documents(args, indent), ")"@, indent);
            lemma_flat_append(Layout::Text(name), body);
            assert(name + (seq!['('] + joined(kwarg_texts(args), 0) + seq![')']) =~= name + seq![
                '(',
            ] + joined(kwarg_texts(args), 0) + seq![')']);
        },
        _ => {},
    }
}

/// On a single line, the documents of the items of a sequence are the texts
/// of the items, and none holds a forced line break.
pub proof fn lemma_flat_items(xs: Seq<Tree>, indent: nat)
    ensures
        flat_texts(item_documents(xs, indent)) == item_texts(xs),
        none_breaks(item_documents(xs, indent)),
    decreases xs, 0int,
{
    let docs = item_documents(xs, indent);
    assert forall|i: int| 0 <= i < xs.len() implies docs[i].flat_text() == text_of(xs[i]) && !(
    #[trigger] docs[i]).breaks_when_flat() by {
        lemma_flat_document(xs[i], indent);
    }
    assert(flat_texts(docs) =~= item_texts(xs));
}

/// On a single line, the documents of the entries of a dictionary are the
/// texts of the entries, and none holds a forced line break.
pub proof fn lemma_flat_entries(ps: Seq<(Tree, Tree)>, indent: nat)
    ensures
        flat_texts(entry_documents(ps, indent)) == entry_texts(ps),
        none_breaks(entry_documents(ps, indent)),
    decreases ps, 0int,
{
    reveal_strlit(": ");
    assert(": "@ =~= seq![':', ' ']);
    let docs = entry_documents(ps, indent);
    assert forall|i: int| 0 <= i < ps.len() implies docs[i].flat_text() == entry_texts(ps)[i] && !(
    #[trigger] docs[i]).breaks_when_flat() by {
        lemma_flat_document(ps[i].0, indent);
        lemma_flat_document(ps[i].1, indent);
        let key = document_of(ps[i].0, indent);
        let value = document_of(ps[i].1, indent);
        lemma_flat_append(key, Layout::Text(": "@));
        lemma_flat_append(key.append(Layout::Text(": "@)), value);
    }
    assert(flat_texts(docs) =~= entry_texts(ps));
}

/// On a single line, the documents of the keyword arguments of a constructor
/// are the texts of the arguments, and none holds a forced line break.
pub proof fn lemma_flat_kwargs(args: Seq<(Seq<char>, Tree)>, indent: nat)
    ensures
        flat_texts(kwarg_documents(args, indent)) == kwarg_texts(args),
        none_breaks(kwarg_documents(args, indent)),
    decreases args, 0int,
{
    reveal_strlit("=");
    assert("="@ =~= seq!['=']);
    let docs = kwarg_documents(args, indent);
    assert forall|i: int| 0 <= i < args.len() implies docs[i].flat_text() == kwarg_texts(args)[i]
        && !(#[trigger] docs[i]).breaks_when_flat() by {
        lemma_flat_document(args[i].1, indent);
        let key = Layout::Text(args[i].0);
        let value = document_of(args[i].1, indent);
        lemma_flat_append(key, Layout::Text("="@));
        lemma_flat_append(key.append(Layout::Text("="@)), value);
    }
    assert(flat_texts(docs) =~= kwarg_texts(args));
}

/// A text and then another has the bytes of the one and then those of the
/// other.
pub proof fn lemma_bytes_of_both(a: Seq<char>, b: Seq<char>)
    ensures
        encode_utf8(a + b) == encode_utf8(a) + encode_utf8(b),
    decreases a.len(),
{
    if a.len() == 0 {
        assert(a + b =~= b);
        assert(encode_utf8(a) + encode_utf8(b) =~= encode_utf8(b));
    } else {
        lemma_bytes_of_both(a.drop_first(), b);
        assert((a + b).drop_first() =~= a.drop_first() + b);
        assert((a + b)[0] == a[0]);
        let head = encode_scalar(a[0] as u32);
        assert(encode_utf8(a + b) == head + encode_utf8(a.drop_first() + b));
        assert(head + (encode_utf8(a.drop_first()) + encode_utf8(b)) =~= (head + encode_utf8(
            a.drop_first(),
        )) + encode_utf8(b));
    }
}

/// The width of a document on a single line is the number of bytes of its
/// single-line text, where it holds no forced line break.
pub proof fn lemma_flat_width(doc: Layout)
    requires
        !doc.breaks_when_flat(),
    ensures
        doc.flat_width() == encode_utf8(doc.flat_text()).len(),
    decreases doc,
{
    match doc {
        Layout::Space => {
            let space = seq![' '];
            assert(is_ascii_chars(space));
            is_ascii_chars_encode_utf8(space);
        },
        Layout::Append(a, b) => {
            lemma_flat_width(*a);
            lemma_flat_width(*b);
            lemma_bytes_of_both(a.flat_text(), b.flat_text());
        },
        Layout::FlatAlt(_, b) => {
            lemma_flat_width(*b);
        },
        Layout::Nest(_, d) => {
            lemma_flat_width(*d);
        },
        Layout::Group(d) => {
            lemma_flat_width(*d);
        },
        _ => {},
    }
}

/// The width of the document of a value on a single line is the number of
/// bytes of the single-line text of the value.
pub proof fn lemma_flat_width_of_document(tree: Tree, indent: nat)
    ensures
        document_of(tree, indent).flat_width() == encode_utf8(text_of(tree)).len(),
{
    lemma_flat_document(tree, indent);
    lemma_flat_width(document_of(tree, indent));
}

/// The document of a value that holds no value, or of a sequence without
/// items, cannot be broken.
pub proof fn lemma_plain_is_rigid(tree: Tree, indent: nat)
    requires
        is_plain(tree),
    ensures
        document_of(tree, indent).is_rigid(),
{
    match tree {
        Tree::Tuple(xs) => {
            lemma_closed_is_rigid("("@, ")"@);
        },
        Tree::List(xs) => {
            lemma_closed_is_rigid("["@, "]"@);
        },
        Tree::SetOf(xs) => {
            lemma_closed_is_rigid("{"@, "}"@);
        },
        Tree::Dict(ps) => {
            lemma_closed_is_rigid("{"@, "}"@);
        },
        Tree::Constructor(name, args) => {
            lemma_closed_is_rigid("("@, ")"@);
            let body = Layout::Text("("@).append(Layout::Text(")"@)).group();
            let whole = Layout::Text(name).append(body);
            assert(Layout::Text(name).is_rigid());
            assert(body.is_rigid());
            assert(whole.is_rigid());
            assert(whole.group().is_rigid());
        },
        _ => {},
    }
}

/// An opening and a closing delimiter with nothing between them cannot be
/// broken.
proof fn lemma_closed_is_rigid(open: Seq<char>, close: Seq<char>)
    ensures
        Layout::Text(open).append(Layout::Text(close)).is_rigid(),
        Layout::Text(open).append(Layout::Text(close)).group().is_rigid(),
        Layout::Text(open).append(Layout::Text(close)).group().group().is_rigid(),
{
    let both = Layout::Text(open).append(Layout::Text(close));
    assert(Layout::Text(open).is_rigid());
    assert(Layout::Text(close).is_rigid());
    assert(both.is_rigid());
    assert(both.group().is_rigid());
}

} // verus!
