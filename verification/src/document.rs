//! Layout documents: the small algebra of texts, breaks, indentation and
//! groups from which a value's printed form is laid out.

use vstd::prelude::*;
use vstd::utf8::encode_utf8;

verus! {

/// A layout document.
#[derive(Debug)]
pub enum Document {
    /// Nothing.
    Nil,
    /// Text that is never broken.
    Text(String),
    /// A space on a single line, a line break otherwise.
    Space,
    /// A line break.
    Newline,
    /// One document after another.
    Append(Box<Document>, Box<Document>),
    /// The first document when laid out over several lines, the second on a
    /// single line.
    FlatAlt(Box<Document>, Box<Document>),
    /// The document with its line breaks indented further.
    Nest(usize, Box<Document>),
    /// A document whose breaks are all taken or all left out.
    Group(Box<Document>),
}

/// The mathematical content of a [`Document`].
pub enum Layout {
    Nil,
    Text(Seq<char>),
    Space,
    Newline,
    Append(Box<Layout>, Box<Layout>),
    FlatAlt(Box<Layout>, Box<Layout>),
    Nest(nat, Box<Layout>),
    Group(Box<Layout>),
}

/// The content of a document.
pub open spec fn layout_of(doc: Document) -> Layout
    decreases doc,
{
    match doc {
        Document::Nil => Layout::Nil,
        Document::Text(s) => Layout::Text(s@),
        Document::Space => Layout::Space,
        Document::Newline => Layout::Newline,
        Document::Append(a, b) => Layout::Append(Box::new(layout_of(*a)), Box::new(layout_of(*b))),
        Document::FlatAlt(a, b) => Layout::FlatAlt(
            Box::new(layout_of(*a)),
            Box::new(layout_of(*b)),
        ),
        Document::Nest(n, d) => Layout::Nest(n as nat, Box::new(layout_of(*d))),
        Document::Group(d) => Layout::Group(Box::new(layout_of(*d))),
    }
}

impl View for Document {
    type V = Layout;

    open spec fn view(&self) -> Layout {
        layout_of(*self)
    }
}

/// The contents of documents.
pub open spec fn layouts(docs: Seq<Document>) -> Seq<Layout> {
    Seq::new(docs.len(), |i: int| docs[i]@)
}

impl Layout {
    /// This document and then `that`; where one of the two is nothing, the
    /// other.
    pub open spec fn append(self, that: Layout) -> Layout {
        if self is Nil {
            that
        } else if that is Nil {
            self
        } else {
            Layout::Append(Box::new(self), Box::new(that))
        }
    }

    /// This document, indented by `offset` more columns; the document itself
    /// where it is nothing or `offset` is zero.
    pub open spec fn nest(self, offset: nat) -> Layout {
        if self is Nil || offset == 0 {
            self
        } else {
            Layout::Nest(offset, Box::new(self))
        }
    }

    /// This document as a group.
    pub open spec fn group(self) -> Layout {
        Layout::Group(Box::new(self))
    }

    /// This document over several lines, `that` on a single line.
    pub open spec fn flat_alt(self, that: Layout) -> Layout {
        Layout::FlatAlt(Box::new(self), Box::new(that))
    }

    /// A line break that leaves nothing on a single line.
    pub open spec fn soft_break() -> Layout {
        Layout::Newline.flat_alt(Layout::Nil)
    }

    /// The documents `docs` with `separator` between each two of them.
    pub open spec fn intersperse(docs: Seq<Layout>, separator: Layout) -> Layout
        decreases docs.len(),
    {
        if docs.len() == 0 {
            Layout::Nil
        } else if docs.len() == 1 {
            Layout::Nil.append(docs[0])
        } else {
            Layout::intersperse(docs.drop_last(), separator).append(separator).append(docs.last())
        }
    }

    /// The deepest indentation that the document asks for.
    pub open spec fn depth(self) -> nat
        decreases self,
    {
        match self {
            Layout::Append(a, b) => if a.depth() >= b.depth() {
                a.depth()
            } else {
                b.depth()
            },
            Layout::FlatAlt(a, b) => if a.depth() >= b.depth() {
                a.depth()
            } else {
                b.depth()
            },
            Layout::Nest(n, d) => n + d.depth(),
            Layout::Group(d) => d.depth(),
            _ => 0,
        }
    }

    /// The number of bytes of all the document's text, a space counting as
    /// one.
    pub open spec fn bytes(self) -> nat
        decreases self,
    {
        match self {
            Layout::Text(t) => encode_utf8(t).len(),
            Layout::Space => 1,
            Layout::Append(a, b) => a.bytes() + b.bytes(),
            Layout::FlatAlt(a, b) => a.bytes() + b.bytes(),
            Layout::Nest(_, d) => d.bytes(),
            Layout::Group(d) => d.bytes(),
            _ => 0,
        }
    }

    /// A bound on every column that laying out the document can reach: its
    /// deepest indentation and all its text.
    pub open spec fn extent(self) -> nat {
        self.depth() + self.bytes()
    }

    /// Whether the document holds a line break that stays one on a single
    /// line.
    pub open spec fn breaks_when_flat(self) -> bool
        decreases self,
    {
        match self {
            Layout::Newline => true,
            Layout::Append(a, b) => a.breaks_when_flat() || b.breaks_when_flat(),
            Layout::FlatAlt(_, b) => b.breaks_when_flat(),
            Layout::Nest(_, d) => d.breaks_when_flat(),
            Layout::Group(d) => d.breaks_when_flat(),
            _ => false,
        }
    }

    /// The text of the document on a single line.
    pub open spec fn flat_text(self) -> Seq<char>
        decreases self,
    {
        match self {
            Layout::Nil => Seq::empty(),
            Layout::Text(t) => t,
            Layout::Space => seq![' '],
            Layout::Newline => seq!['\n'],
            Layout::Append(a, b) => a.flat_text() + b.flat_text(),
            Layout::FlatAlt(_, b) => b.flat_text(),
            Layout::Nest(_, d) => d.flat_text(),
            Layout::Group(d) => d.flat_text(),
        }
    }

    /// The number of bytes of the document on a single line.
    pub open spec fn flat_width(self) -> nat
        decreases self,
    {
        match self {
            Layout::Text(t) => encode_utf8(t).len(),
            Layout::Space => 1,
            Layout::Append(a, b) => a.flat_width() + b.flat_width(),
            Layout::FlatAlt(_, b) => b.flat_width(),
            Layout::Nest(_, d) => d.flat_width(),
            Layout::Group(d) => d.flat_width(),
            _ => 0,
        }
    }

    /// Whether the document cannot be broken: whether it holds no space, no
    /// line break and no pair of alternatives.
    pub open spec fn is_rigid(self) -> bool
        decreases self,
    {
        match self {
            Layout::Space => false,
            Layout::Newline => false,
            Layout::FlatAlt(_, _) => false,
            Layout::Append(a, b) => a.is_rigid() && b.is_rigid(),
            Layout::Nest(_, d) => d.is_rigid(),
            Layout::Group(d) => d.is_rigid(),
            _ => true,
        }
    }

    /// The single line on which the document is laid out within `width`
    /// columns, where it is known to be laid out on one: a document that
    /// cannot be broken, or a group that fits.
    pub open spec fn single_line(self, width: nat) -> Option<Seq<char>> {
        if self.is_rigid() {
            Some(self.flat_text())
        } else {
            match self {
                Layout::Group(d) => if !d.breaks_when_flat() && d.flat_width() <= width {
                    Some(d.flat_text())
                } else {
                    None
                },
                _ => None,
            }
        }
    }
}

impl Document {
    /// The text `s`.
    pub fn text(s: String) -> (doc: Document)
        ensures
            doc@ == Layout::Text(s@),
    {
        Document::Text(s)
    }

    /// This document and then `that`; where one of the two is nothing, the
    /// other.
    pub fn append(self, that: Document) -> (doc: Document)
        ensures
            doc@ == self@.append(that@),
    {
        match (self, that) {
            (Document::Nil, that) => that,
            (this, Document::Nil) => this,
            (this, that) => Document::Append(Box::new(this), Box::new(that)),
        }
    }

    /// This document, indented by `offset` more columns; the document itself
    /// where it is nothing or `offset` is zero.
    pub fn nest(self, offset: usize) -> (doc: Document)
        ensures
            doc@ == self@.nest(offset as nat),
    {
        if offset == 0 {
            return self;
        }
        match self {
            Document::Nil => Document::Nil,
            this => Document::Nest(offset, Box::new(this)),
        }
    }

    /// This document as a group.
    pub fn group(self) -> (doc: Document)
        ensures
            doc@ == self@.group(),
    {
        Document::Group(Box::new(self))
    }

    /// This document over several lines, `that` on a single line.
    pub fn flat_alt(self, that: Document) -> (doc: Document)
        ensures
            doc@ == self@.flat_alt(that@),
    {
        Document::FlatAlt(Box::new(self), Box::new(that))
    }

    /// A line break that leaves nothing on a single line.
    pub fn soft_break() -> (doc: Document)
        ensures
            doc@ == Layout::soft_break(),
    {
        Document::Newline.flat_alt(Document::Nil)
    }
}

} // verus!
