//! Laying a document out within a line width.

use vstd::prelude::*;
use crate::document::{Document, Layout};
use crate::trusted::{pretty_layout, pretty_text};

verus! {

/// Whether a document can be laid out within `width` columns: whether the
/// width, and every column that the layout can reach, is a column that the
/// machine can count.
pub open spec fn can_lay_out(doc: Layout, width: usize) -> bool {
    doc.extent() <= isize::MAX && width <= isize::MAX
}

/// The larger of two numbers.
fn larger(a: usize, b: usize) -> (m: usize)
    ensures
        m == if a >= b {
            a
        } else {
            b
        },
{
    if a >= b {
        a
    } else {
        b
    }
}

impl Document {
    /// The deepest indentation that the document asks for, unless it is more
    /// than the machine can count.
    pub fn depth(&self) -> (found: Option<usize>)
        ensures
            match found {
                Some(n) => n == self@.depth(),
                None => self@.depth() > usize::MAX,
            },
        decreases self,
    {
        match self {
            Document::Append(a, b) => match (a.depth(), b.depth()) {
                (Some(x), Some(y)) => Some(larger(x, y)),
                _ => None,
            },
            Document::FlatAlt(a, b) => match (a.depth(), b.depth()) {
                (Some(x), Some(y)) => Some(larger(x, y)),
                _ => None,
            },
            Document::Nest(n, d) => match d.depth() {
                Some(x) => n.checked_add(x),
                None => None,
            },
            Document::Group(d) => d.depth(),
            _ => Some(0),
        }
    }

    /// The number of bytes of all the document's text, unless it is more than
    /// the machine can count.
    pub fn bytes(&self) -> (found: Option<usize>)
        ensures
            match found {
                Some(n) => n == self@.bytes(),
                None => self@.bytes() > usize::MAX,
            },
        decreases self,
    {
        match self {
            Document::Text(s) => Some(s.as_str().as_bytes().len()),
            Document::Space => Some(1),
            Document::Append(a, b) => match (a.bytes(), b.bytes()) {
                (Some(x), Some(y)) => x.checked_add(y),
                _ => None,
            },
            Document::FlatAlt(a, b) => match (a.bytes(), b.bytes()) {
                (Some(x), Some(y)) => x.checked_add(y),
                _ => None,
            },
            Document::Nest(_, d) => d.bytes(),
            Document::Group(d) => d.bytes(),
            _ => Some(0),
        }
    }

    /// Whether the document can be laid out within `width` columns.
    pub fn fits_machine(&self, width: usize) -> (fits: bool)
        ensures
            fits == can_lay_out(self@, width),
    {
        let limit = isize::MAX as usize;
        if width > limit {
            return false;
        }
        match (self.depth(), self.bytes()) {
            (Some(d), Some(b)) => d <= limit && b <= limit - d,
            _ => false,
        }
    }

    /// Lays the document out within `width` columns.
    ///
    /// A document that cannot be broken is laid out as its texts, one behind
    /// the other. A group that holds no forced line break is laid out on a
    /// single line where that line is not wider than `width`.
    pub fn pretty(&self, width: usize) -> (text: String)
        requires
            can_lay_out(self@, width),
        ensures
            text@ == pretty_text(self@, width),
            self@.single_line(width as nat) matches Some(line) ==> text@ == line,
    {
        pretty_layout(self, width)
    }

    /// Lays the document out within `width` columns, where it can be laid
    /// out.
    pub fn try_pretty(&self, width: usize) -> (found: Option<String>)
        ensures
            found is Some <==> can_lay_out(self@, width),
            found matches Some(text) ==> {
                &&& text@ == pretty_text(self@, width)
                &&& self@.single_line(width as nat) matches Some(line) ==> text@ == line
            },
    {
        if self.fits_machine(width) {
            Some(self.pretty(width))
        } else {
            None
        }
    }
}

} // verus!
