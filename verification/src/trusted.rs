//! What this library takes on trust: the contracts of the functions of other
//! crates, and of the standard library, that it calls. Nothing here is proved.

use pretty::{BoxAllocator, BoxDoc, Doc, DocAllocator};
use vstd::prelude::*;
use crate::document::{Document, Layout};
use crate::floats::is_finite;

verus! {

/// `String::push` appends one character.
pub assume_specification[ String::push ](s: &mut String, c: char)
    ensures
        final(s)@ == old(s)@.push(c),
;

/// What `char::is_alphabetic` tells of a character.
pub uninterp spec fn alphabetic(c: char) -> bool;

/// What `char::is_alphanumeric` tells of a character.
pub uninterp spec fn alphanumeric(c: char) -> bool;

/// `char::is_alphabetic` is a function of the character alone.
pub assume_specification[ char::is_alphabetic ](c: char) -> (b: bool)
    ensures
        b == alphabetic(c),
;

/// `char::is_alphanumeric` is a function of the character alone.
pub assume_specification[ char::is_alphanumeric ](c: char) -> (b: bool)
    ensures
        b == alphanumeric(c),
;

/// What `nom::number::complete::double` makes of a text: the bits of the
/// float that it reads from the start of the text and the rest that it leaves,
/// or nothing where it reads no float.
pub uninterp spec fn double_value(text: Seq<char>) -> Option<(u64, Seq<char>)>;

/// Reads a float from the start of `text` with `nom::number::complete::double`
/// and hands back its bits and the text that is left, or nothing where `double`
/// fails. The result is a function of the text alone: `double` hands the bytes
/// of the text to `lexical_core::parse_partial` and cuts the text behind the
/// bytes that were read.
#[verifier::external_body]
pub(crate) fn read_double(text: &str) -> (found: Option<(u64, String)>)
    ensures
        match found {
            Some((bits, rest)) => double_value(text@) == Some((bits, rest@)),
            None => double_value(text@) is None,
        },
{
    match nom::number::complete::double::<&str, (&str, nom::error::ErrorKind)>(text) {
        Ok((rest, x)) => Some((x.to_bits(), rest.to_string())),
        Err(_) => None,
    }
}

/// The text that `Display` gives for the 64-bit float with the given bits.
pub uninterp spec fn float_display(bits: u64) -> Seq<char>;

/// Prints the 64-bit float with the given bits as its `Display` does. The
/// float is made from the bits by `nom::number::complete::be_f64`, which reads
/// eight bytes, most significant first, and cannot fail on eight bytes. The
/// result is a function of the bits alone.
#[verifier::external_body]
pub(crate) fn print_double(bits: u64) -> (text: String)
    ensures
        text@ == float_display(bits),
{
    match nom::number::complete::be_f64::<(&[u8], nom::error::ErrorKind)>(&bits.to_be_bytes()) {
        Ok((_, x)) => x.to_string(),
        Err(_) => String::new(),
    }
}

/// The bits of the difference of two finite 64-bit floats, given by their
/// bits, as the subtraction of floats gives it.
pub uninterp spec fn float_difference(a: u64, b: u64) -> u64;

/// Subtracts the second of two finite 64-bit floats from the first with the
/// `-` of floats, all by their bits. The floats are made from the bits by
/// `nom::number::complete::be_f64`, as in `print_double`. The difference of
/// two finite floats is a function of the two alone: it is the exact
/// difference, rounded to the nearest float, and never a NaN.
#[verifier::external_body]
pub(crate) fn subtract_doubles(a: u64, b: u64) -> (bits: u64)
    requires
        is_finite(a),
        is_finite(b),
    ensures
        bits == float_difference(a, b),
{
    let (a, b) = (a.to_be_bytes(), b.to_be_bytes());
    let x = nom::number::complete::be_f64::<(&[u8], nom::error::ErrorKind)>(&a);
    let y = nom::number::complete::be_f64::<(&[u8], nom::error::ErrorKind)>(&b);
    match (x, y) {
        (Ok((_, x)), Ok((_, y))) => (x - y).to_bits(),
        _ => 0,
    }
}

/// A document of the `pretty` crate.
#[verifier::external_type_specification]
#[verifier::external_body]
#[verifier::reject_recursive_types(T)]
#[verifier::reject_recursive_types(A)]
pub struct ExDoc<'a, T, A>(Doc<'a, T, A>);

/// A boxed document of the `pretty` crate.
#[verifier::external_type_specification]
#[verifier::external_body]
#[verifier::reject_recursive_types(A)]
pub struct ExBoxDoc<'a, A>(BoxDoc<'a, A>);

/// The text that `pretty::Doc::pretty` lays a document out to within `width`
/// columns.
pub uninterp spec fn pretty_text(doc: Layout, width: usize) -> Seq<char>;

/// Makes the `pretty::Doc` of the same shape as `doc`, variant by variant,
/// with its parts boxed by `pretty::BoxAllocator`.
#[verifier::external_body]
pub(crate) fn to_pretty(doc: &Document) -> Doc<'static, BoxDoc<'static, ()>> {
    match doc {
        Document::Nil => Doc::Nil,
        Document::Text(s) => Doc::text(s.clone()),
        Document::Space => Doc::Space,
        Document::Newline => Doc::Newline,
        Document::Append(a, b) => {
            Doc::Append(BoxAllocator.alloc(to_pretty(a)), BoxAllocator.alloc(to_pretty(b)))
        },
        Document::FlatAlt(a, b) => {
            Doc::FlatAlt(BoxAllocator.alloc(to_pretty(a)), BoxAllocator.alloc(to_pretty(b)))
        },
        Document::Nest(n, d) => Doc::Nest(*n, BoxAllocator.alloc(to_pretty(d))),
        Document::Group(d) => Doc::Group(BoxAllocator.alloc(to_pretty(d))),
    }
}

/// Lays `doc` out within `width` columns with `pretty::Doc::pretty` and
/// collects the text.
///
/// The layout is a function of the document and the width. `pretty` counts
/// in machine integers: it adds each indentation to the one around it, adds
/// the bytes of each text to the column, and takes the column from the width
/// as signed numbers. The bounds asked for keep all of these in range.
///
/// Two cases of the layout are stated. A document that holds no space, no
/// line break and no pair of alternatives is written as its texts, one
/// behind the other, whatever the width: `pretty` starts a new line at a
/// space or a line break only. And a group is laid out on a single line if
/// possible, as `pretty` says of `group`: where the group is the whole
/// document, holds no line break that stays one on a single line, and its
/// texts and spaces together have no more bytes than `width`, every space in
/// it is written as a space and of every pair of alternatives the second, as
/// `pretty` says of `flat_alt`.
#[verifier::external_body]
pub(crate) fn pretty_layout(doc: &Document, width: usize) -> (text: String)
    requires
        doc@.extent() <= isize::MAX,
        width <= isize::MAX,
    ensures
        text@ == pretty_text(doc@, width),
        doc@.single_line(width as nat) matches Some(line) ==> text@ == line,
{
    to_pretty(doc).pretty(width).to_string()
}

} // verus!
