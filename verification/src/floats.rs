//! 64-bit floats by their bits: which are finite, which two are so close to
//! each other that they count as the same, and how a float is written.
//!
//! The bits of a float are its sign, eleven bits of exponent and 52 bits of
//! fraction, in this order. A float is finite where its exponent is not all
//! ones. Floats without sign are ordered as their bits are, and a NaN without
//! sign lies above every one of them.

use vstd::prelude::*;
use crate::grammar::is_digit;
use crate::scan::digit;
use crate::text::chars_of;
use crate::trusted::{float_difference, float_display, print_double, subtract_doubles};

verus! {

/// The sign of a float.
pub const SIGN_BIT: u64 = 0x8000_0000_0000_0000;

/// The exponent of a float.
pub const EXPONENT_BITS: u64 = 0x7FF0_0000_0000_0000;

/// The bits of the machine epsilon of 64-bit floats, two to the power of -52.
pub const EPSILON_BITS: u64 = 0x3CB0_0000_0000_0000;

/// Whether the float with the given bits is finite: neither infinite nor a
/// NaN.
pub open spec fn is_finite(bits: u64) -> bool {
    bits & EXPONENT_BITS != EXPONENT_BITS
}

/// The bits of the magnitude of the float with the given bits: the bits
/// without the sign.
pub open spec fn magnitude(bits: u64) -> u64 {
    bits & !SIGN_BIT
}

/// Whether the magnitude of the float with the given bits is at most the
/// machine epsilon.
pub open spec fn is_small(bits: u64) -> bool {
    magnitude(bits) <= EPSILON_BITS
}

/// Whether two floats are close: whether both are finite and the magnitude
/// of their difference is at most the machine epsilon. An infinite float and
/// a NaN are close to no float: their difference from any float is infinite
/// or a NaN.
pub open spec fn close(a: u64, b: u64) -> bool {
    is_finite(a) && is_finite(b) && is_small(float_difference(a, b))
}

/// Whether the float with the given bits is finite.
pub fn finite(bits: u64) -> (b: bool)
    ensures
        b == is_finite(bits),
{
    bits & EXPONENT_BITS != EXPONENT_BITS
}

/// Whether the two floats with the given bits are close.
pub fn floats_close(a: u64, b: u64) -> (c: bool)
    ensures
        c == close(a, b),
{
    if finite(a) && finite(b) {
        let difference = subtract_doubles(a, b);
        (difference & !SIGN_BIT) <= EPSILON_BITS
    } else {
        false
    }
}

/// Where the digits of a number start in a text: behind a minus sign, or at
/// the start.
pub open spec fn digits_start(t: Seq<char>) -> int {
    if t.len() > 0 && t[0] == '-' {
        1
    } else {
        0
    }
}

/// Whether a text is a whole number: an optional minus sign and digits, one
/// at least, and nothing else.
pub open spec fn is_whole(t: Seq<char>) -> bool {
    digits_start(t) < t.len() && forall|i: int|
        digits_start(t) <= i < t.len() ==> is_digit(#[trigger] t[i])
}

/// How a float is written, given the text that `Display` gives for it: a
/// text that is a whole number gets `.0` behind it, so that it is no integer;
/// any other text stays as it is.
pub open spec fn float_text(t: Seq<char>) -> Seq<char> {
    if is_whole(t) {
        t + seq!['.', '0']
    } else {
        t
    }
}

/// Whether the text `chars` is a whole number.
fn whole(chars: &Vec<char>) -> (b: bool)
    ensures
        b == is_whole(chars@),
{
    let start: usize = if chars.len() > 0 && chars[0] == '-' {
        1
    } else {
        0
    };
    if start >= chars.len() {
        return false;
    }
    for i in start..chars.len()
        invariant
            start == digits_start(chars@),
            forall|j: int| start <= j < i ==> is_digit(#[trigger] chars@[j]),
    {
        if !digit(chars[i]) {
            return false;
        }
    }
    true
}

/// The text of the float with the given bits: what `Display` gives for it,
/// with `.0` behind it where that is a whole number.
pub fn float_to_string(bits: u64) -> (text: String)
    ensures
        text@ == float_text(float_display(bits)),
{
    let mut text = print_double(bits);
    let chars = chars_of(text.as_str());
    if whole(&chars) {
        text.push('.');
        text.push('0');
        assert(text@ =~= float_display(bits) + seq!['.', '0']);
    }
    text
}

} // verus!
