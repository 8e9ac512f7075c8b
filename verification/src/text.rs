//! Text as sequences of characters: conversions between strings and character
//! vectors, and the decimal notation of integers.

use vstd::prelude::*;

verus! {

/// The characters of `s`, in order.
pub fn chars_of(s: &str) -> (chars: Vec<char>)
    ensures
        chars@ == s@,
{
    let mut chars: Vec<char> = Vec::new();
    for c in it: s.chars()
        invariant
            chars@ == it.seq().take(it.index()),
            it.seq() == s@,
    {
        chars.push(c);
    }
    chars
}

/// The string made of `chars[from..to]`.
pub fn string_of(chars: &Vec<char>, from: usize, to: usize) -> (s: String)
    requires
        from <= to <= chars@.len(),
    ensures
        s@ == chars@.subrange(from as int, to as int),
{
    let mut s = String::new();
    let mut i: usize = from;
    while i < to
        invariant
            from <= i <= to <= chars@.len(),
            s@ == chars@.subrange(from as int, i as int),
        decreases to - i,
    {
        s.push(chars[i]);
        i += 1;
    }
    s
}

/// The character of a decimal digit.
pub open spec fn digit_char(d: nat) -> char
    recommends
        d < 10,
{
    (d + 48) as char
}

/// The decimal notation of a natural number.
pub open spec fn nat_text(n: nat) -> Seq<char>
    decreases n,
{
    if n < 10 {
        seq![digit_char(n)]
    } else {
        nat_text(n / 10).push(digit_char(n % 10))
    }
}

/// The decimal notation of an integer: a minus sign where it is negative,
/// then its magnitude.
pub open spec fn int_text(i: int) -> Seq<char> {
    if i < 0 {
        seq!['-'] + nat_text((-i) as nat)
    } else {
        nat_text(i as nat)
    }
}

/// Whether `a` is `b` read backwards.
pub open spec fn is_reverse_of(a: Seq<char>, b: Seq<char>) -> bool {
    a.len() == b.len() && forall|j: int| 0 <= j < a.len() ==> a[j] == #[trigger] b[a.len() - 1 - j]
}

/// The decimal notation of `i`.
pub fn int_to_string(i: i64) -> (s: String)
    ensures
        s@ == int_text(i as int),
{
    let magnitude: u64 = if i < 0 {
        (-(i + 1)) as u64 + 1
    } else {
        i as u64
    };
    // The digits, the last one first.
    let mut digits: Vec<char> = Vec::new();
    let mut rest: u64 = magnitude;
    let ghost mut tail: Seq<char> = Seq::empty();
    loop
        invariant_except_break
            nat_text(magnitude as nat) == nat_text(rest as nat) + tail,
        invariant
            is_reverse_of(tail, digits@),
        ensures
            nat_text(magnitude as nat) == tail,
            is_reverse_of(tail, digits@),
        decreases rest,
    {
        let d: u8 = (rest % 10) as u8;
        let c: char = (d + 48) as char;
        assert(c == digit_char((rest % 10) as nat));
        let ghost old_digits = digits@;
        digits.push(c);
        proof {
            let before = tail;
            tail = seq![c] + tail;
            assert forall|j: int| 0 <= j < tail.len() implies tail[j] == #[trigger] digits@[
                tail.len() - 1 - j
            ] by {
                if j > 0 {
                    assert(tail[j] == before[j - 1]);
                    assert(before[j - 1] == old_digits[before.len() - 1 - (j - 1)]);
                }
            }
            if rest < 10 {
                assert(nat_text(rest as nat) + before =~= tail);
            } else {
                assert(nat_text(rest as nat) + before =~= nat_text((rest / 10) as nat) + tail);
            }
        }
        if rest < 10 {
            break ;
        }
        rest = rest / 10;
    }
    let mut s = String::new();
    if i < 0 {
        s.push('-');
    }
    let ghost sign = s@;
    let mut k: usize = digits.len();
    while k > 0
        invariant
            k <= digits@.len(),
            is_reverse_of(tail, digits@),
            s@ == sign + tail.subrange(0, digits@.len() - k),
        decreases k,
    {
        k -= 1;
        s.push(digits[k]);
        proof {
            let n = digits@.len() as int;
            assert(tail[n - 1 - k] == digits@[n - 1 - (n - 1 - k)]);
            assert(sign + tail.subrange(0, n - k) =~= (sign + tail.subrange(0, n - k - 1)).push(
                digits@[k as int],
            ));
        }
    }
    assert(tail.subrange(0, digits@.len() as int) =~= tail);
    s
}

} // verus!
