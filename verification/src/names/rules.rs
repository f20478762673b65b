//! Byte classes and the dotted-element grammar that the bus name kinds share.

use vstd::prelude::*;

verus! {

/// No name of any kind is longer than this many bytes.
pub const MAX_NAME_LEN: usize = 255;

/// The byte that separates the elements of a dotted name.
pub const DOT: u8 = 0x2e;

/// The underscore, allowed anywhere in an element.
pub const UNDERSCORE: u8 = 0x5f;

/// The dash, allowed in the elements of bus names only.
pub const DASH: u8 = 0x2d;

/// `b` is an ASCII letter.
pub open spec fn is_alpha(b: u8) -> bool {
    (0x41 <= b <= 0x5a) || (0x61 <= b <= 0x7a)
}

/// `b` is an ASCII decimal digit.
pub open spec fn is_digit(b: u8) -> bool {
    0x30 <= b <= 0x39
}

/// `b` may stand inside an element: a letter, a digit, an underscore and,
/// where `dash` is set, a dash.
pub open spec fn is_element_byte(b: u8, dash: bool) -> bool {
    is_alpha(b) || is_digit(b) || b == UNDERSCORE || (dash && b == DASH)
}

/// `b` may open an element: an element byte that is no digit, unless
/// `digit` allows digits there.
pub open spec fn is_leading_byte(b: u8, dash: bool, digit: bool) -> bool {
    is_element_byte(b, dash) && (digit || !is_digit(b))
}

/// Position `i` of `s` is the first byte of an element.
pub open spec fn begins_element(s: Seq<u8>, i: int) -> bool {
    i == 0 || s[i - 1] == DOT
}

/// `s` is one or more non-empty elements joined by single dots: it is not
/// empty, does not end in a dot, every position that opens an element holds
/// a leading byte, and every other position holds a dot or an element byte.
pub open spec fn is_dotted(s: Seq<u8>, dash: bool, digit: bool) -> bool {
    &&& s.len() > 0
    &&& s[s.len() - 1] != DOT
    &&& forall|i: int|
        0 <= i < s.len() ==> if begins_element(s, i) {
            is_leading_byte(#[trigger] s[i], dash, digit)
        } else {
            s[i] == DOT || is_element_byte(s[i], dash)
        }
}

/// `s` has at least two elements.
pub open spec fn has_dot(s: Seq<u8>) -> bool {
    exists|i: int| 0 <= i < s.len() && #[trigger] s[i] == DOT
}

pub fn alpha(b: u8) -> (r: bool)
    ensures
        r == is_alpha(b),
{
    (0x41 <= b && b <= 0x5a) || (0x61 <= b && b <= 0x7a)
}

pub fn digit(b: u8) -> (r: bool)
    ensures
        r == is_digit(b),
{
    0x30 <= b && b <= 0x39
}

pub fn element_byte(b: u8, dash: bool) -> (r: bool)
    ensures
        r == is_element_byte(b, dash),
{
    alpha(b) || digit(b) || b == UNDERSCORE || (dash && b == DASH)
}

pub fn leading_byte(b: u8, dash: bool, digit_first: bool) -> (r: bool)
    ensures
        r == is_leading_byte(b, dash, digit_first),
{
    element_byte(b, dash) && (digit_first || !digit(b))
}

/// Reads `bytes` from `start` to the end as a dotted name. `None` when that
/// part is not one; otherwise whether it holds a dot.
pub fn scan_dotted(bytes: &[u8], start: usize, dash: bool, digit_first: bool) -> (r: Option<bool>)
    requires
        start <= bytes.len(),
    ensures
        r is Some <==> is_dotted(bytes@.skip(start as int), dash, digit_first),
        r matches Some(dots) ==> dots == has_dot(bytes@.skip(start as int)),
{
    let n = bytes.len();
    if start >= n {
        return None;
    }
    let ghost s = bytes@.skip(start as int);
    let mut i: usize = start;
    let mut opening = true;
    let mut dots = false;
    while i < n
        invariant
            start <= i <= n,
            n == bytes.len(),
            s == bytes@.skip(start as int),
            opening == begins_element(s, i - start),
            dots <==> exists|k: int| 0 <= k < i - start && #[trigger] s[k] == DOT,
            forall|k: int|
                0 <= k < i - start ==> if begins_element(s, k) {
                    is_leading_byte(#[trigger] s[k], dash, digit_first)
                } else {
                    s[k] == DOT || is_element_byte(s[k], dash)
                },
        decreases n - i,
    {
        let b = bytes[i];
        assert(s[i - start] == b);
        if opening {
            if !leading_byte(b, dash, digit_first) {
                return None;
            }
            opening = false;
        } else if b == DOT {
            dots = true;
            opening = true;
        } else if !element_byte(b, dash) {
            return None;
        }
        i += 1;
    }
    if opening {
        return None;
    }
    Some(dots)
}

} // verus!
