//! Comparing single-precision numbers by their bit patterns.
//!
//! A pattern is a sign bit above thirty-one bits of magnitude.  Among patterns
//! that are numbers, the magnitudes are ordered as the numbers' absolute values
//! are, so numbers can be compared without computing with them.
use vstd::prelude::*;

verus! {

/// The pattern of positive infinity: every larger magnitude is not a number.
pub const INFINITY: u32 = 0x7f80_0000;

/// The pattern of the largest finite number.
pub const LARGEST: u32 = 0x7f7f_ffff;

/// The pattern of zero.
pub const ZERO: u32 = 0;

/// The pattern of one.
pub const ONE: u32 = 0x3f80_0000;

/// The patterns with the sign bit set start here.
pub const SIGN: u32 = 0x8000_0000;

/// A pattern without its sign bit.
pub open spec fn magnitude(p: u32) -> int {
    if p < SIGN {
        p as int
    } else {
        p - SIGN
    }
}

/// Whether a pattern is not a number.
pub open spec fn is_nan(p: u32) -> bool {
    magnitude(p) > INFINITY
}

/// The place of a number among all numbers; both zeros have place zero.
pub open spec fn place(p: u32) -> int {
    if p < SIGN {
        magnitude(p)
    } else {
        -magnitude(p)
    }
}

/// Whether `a > b`, which is false of anything that is not a number.
pub open spec fn is_greater(a: u32, b: u32) -> bool {
    !is_nan(a) && !is_nan(b) && place(a) > place(b)
}

/// The smaller of two numbers; the other one where one is not a number.
pub open spec fn lesser_of(a: u32, b: u32) -> u32 {
    if is_nan(a) {
        b
    } else if is_greater(a, b) {
        b
    } else {
        a
    }
}

/// The larger of two numbers; the other one where one is not a number.
pub open spec fn larger_of(a: u32, b: u32) -> u32 {
    if is_nan(a) {
        b
    } else if is_greater(b, a) {
        b
    } else {
        a
    }
}

/// `x`, or the bound that it lies beyond; what is not a number stays as it is.
pub open spec fn clamped(x: u32, low: u32, high: u32) -> u32 {
    if is_greater(low, x) {
        low
    } else if is_greater(x, high) {
        high
    } else {
        x
    }
}

/// Whether two patterns are bounds of a range that is not empty.
pub open spec fn is_range(low: u32, high: u32) -> bool {
    !is_nan(low) && !is_nan(high) && place(low) <= place(high)
}

/// Whether `a > b`.
pub fn greater(a: u32, b: u32) -> (r: bool)
    ensures
        r == is_greater(a, b),
{
    let a_size: u32 = if a < SIGN {
        a
    } else {
        a - SIGN
    };
    let b_size: u32 = if b < SIGN {
        b
    } else {
        b - SIGN
    };
    if a_size > INFINITY || b_size > INFINITY {
        false
    } else if a < SIGN {
        if b < SIGN {
            a_size > b_size
        } else {
            a_size > 0 || b_size > 0
        }
    } else {
        b >= SIGN && a_size < b_size
    }
}

/// Whether a pattern is not a number.
pub fn not_a_number(p: u32) -> (r: bool)
    ensures
        r == is_nan(p),
{
    if p < SIGN {
        p > INFINITY
    } else {
        p - SIGN > INFINITY
    }
}

/// The smaller of two numbers.
pub fn lesser(a: u32, b: u32) -> (r: u32)
    ensures
        r == lesser_of(a, b),
{
    if not_a_number(a) || greater(a, b) {
        b
    } else {
        a
    }
}

/// The larger of two numbers.
pub fn larger(a: u32, b: u32) -> (r: u32)
    ensures
        r == larger_of(a, b),
{
    if not_a_number(a) || greater(b, a) {
        b
    } else {
        a
    }
}

/// `x` held between `low` and `high`.
pub fn clamp(x: u32, low: u32, high: u32) -> (r: u32)
    requires
        is_range(low, high),
    ensures
        r == clamped(x, low, high),
{
    if greater(low, x) {
        low
    } else if greater(x, high) {
        high
    } else {
        x
    }
}

/// A number that was held between two bounds lies between them, and one that
/// lay between them already is unchanged.
pub proof fn lemma_clamped(x: u32, low: u32, high: u32)
    requires
        is_range(low, high),
    ensures
        is_nan(x) ==> clamped(x, low, high) == x,
        !is_nan(x) ==> place(low) <= place(clamped(x, low, high)) <= place(high),
        clamped(clamped(x, low, high), low, high) == clamped(x, low, high),
        !is_nan(x) && place(low) <= place(x) <= place(high) ==> clamped(x, low, high) == x,
{
}

/// Patterns are compared as the numbers that they stand for: without the sign bit
/// as they are, with it the other way round, and one with it never exceeds one
/// without; the two zeros are equal, and what is not a number is never greater nor
/// less.
pub proof fn lemma_order(a: u32, b: u32)
    ensures
        is_nan(a) <==> a & 0x7fff_ffff > 0x7f80_0000,
        is_nan(a) || is_nan(b) ==> !is_greater(a, b),
        !is_nan(a) && !is_nan(b) ==> {
            &&& a < 0x8000_0000 && b < 0x8000_0000 ==> (is_greater(a, b) <==> a > b)
            &&& a >= 0x8000_0000 && b >= 0x8000_0000 ==> (is_greater(a, b) <==> a < b)
            &&& a >= 0x8000_0000 && b < 0x8000_0000 ==> !is_greater(a, b)
            &&& a < 0x8000_0000 && b >= 0x8000_0000 ==> (is_greater(a, b) <==> !(a == 0 && b
                == 0x8000_0000))
            &&& is_greater(a, b) <==> place(a) > place(b)
        },
{
    assert(a & 0x7fff_ffff == if a < 0x8000_0000 {
        a as int
    } else {
        a - 0x8000_0000
    }) by (bit_vector);
}

/// The lesser and the larger of two are those two, in their order; where one is not a
/// number, both are the other.
pub proof fn lemma_lesser_and_larger(a: u32, b: u32)
    ensures
        is_nan(a) ==> lesser_of(a, b) == b && larger_of(a, b) == b,
        is_nan(b) && !is_nan(a) ==> lesser_of(a, b) == a && larger_of(a, b) == a,
        !is_nan(a) && !is_nan(b) ==> {
            &&& place(lesser_of(a, b)) <= place(a) && place(lesser_of(a, b)) <= place(b)
            &&& place(a) <= place(larger_of(a, b)) && place(b) <= place(larger_of(a, b))
            &&& (lesser_of(a, b), larger_of(a, b)) == (a, b) || (lesser_of(a, b), larger_of(a, b))
                == (b, a) || place(a) == place(b)
            &&& lesser_of(a, b) == a || lesser_of(a, b) == b
            &&& larger_of(a, b) == a || larger_of(a, b) == b
        },
{
}

/// What lies beyond a bound is held at that bound, and at no other number.
pub proof fn lemma_held_at_bound(x: u32, low: u32, high: u32)
    requires
        is_range(low, high),
        !is_nan(x),
    ensures
        place(x) < place(low) ==> clamped(x, low, high) == low,
        place(x) > place(high) ==> clamped(x, low, high) == high,
        place(low) <= place(x) <= place(high) ==> clamped(x, low, high) == x,
{
}

} // verus!
