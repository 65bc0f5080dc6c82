//! Confidence scores as the bit patterns of IEEE 754 doubles.
//!
//! A score is carried and compared, never computed with, so its bit pattern is enough: the
//! patterns of two doubles without a sign order as the doubles do.

use vstd::prelude::*;

verus! {

/// The bit pattern of zero.
pub const ZERO: u64 = 0;

/// The bit pattern of one half.
pub const HALF: u64 = 0x3FE0_0000_0000_0000;

/// The bit pattern of one.
pub const ONE: u64 = 0x3FF0_0000_0000_0000;

/// The pattern without its sign bit.
pub open spec fn magnitude(bits: u64) -> int {
    if bits < 0x8000_0000_0000_0000 {
        bits as int
    } else {
        bits - 0x8000_0000_0000_0000
    }
}

/// Whether the pattern is that of no number.
pub open spec fn is_nan(bits: u64) -> bool {
    magnitude(bits) > 0x7FF0_0000_0000_0000
}

/// Where a number stands in the order of the doubles; both zeros stand at 0.
pub open spec fn rank(bits: u64) -> int {
    if bits < 0x8000_0000_0000_0000 {
        bits as int
    } else {
        0x8000_0000_0000_0000 - bits
    }
}

/// Whether the first number is no less than the second.
pub open spec fn at_least(a: u64, b: u64) -> bool {
    !is_nan(a) && !is_nan(b) && rank(a) >= rank(b)
}

/// The number of [0, 1] nearest to the given one; a pattern of no number stays.
pub open spec fn unit_clamped(bits: u64) -> u64 {
    if is_nan(bits) {
        bits
    } else if rank(bits) < 0 {
        ZERO
    } else if rank(bits) > rank(ONE) {
        ONE
    } else {
        bits
    }
}

/// A clamped number lies in [0, 1], and clamping it again changes nothing.
pub proof fn clamped_is_in_unit_interval(bits: u64)
    ensures
        !is_nan(bits) ==> at_least(unit_clamped(bits), ZERO) && at_least(ONE, unit_clamped(bits)),
        unit_clamped(unit_clamped(bits)) == unit_clamped(bits),
{
}

fn nan(bits: u64) -> (r: bool)
    ensures
        r == is_nan(bits),
{
    let m: u64 = if bits < 0x8000_0000_0000_0000 {
        bits
    } else {
        bits - 0x8000_0000_0000_0000
    };
    m > 0x7FF0_0000_0000_0000
}

/// See [`at_least`].
pub fn reaches(a: u64, b: u64) -> (r: bool)
    ensures
        r == at_least(a, b),
{
    if nan(a) || nan(b) {
        return false;
    }
    let a_negative = a >= 0x8000_0000_0000_0000;
    let b_negative = b >= 0x8000_0000_0000_0000;
    if a_negative {
        if b_negative {
            a <= b
        } else {
            a == 0x8000_0000_0000_0000 && b == 0
        }
    } else {
        b_negative || a >= b
    }
}

/// See [`unit_clamped`].
pub fn clamp_unit(bits: u64) -> (r: u64)
    ensures
        r == unit_clamped(bits),
{
    if nan(bits) {
        bits
    } else if bits > 0x8000_0000_0000_0000 {
        ZERO
    } else if bits < 0x8000_0000_0000_0000 && bits > ONE {
        ONE
    } else {
        bits
    }
}

/// How numbers compare is how their values do: above zero the larger pattern is the larger number, below zero it is the
/// smaller one, and anything above zero is more than anything below. What is no number is never at least anything, nor
/// anything at least it.
pub proof fn patterns_compare_as_numbers(a: u64, b: u64)
    ensures
        a <= 0x7FF0_0000_0000_0000 && b <= 0x7FF0_0000_0000_0000 ==> (at_least(a, b) <==> a >= b),
        a <= 0x7FF0_0000_0000_0000 && 0x8000_0000_0000_0000 <= b <= 0xFFF0_0000_0000_0000
            ==> at_least(a, b) && (at_least(b, a) <==> a == 0 && b == 0x8000_0000_0000_0000),
        0x8000_0000_0000_0000 <= a <= 0xFFF0_0000_0000_0000 && 0x8000_0000_0000_0000 <= b
            <= 0xFFF0_0000_0000_0000 ==> (at_least(a, b) <==> a <= b),
        0x7FF0_0000_0000_0000 < a < 0x8000_0000_0000_0000 || a > 0xFFF0_0000_0000_0000
            ==> !at_least(a, b) && !at_least(b, a),
{
}

/// A number in [0, 1] stays as it is when it is clamped, either zero among them, one below becomes 0 and one above becomes 1.
/// What is no number stays.
pub proof fn clamping_moves_only_what_is_outside(n: u64)
    ensures
        n <= 0x3FF0_0000_0000_0000 ==> unit_clamped(n) == n,
        0x3FF0_0000_0000_0000 <= n <= 0x7FF0_0000_0000_0000 ==> unit_clamped(n)
            == 0x3FF0_0000_0000_0000,
        0x8000_0000_0000_0000 < n <= 0xFFF0_0000_0000_0000 ==> unit_clamped(n) == 0,
        n == 0x8000_0000_0000_0000 ==> unit_clamped(n) == n,
        0x7FF0_0000_0000_0000 < n < 0x8000_0000_0000_0000 || n > 0xFFF0_0000_0000_0000
            ==> unit_clamped(n) == n,
{
}

} // verus!
