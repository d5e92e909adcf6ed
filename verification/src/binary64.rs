//! Numbers as IEEE 754 binary64 bit patterns.
//!
//! Every number that passes through this library is carried as the 64 bits of
//! its binary64 encoding. The library classifies and orders such patterns; it
//! never does arithmetic on them.

use vstd::prelude::*;

verus! {

/// The pattern whose only set bit is the sign bit.
pub const SIGN_BIT: u64 = 0x8000_0000_0000_0000;

/// The pattern of positive infinity: every exponent bit set, fraction zero.
pub const INFINITY: u64 = 0x7ff0_0000_0000_0000;

/// The pattern of positive zero.
pub const ZERO: u64 = 0;

/// The outcome of comparing two numbers.
#[derive(Clone, Copy, Debug, PartialEq, Eq, Structural)]
pub enum Order {
    Less,
    Equal,
    Greater,
}

/// The pattern with its sign bit cleared.
pub open spec fn magnitude(bits: u64) -> u64 {
    if bits >= SIGN_BIT {
        (bits - SIGN_BIT) as u64
    } else {
        bits
    }
}

/// The sign bit is set.
pub open spec fn is_negative(bits: u64) -> bool {
    bits >= SIGN_BIT
}

/// The pattern encodes no number: exponent all ones, fraction not zero.
pub open spec fn is_nan(bits: u64) -> bool {
    magnitude(bits) > INFINITY
}

/// The pattern encodes a zero, a subnormal or a normal number.
pub open spec fn is_finite(bits: u64) -> bool {
    magnitude(bits) < INFINITY
}

/// An integer that orders the patterns other than NaN as their numbers are
/// ordered: the magnitude, negated where the sign bit is set. Both zeros
/// have rank 0.
pub open spec fn rank(bits: u64) -> int {
    if is_negative(bits) {
        -(magnitude(bits) as int)
    } else {
        magnitude(bits) as int
    }
}

/// The order of two numbers.
///
/// Two finite numbers are ordered by value. A finite number is greater than
/// one that is not finite, be that an infinity or a NaN, and two numbers that
/// are not finite are equal. So every two numbers are ordered, and the order
/// passes along.
pub open spec fn order(a: u64, b: u64) -> Order {
    if is_finite(a) && is_finite(b) {
        if rank(a) < rank(b) {
            Order::Less
        } else if rank(a) == rank(b) {
            Order::Equal
        } else {
            Order::Greater
        }
    } else if is_finite(a) {
        Order::Greater
    } else if is_finite(b) {
        Order::Less
    } else {
        Order::Equal
    }
}

/// Tells whether `bits` is a NaN.
pub fn is_nan_bits(bits: u64) -> (r: bool)
    ensures
        r == is_nan(bits),
{
    let m: u64 = if bits >= SIGN_BIT { bits - SIGN_BIT } else { bits };
    m > INFINITY
}

/// Tells whether `bits` is finite.
pub fn is_finite_bits(bits: u64) -> (r: bool)
    ensures
        r == is_finite(bits),
{
    let m: u64 = if bits >= SIGN_BIT { bits - SIGN_BIT } else { bits };
    m < INFINITY
}

/// Compares two numbers given by their bit patterns.
pub fn order_bits(a: u64, b: u64) -> (o: Order)
    ensures
        o == order(a, b),
{
    let ma: u64 = if a >= SIGN_BIT { a - SIGN_BIT } else { a };
    let mb: u64 = if b >= SIGN_BIT { b - SIGN_BIT } else { b };
    if ma < INFINITY && mb < INFINITY {
        let na: bool = a >= SIGN_BIT;
        let nb: bool = b >= SIGN_BIT;
        if na && nb {
            // both at or below zero: the greater magnitude is the lesser number
            if ma > mb {
                Order::Less
            } else if ma == mb {
                Order::Equal
            } else {
                Order::Greater
            }
        } else if na {
            if ma == 0 && mb == 0 {
                Order::Equal
            } else {
                Order::Less
            }
        } else if nb {
            if ma == 0 && mb == 0 {
                Order::Equal
            } else {
                Order::Greater
            }
        } else {
            if ma < mb {
                Order::Less
            } else if ma == mb {
                Order::Equal
            } else {
                Order::Greater
            }
        }
    } else if ma < INFINITY {
        Order::Greater
    } else if mb < INFINITY {
        Order::Less
    } else {
        Order::Equal
    }
}

/// Swapping the arguments mirrors the order.
pub proof fn lemma_order_mirrors(a: u64, b: u64)
    ensures
        order(a, b) == Order::Less <==> order(b, a) == Order::Greater,
        order(a, b) == Order::Equal <==> order(b, a) == Order::Equal,
{
}

/// The order passes along: where `a` is not greater than `b` and `b` is not
/// greater than `c`, `a` is not greater than `c`.
pub proof fn lemma_order_transitive(a: u64, b: u64, c: u64)
    requires
        order(a, b) != Order::Greater,
        order(b, c) != Order::Greater,
    ensures
        order(a, c) != Order::Greater,
{
}

} // verus!
