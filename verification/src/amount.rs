//! Amounts as arithmetic still to be done.
//!
//! The library decides which numbers are multiplied and added, and in which
//! order; it leaves the arithmetic itself to its caller. An `Amount` is the
//! record of that decision: a formula over binary64 bit patterns. Evaluating
//! it from the leaves up, one rounding per node, gives the number.

use vstd::prelude::*;
use crate::binary64::ZERO;

verus! {

/// A formula over binary64 numbers.
#[derive(Debug)]
pub enum Amount {
    /// The number with this bit pattern.
    Value(u64),
    /// The left amount times the right one.
    Product(Box<Amount>, Box<Amount>),
    /// The left amount plus the right one.
    Sum(Box<Amount>, Box<Amount>),
}

impl Amount {
    /// Positive zero.
    pub open spec fn zero() -> Amount {
        Amount::Value(ZERO)
    }

    /// `l` times `r`.
    pub open spec fn times(l: Amount, r: Amount) -> Amount {
        Amount::Product(Box::new(l), Box::new(r))
    }

    /// `l` plus `r`.
    pub open spec fn plus(l: Amount, r: Amount) -> Amount {
        Amount::Sum(Box::new(l), Box::new(r))
    }

    /// `result` is a number that the formula may come to where `multiply`
    /// multiplies and `add_up` adds: the operands of each node are worked out,
    /// the left one first, and the node's operation is applied to them once.
    pub open spec fn evaluates<M: Fn(u64, u64) -> u64, A: Fn(u64, u64) -> u64>(
        self,
        multiply: &M,
        add_up: &A,
        result: u64,
    ) -> bool
        decreases self,
    {
        match self {
            Amount::Value(bits) => result == bits,
            Amount::Product(l, r) => exists|x: u64, y: u64|
                l.evaluates(multiply, add_up, x) && r.evaluates(multiply, add_up, y) && #[trigger] call_ensures(
                    multiply,
                    (x, y),
                    result,
                ),
            Amount::Sum(l, r) => exists|x: u64, y: u64|
                l.evaluates(multiply, add_up, x) && r.evaluates(multiply, add_up, y) && #[trigger] call_ensures(
                    add_up,
                    (x, y),
                    result,
                ),
        }
    }

    /// Works the formula out with the caller's arithmetic: `multiply` multiplies
    /// two numbers and `add_up` adds two, each given and giving bit patterns.
    pub fn evaluate<M: Fn(u64, u64) -> u64, A: Fn(u64, u64) -> u64>(&self, multiply: &M, add_up: &A) -> (result: u64)
        requires
            forall|x: u64, y: u64| call_requires(multiply, (x, y)),
            forall|x: u64, y: u64| call_requires(add_up, (x, y)),
        ensures
            self.evaluates(multiply, add_up, result),
        decreases *self,
    {
        match self {
            Amount::Value(bits) => *bits,
            Amount::Product(l, r) => {
                let x: u64 = (&**l).evaluate(multiply, add_up);
                let y: u64 = (&**r).evaluate(multiply, add_up);
                multiply(x, y)
            },
            Amount::Sum(l, r) => {
                let x: u64 = (&**l).evaluate(multiply, add_up);
                let y: u64 = (&**r).evaluate(multiply, add_up);
                add_up(x, y)
            },
        }
    }

    /// The amount that is the number `bits`.
    pub fn value(bits: u64) -> (a: Amount)
        ensures
            a == Amount::Value(bits),
    {
        Amount::Value(bits)
    }

    /// The product of two amounts, left operand first.
    pub fn product(l: Amount, r: Amount) -> (a: Amount)
        ensures
            a == Amount::times(l, r),
    {
        Amount::Product(Box::new(l), Box::new(r))
    }

    /// The sum of two amounts, left operand first.
    pub fn sum(l: Amount, r: Amount) -> (a: Amount)
        ensures
            a == Amount::plus(l, r),
    {
        Amount::Sum(Box::new(l), Box::new(r))
    }
}

impl Clone for Amount {
    /// A copy of the whole formula.
    fn clone(&self) -> (a: Amount)
        ensures
            a == *self,
        decreases *self,
    {
        match self {
            Amount::Value(bits) => Amount::Value(*bits),
            Amount::Product(l, r) => {
                let l2 = (&**l).clone();
                let r2 = (&**r).clone();
                Amount::Product(Box::new(l2), Box::new(r2))
            },
            Amount::Sum(l, r) => {
                let l2 = (&**l).clone();
                let r2 = (&**r).clone();
                Amount::Sum(Box::new(l2), Box::new(r2))
            },
        }
    }
}

} // verus!
