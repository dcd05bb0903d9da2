//! The numbers that matrices hold.

use vstd::prelude::*;

verus! {

/// A number type with the four arithmetic operations and an order.
///
/// Every operation is a total function of its operands and has a name in specifications,
/// so that what a layer computes is stated exactly, whatever the numbers are. Nothing is
/// asked of the arithmetic beyond that: sums need not be associative, so every contract
/// in this crate fixes the order in which numbers are added.
pub trait Scalar: Copy + Sized {
    /// The number zero.
    spec fn zero_spec() -> Self;

    /// The number one.
    spec fn one_spec() -> Self;

    /// The number that stands for the count `n`.
    spec fn count_spec(n: usize) -> Self;

    /// The sum `self + rhs`.
    spec fn plus_spec(self, rhs: Self) -> Self;

    /// The difference `self - rhs`.
    spec fn minus_spec(self, rhs: Self) -> Self;

    /// The product `self * rhs`.
    spec fn times_spec(self, rhs: Self) -> Self;

    /// The quotient `self / rhs`.
    spec fn over_spec(self, rhs: Self) -> Self;

    /// Whether `self > rhs`.
    spec fn exceeds_spec(self, rhs: Self) -> bool;

    /// Whether `self >= rhs`.
    spec fn at_least_spec(self, rhs: Self) -> bool;

    fn zero() -> (r: Self)
        ensures
            r == Self::zero_spec(),
    ;

    fn one() -> (r: Self)
        ensures
            r == Self::one_spec(),
    ;

    fn count(n: usize) -> (r: Self)
        ensures
            r == Self::count_spec(n),
    ;

    fn plus(self, rhs: Self) -> (r: Self)
        ensures
            r == self.plus_spec(rhs),
    ;

    fn minus(self, rhs: Self) -> (r: Self)
        ensures
            r == self.minus_spec(rhs),
    ;

    fn times(self, rhs: Self) -> (r: Self)
        ensures
            r == self.times_spec(rhs),
    ;

    fn over(self, rhs: Self) -> (r: Self)
        ensures
            r == self.over_spec(rhs),
    ;

    fn exceeds(self, rhs: Self) -> (b: bool)
        ensures
            b == self.exceeds_spec(rhs),
    ;

    fn at_least(self, rhs: Self) -> (b: bool)
        ensures
            b == self.at_least_spec(rhs),
    ;

    /// No number exceeds itself.
    proof fn lemma_exceeds_irreflexive(a: Self)
        ensures
            !a.exceeds_spec(a),
    ;

    /// What exceeds a number also keeps ahead of everything that the number keeps ahead
    /// of: if `b > a` and `c` does not exceed `a`, then `c` does not exceed `b`.
    proof fn lemma_exceeds_chain(a: Self, b: Self, c: Self)
        requires
            b.exceeds_spec(a),
            !c.exceeds_spec(a),
        ensures
            !c.exceeds_spec(b),
    ;
}

/// Numbers that also have an exponential and a natural logarithm.
///
/// What the two functions may give is a relation that the number type names, not a
/// function: two calls on one number need not agree. What the library computes from
/// them is stated for every value that they may give.
pub trait Transcendental: Scalar {
    /// `r` is something that the exponential of `self` may be.
    spec fn exp_gives(self, r: Self) -> bool;

    /// `r` is something that the natural logarithm of `self` may be.
    spec fn ln_gives(self, r: Self) -> bool;

    fn exp(self) -> (r: Self)
        ensures
            self.exp_gives(r),
    ;

    fn ln(self) -> (r: Self)
        ensures
            self.ln_gives(r),
    ;

    /// Every number has an exponential.
    proof fn lemma_exp_gives_something(x: Self)
        ensures
            exists|r: Self| x.exp_gives(r),
    ;
}

/// Numbers whose sums do not depend on the order of the terms.
pub trait ExactSum: Scalar {
    proof fn lemma_plus_commutes(a: Self, b: Self)
        ensures
            a.plus_spec(b) == b.plus_spec(a),
    ;

    proof fn lemma_plus_associates(a: Self, b: Self, c: Self)
        ensures
            a.plus_spec(b).plus_spec(c) == a.plus_spec(b.plus_spec(c)),
    ;

    proof fn lemma_plus_zero(a: Self)
        ensures
            a.plus_spec(Self::zero_spec()) == a,
    ;
}

/// The size of a 64-bit integer, without its sign.
pub open spec fn magnitude(a: i64) -> int {
    if a < 0 {
        -a
    } else {
        a as int
    }
}

/// The quotient of two 64-bit integers, rounded towards zero; zero where the divisor is
/// zero, and the least integer where the quotient is too large.
pub open spec fn i64_over_spec(a: i64, b: i64) -> i64 {
    if b == 0 {
        0
    } else {
        let size = magnitude(a) / magnitude(b);
        if (a < 0) != (b < 0) {
            (-size) as i64
        } else if size > i64::MAX {
            i64::MIN
        } else {
            size as i64
        }
    }
}

/// 64-bit integers, with sums, differences and products that wrap around.
impl Scalar for i64 {
    open spec fn zero_spec() -> i64 {
        0
    }

    open spec fn one_spec() -> i64 {
        1
    }

    open spec fn count_spec(n: usize) -> i64 {
        n as i64
    }

    open spec fn plus_spec(self, rhs: i64) -> i64 {
        vstd::wrapping::i64_specs::wrapping_add(self, rhs)
    }

    open spec fn minus_spec(self, rhs: i64) -> i64 {
        vstd::wrapping::i64_specs::wrapping_sub(self, rhs)
    }

    open spec fn times_spec(self, rhs: i64) -> i64 {
        vstd::wrapping::i64_specs::wrapping_mul(self, rhs)
    }

    open spec fn over_spec(self, rhs: i64) -> i64 {
        i64_over_spec(self, rhs)
    }

    open spec fn exceeds_spec(self, rhs: i64) -> bool {
        self > rhs
    }

    open spec fn at_least_spec(self, rhs: i64) -> bool {
        self >= rhs
    }

    fn zero() -> (r: i64) {
        0
    }

    fn one() -> (r: i64) {
        1
    }

    fn count(n: usize) -> (r: i64) {
        #[verifier::truncate]
        (n as i64)
    }

    fn plus(self, rhs: i64) -> (r: i64) {
        self.wrapping_add(rhs)
    }

    fn minus(self, rhs: i64) -> (r: i64) {
        self.wrapping_sub(rhs)
    }

    fn times(self, rhs: i64) -> (r: i64) {
        self.wrapping_mul(rhs)
    }

    fn over(self, rhs: i64) -> (r: i64) {
        if rhs == 0 {
            return 0;
        }
        let top: u128 = if self < 0 {
            (-(self as i128)) as u128
        } else {
            self as u128
        };
        let bottom: u128 = if rhs < 0 {
            (-(rhs as i128)) as u128
        } else {
            rhs as u128
        };
        let size: u128 = top / bottom;
        assert(size <= top) by {
            vstd::arithmetic::div_mod::lemma_div_is_ordered_by_denominator(top as int, 1, bottom as int);
            vstd::arithmetic::div_mod::lemma_div_basics(top as int);
        }
        if (self < 0) != (rhs < 0) {
            (-(size as i128)) as i64
        } else if size > 0x7fff_ffff_ffff_ffff {
            i64::MIN
        } else {
            size as i64
        }
    }

    fn exceeds(self, rhs: i64) -> (b: bool) {
        self > rhs
    }

    fn at_least(self, rhs: i64) -> (b: bool) {
        self >= rhs
    }

    proof fn lemma_exceeds_irreflexive(a: i64) {
    }

    proof fn lemma_exceeds_chain(a: i64, b: i64, c: i64) {
    }
}

impl ExactSum for i64 {
    proof fn lemma_plus_commutes(a: i64, b: i64) {
    }

    proof fn lemma_plus_associates(a: i64, b: i64, c: i64) {
    }

    proof fn lemma_plus_zero(a: i64) {
    }
}

} // verus!
