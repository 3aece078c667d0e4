//! The scalar type of a forest.
use vstd::prelude::*;

verus! {

/// A floating-point scalar: the coordinates of points. Bounds are compared,
/// and path lengths and scores computed, in its wide scalar `Wide`, which
/// for the floats is double precision whatever the coordinates are.
///
/// Nothing here is verified. An implementor supplies the arithmetic of its
/// number format and, for each operation, the spec function that stands for
/// its result; the contracts below only say that an operation returns what
/// its spec function names, that is, that equal arguments give equal results.
/// The two draws are the exception: they name nothing, since they depend on
/// the generator, and say only what holds of every draw.
pub trait ForestFloat: Copy + Sized {
    /// The scalar in which bounds over `Self` are compared and path lengths
    /// and scores computed. The forest asks that it is a scalar as well.
    type Wide;

    /// The value in the wide scalar.
    spec fn widen_spec(self) -> Self::Wide;

    /// Converts to the wide scalar.
    fn widen(self) -> (r: Self::Wide)
        ensures
            r == self.widen_spec(),
    ;

    /// The scalar nearest to the integer `n`.
    spec fn from_u64_spec(n: u64) -> Self;

    /// The rounded sum.
    spec fn add_spec(self, rhs: Self) -> Self;

    /// The rounded difference.
    spec fn sub_spec(self, rhs: Self) -> Self;

    /// The rounded product.
    spec fn mul_spec(self, rhs: Self) -> Self;

    /// The rounded quotient.
    spec fn div_spec(self, rhs: Self) -> Self;

    /// The value with its sign flipped.
    spec fn neg_spec(self) -> Self;

    /// The absolute value.
    spec fn abs_spec(self) -> Self;

    /// The natural logarithm.
    spec fn ln_spec(self) -> Self;

    /// `self` raised to the power `exp`.
    spec fn powf_spec(self, exp: Self) -> Self;

    /// Whether `self < rhs`; false when either is not a number.
    spec fn lt_spec(self, rhs: Self) -> bool;

    /// Whether `self <= rhs`; false when either is not a number.
    spec fn le_spec(self, rhs: Self) -> bool;

    /// Whether `self` is neither infinite nor not-a-number.
    spec fn is_finite_spec(self) -> bool;

    /// Converts an integer, rounding to the nearest scalar.
    fn from_u64(n: u64) -> (r: Self)
        ensures
            r == Self::from_u64_spec(n),
    ;

    /// `self + rhs`.
    fn add(self, rhs: Self) -> (r: Self)
        ensures
            r == self.add_spec(rhs),
    ;

    /// `self - rhs`.
    fn sub(self, rhs: Self) -> (r: Self)
        ensures
            r == self.sub_spec(rhs),
    ;

    /// `self * rhs`.
    fn mul(self, rhs: Self) -> (r: Self)
        ensures
            r == self.mul_spec(rhs),
    ;

    /// `self / rhs`.
    fn div(self, rhs: Self) -> (r: Self)
        ensures
            r == self.div_spec(rhs),
    ;

    /// `-self`.
    fn neg(self) -> (r: Self)
        ensures
            r == self.neg_spec(),
    ;

    /// `|self|`.
    fn abs(self) -> (r: Self)
        ensures
            r == self.abs_spec(),
    ;

    /// The natural logarithm of `self`.
    fn ln(self) -> (r: Self)
        ensures
            r == self.ln_spec(),
    ;

    /// `self` raised to the power `exp`.
    fn powf(self, exp: Self) -> (r: Self)
        ensures
            r == self.powf_spec(exp),
    ;

    /// `self < rhs`.
    fn lt(self, rhs: Self) -> (r: bool)
        ensures
            r == self.lt_spec(rhs),
    ;

    /// `self <= rhs`.
    fn le(self, rhs: Self) -> (r: bool)
        ensures
            r == self.le_spec(rhs),
    ;

    /// Whether `self` is a finite number.
    fn is_finite(self) -> (r: bool)
        ensures
            r == self.is_finite_spec(),
    ;

    /// Draws uniformly from the half-open range `[lo, hi)`.
    ///
    /// The range must be proper and its width finite: samplers reject
    /// anything else. The draw lies in the range. On a range that is narrow
    /// against the size of its bounds a sampler may take very long to set
    /// up, though it ends: the forest draws only between bounds that differ
    /// by more than its tolerance.
    fn sample_uniform(rng: &mut rand::rngs::ThreadRng, lo: Self, hi: Self) -> (r: Self)
        requires
            lo.lt_spec(hi),
            hi.sub_spec(lo).is_finite_spec(),
        ensures
            lo.le_spec(r),
            r.lt_spec(hi),
    ;

    /// Draws from the standard normal distribution. The draw is a finite
    /// number: samplers build it from bounded table entries and logarithms
    /// of values strictly between zero and one.
    fn sample_standard_normal(rng: &mut rand::rngs::ThreadRng) -> (r: Self)
        ensures
            r.is_finite_spec(),
    ;
}

/// Zero, as a scalar.
pub open spec fn zero_spec<T: ForestFloat>() -> T {
    T::from_u64_spec(0)
}

/// One, as a scalar.
pub open spec fn one_spec<T: ForestFloat>() -> T {
    T::from_u64_spec(1)
}

/// Two, as a scalar.
pub open spec fn two_spec<T: ForestFloat>() -> T {
    T::from_u64_spec(2)
}

} // verus!
