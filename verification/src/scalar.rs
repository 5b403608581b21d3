//! The numbers that coordinates and pixel values are made of.
//!
//! Geometry, integration and display are written once, over [`Scalar`], as
//! sequences of elementary operations. The graphical shell runs them on the
//! machine's single-precision numbers; [`crate::fixed::Fixed`] runs them on
//! fixed-point integers, and for it every operation is verified here.

use vstd::prelude::*;

use crate::samples::Sample;

verus! {

/// A number with the elementary operations that the library needs.
///
/// Every operation comes with a specification function that says which value
/// it yields. All that is asked of an implementation is that its operations
/// are functions of their operands: no law of arithmetic is taken for granted,
/// so rounding, signed zeros and values that are not numbers are all allowed.
pub trait Scalar: Copy + Sized {
    spec fn of_count_spec(n: usize) -> Self;

    spec fn of_sample_spec(sample: Sample) -> Self;

    spec fn lowest_spec() -> Self;

    spec fn highest_spec() -> Self;

    spec fn hairline_spec() -> Self;

    spec fn plus_spec(self, rhs: Self) -> Self;

    spec fn minus_spec(self, rhs: Self) -> Self;

    spec fn times_spec(self, rhs: Self) -> Self;

    spec fn over_spec(self, rhs: Self) -> Self;

    spec fn smaller_spec(self, rhs: Self) -> Self;

    spec fn larger_spec(self, rhs: Self) -> Self;

    spec fn hypot_spec(self, rhs: Self) -> Self;

    spec fn squared_spec(self) -> Self;

    spec fn root_spec(self) -> Self;

    spec fn magnitude_spec(self) -> Self;

    spec fn floor_spec(self) -> Self;

    spec fn ceil_spec(self) -> Self;

    spec fn round_spec(self) -> Self;

    spec fn clamped_spec(self, lo: Self, hi: Self) -> Self;

    spec fn at_most_spec(self, rhs: Self) -> bool;

    spec fn below_spec(self, rhs: Self) -> bool;

    spec fn finite_spec(self) -> bool;

    spec fn truncated_spec(self) -> i64;

    /// The number nearest to the count `n`.
    fn of_count(n: usize) -> (r: Self)
        ensures
            r == Self::of_count_spec(n),
    ;

    /// The number nearest to a pixel value of an image file.
    fn of_sample(sample: Sample) -> (r: Self)
        ensures
            r == Self::of_sample_spec(sample),
    ;

    /// The number below all others, from which a maximum is started.
    fn lowest() -> (r: Self)
        ensures
            r == Self::lowest_spec(),
    ;

    /// The number above all others, from which a minimum is started.
    fn highest() -> (r: Self)
        ensures
            r == Self::highest_spec(),
    ;

    /// The least width of a contrast range.
    fn hairline() -> (r: Self)
        ensures
            r == Self::hairline_spec(),
    ;

    fn plus(self, rhs: Self) -> (r: Self)
        ensures
            r == self.plus_spec(rhs),
    ;

    fn minus(self, rhs: Self) -> (r: Self)
        ensures
            r == self.minus_spec(rhs),
    ;

    fn times(self, rhs: Self) -> (r: Self)
        ensures
            r == self.times_spec(rhs),
    ;

    fn over(self, rhs: Self) -> (r: Self)
        ensures
            r == self.over_spec(rhs),
    ;

    /// The smaller of two numbers.
    fn smaller(self, rhs: Self) -> (r: Self)
        ensures
            r == self.smaller_spec(rhs),
    ;

    /// The larger of two numbers.
    fn larger(self, rhs: Self) -> (r: Self)
        ensures
            r == self.larger_spec(rhs),
    ;

    /// The length of the vector with the two numbers as its components.
    fn hypot(self, rhs: Self) -> (r: Self)
        ensures
            r == self.hypot_spec(rhs),
    ;

    fn squared(self) -> (r: Self)
        ensures
            r == self.squared_spec(),
    ;

    /// The square root.
    fn root(self) -> (r: Self)
        ensures
            r == self.root_spec(),
    ;

    /// The absolute value.
    fn magnitude(self) -> (r: Self)
        ensures
            r == self.magnitude_spec(),
    ;

    fn floor(self) -> (r: Self)
        ensures
            r == self.floor_spec(),
    ;

    fn ceil(self) -> (r: Self)
        ensures
            r == self.ceil_spec(),
    ;

    /// The nearest whole number, halves away from zero.
    fn round(self) -> (r: Self)
        ensures
            r == self.round_spec(),
    ;

    /// The number moved into the range from `lo` to `hi`.
    fn clamped(self, lo: Self, hi: Self) -> (r: Self)
        ensures
            r == self.clamped_spec(lo, hi),
    ;

    fn at_most(self, rhs: Self) -> (r: bool)
        ensures
            r == self.at_most_spec(rhs),
    ;

    fn below(self, rhs: Self) -> (r: bool)
        ensures
            r == self.below_spec(rhs),
    ;

    fn finite(self) -> (r: bool)
        ensures
            r == self.finite_spec(),
    ;

    /// The whole part, held at the ends of the range of `i64`.
    fn truncated(self) -> (r: i64)
        ensures
            r == self.truncated_spec(),
    ;
}

/// The quotient of two counts.
pub open spec fn ratio_spec<S: Scalar>(n: usize, d: usize) -> S {
    S::of_count_spec(n).over_spec(S::of_count_spec(d))
}

/// The quotient of two counts.
pub fn ratio<S: Scalar>(n: usize, d: usize) -> (r: S)
    ensures
        r == ratio_spec::<S>(n, d),
{
    S::of_count(n).over(S::of_count(d))
}

/// One half.
pub open spec fn half_spec<S: Scalar>() -> S {
    ratio_spec::<S>(1, 2)
}

/// One half.
pub fn half<S: Scalar>() -> (r: S)
    ensures
        r == half_spec::<S>(),
{
    ratio::<S>(1, 2)
}

} // verus!
