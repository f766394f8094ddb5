//! The number type of a simulation, as the caller supplies it.

use vstd::prelude::*;

verus! {

/// An entry of a gate's matrix, written exactly.
///
/// The gates of this crate need only these eleven complex numbers. `R` is the
/// type of an angle in radians.
#[derive(Debug, PartialEq)]
pub enum Coefficient<R> {
    /// `0`
    Zero,
    /// `1`
    One,
    /// `-1`
    MinusOne,
    /// The imaginary unit `i`.
    I,
    /// `-i`
    MinusI,
    /// `1/sqrt(2)`
    InvSqrt2,
    /// `-1/sqrt(2)`
    MinusInvSqrt2,
    /// `e^(i*pi/4)`, that is `cos(pi/4) + i*sin(pi/4)`.
    ExpIPi4,
    /// `cos(theta)`
    Cos(R),
    /// `sin(theta)`
    Sin(R),
    /// `-sin(theta)`
    MinusSin(R),
}

impl<R: Copy> Clone for Coefficient<R> {
    fn clone(&self) -> (copy: Self)
        ensures
            copy == *self,
    {
        *self
    }
}

impl<R: Copy> Copy for Coefficient<R> {

}

/// The numbers of a simulation: complex amplitudes, real probabilities, and the
/// operations that the circuit performs on them.
///
/// The methods carry no contract, so nothing is believed of an implementation.
/// Every contract in this crate that speaks of a computed amplitude or
/// probability says which method produced it, and from which arguments; the
/// comments below say what an implementation is meant to compute.
pub trait Arithmetic {
    /// A complex amplitude.
    type Amplitude: Copy;

    /// A real number: a probability, a norm, an angle.
    type Real: Copy;

    /// The amplitude that `entry` denotes.
    fn coefficient(&self, entry: Coefficient<Self::Real>) -> Self::Amplitude;

    /// The product `a * b`.
    fn times(&self, a: Self::Amplitude, b: Self::Amplitude) -> Self::Amplitude;

    /// The sum `a + b`.
    fn plus(&self, a: Self::Amplitude, b: Self::Amplitude) -> Self::Amplitude;

    /// The squared magnitude `|a|^2`.
    fn norm_sqr(&self, a: Self::Amplitude) -> Self::Real;

    /// The quotient `a / norm`, for a real `norm`.
    fn scaled_down(&self, a: Self::Amplitude, norm: Self::Real) -> Self::Amplitude;

    /// The real number `0`.
    fn zero(&self) -> Self::Real;

    /// The sum `p + q`.
    fn sum(&self, p: Self::Real, q: Self::Real) -> Self::Real;

    /// The complement `1 - p` of a probability.
    fn complement(&self, p: Self::Real) -> Self::Real;

    /// The square root of `p`.
    fn sqrt(&self, p: Self::Real) -> Self::Real;

    /// Whether `x < y`.
    fn less_than(&self, x: Self::Real, y: Self::Real) -> bool;

    /// Whether `p` is exactly `0`.
    fn is_zero(&self, p: Self::Real) -> bool;

    /// Whether `p` is within `10^(-decimals)` of `1`: `|p - 1| < 10^(-decimals)`.
    fn near_one(&self, p: Self::Real, decimals: u32) -> bool;
}

} // verus!
