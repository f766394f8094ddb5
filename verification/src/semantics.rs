//! What each operation of a circuit does to the state vector, as predicates
//! over the state before and after it.
//!
//! A computed amplitude is described by the calls that produced it: the
//! predicates say which method of the arithmetic was called, and on which
//! amplitudes of the earlier state.

use crate::arithmetic::Arithmetic;
use crate::arithmetic::Coefficient;
use crate::basis::bit_is_set;
use crate::basis::with_bit_set;
use crate::error::CircuitError;
use crate::gates::pair_transformed;
use crate::gates::GateMatrix;
use vstd::prelude::*;

verus! {

/// `state` is `|0...0>`: amplitude one at index 0 and zero everywhere else.
pub open spec fn is_ground_state<K: Arithmetic>(arith: &K, state: Seq<K::Amplitude>) -> bool {
    &&& state.len() >= 1
    &&& call_ensures(K::coefficient, (arith, Coefficient::One), state[0])
    &&& forall|i: int|
        1 <= i < state.len() ==> call_ensures(
            K::coefficient,
            (arith, Coefficient::Zero),
            #[trigger] state[i],
        )
}

/// `after` is `before` with `matrix` applied to qubit `target`: every pair of
/// amplitudes whose indices differ only in bit `target` is the product of
/// `matrix` with the pair that stood at the same two indices before.
///
/// Every index is in exactly one such pair, so this describes all of `after`.
pub open spec fn gate_applied<K: Arithmetic>(
    arith: &K,
    matrix: GateMatrix<K::Real>,
    target: usize,
    before: Seq<K::Amplitude>,
    after: Seq<K::Amplitude>,
) -> bool {
    &&& after.len() == before.len()
    &&& forall|i: usize|
        #![trigger bit_is_set(i, target)]
        i < before.len() && !bit_is_set(i, target) ==> pair_transformed(
            arith,
            matrix,
            before[i as int],
            before[with_bit_set(i, target) as int],
            after[i as int],
            after[with_bit_set(i, target) as int],
        )
}

/// `after` is `before` with `matrix` applied to qubit `target` wherever qubit
/// `control` is 1: the amplitudes at indices with the control bit clear are the
/// same as before, and every pair with the control bit set is the product of
/// `matrix` with the pair that stood there before.
pub open spec fn controlled_gate_applied<K: Arithmetic>(
    arith: &K,
    matrix: GateMatrix<K::Real>,
    control: usize,
    target: usize,
    before: Seq<K::Amplitude>,
    after: Seq<K::Amplitude>,
) -> bool {
    &&& after.len() == before.len()
    &&& forall|i: usize|
        #![trigger bit_is_set(i, control)]
        i < before.len() && !bit_is_set(i, control) ==> after[i as int] == before[i as int]
    &&& forall|i: usize|
        #![trigger bit_is_set(i, control)]
        i < before.len() && bit_is_set(i, control) && !bit_is_set(i, target) ==> pair_transformed(
            arith,
            matrix,
            before[i as int],
            before[with_bit_set(i, target) as int],
            after[i as int],
            after[with_bit_set(i, target) as int],
        )
}

/// Whether the amplitude at `index` enters a sum of squared magnitudes: every
/// amplitude where `qubit` is `None`, and for `Some(q)` those of the basis
/// states in which qubit `q` is 1.
pub open spec fn counted(index: usize, qubit: Option<usize>) -> bool {
    match qubit {
        Some(q) => bit_is_set(index, q),
        None => true,
    }
}

/// `total` is a value that `arith` can give for the sum of `|state[i]|^2` over
/// the counted indices `i` below `upto`: starting from zero, the squared
/// magnitudes are added one by one, in the order of the indices.
pub open spec fn accumulated<K: Arithmetic>(
    arith: &K,
    state: Seq<K::Amplitude>,
    qubit: Option<usize>,
    upto: nat,
    total: K::Real,
) -> bool
    decreases upto,
{
    if upto == 0 {
        call_ensures(K::zero, (arith,), total)
    } else if counted((upto - 1) as usize, qubit) {
        exists|earlier: K::Real, weight: K::Real|
            #![trigger call_ensures(K::sum, (arith, earlier, weight), total)]
            {
                &&& accumulated(arith, state, qubit, (upto - 1) as nat, earlier)
                &&& call_ensures(K::norm_sqr, (arith, state[upto - 1]), weight)
                &&& call_ensures(K::sum, (arith, earlier, weight), total)
            }
    } else {
        accumulated(arith, state, qubit, (upto - 1) as nat, total)
    }
}

/// `after` is `before` collapsed onto the outcome `outcome` of qubit `target`:
/// the amplitudes of the basis states that agree with the outcome are divided
/// by `norm`, and all the others are zero.
pub open spec fn collapsed<K: Arithmetic>(
    arith: &K,
    target: usize,
    outcome: bool,
    norm: K::Real,
    before: Seq<K::Amplitude>,
    after: Seq<K::Amplitude>,
) -> bool {
    &&& after.len() == before.len()
    &&& forall|i: usize|
        #![trigger bit_is_set(i, target)]
        i < before.len() ==> if bit_is_set(i, target) == outcome {
            call_ensures(K::scaled_down, (arith, before[i as int], norm), after[i as int])
        } else {
            call_ensures(K::coefficient, (arith, Coefficient::Zero), after[i as int])
        }
}

/// What a measurement of qubit `target` with the uniform sample `draw` does.
///
/// `prob_one` is the probability of the outcome 1: the sum of `|a|^2` over the basis
/// states in which the qubit is 1. The outcome is 1 exactly when `draw < prob_one`.
/// The probability of that outcome is `kept`: `prob_one` for the outcome 1 and
/// `1 - prob_one` for the outcome 0. Where `kept` is zero the measurement is
/// degenerate and the state stays as it was; otherwise the state is collapsed
/// onto the outcome with the norm `sqrt(kept)`.
pub open spec fn measured<K: Arithmetic>(
    arith: &K,
    target: usize,
    draw: K::Real,
    before: Seq<K::Amplitude>,
    after: Seq<K::Amplitude>,
    result: Result<bool, CircuitError>,
) -> bool {
    exists|prob_one: K::Real, outcome: bool, kept: K::Real, degenerate: bool|
        #![trigger call_ensures(K::less_than, (arith, draw, prob_one), outcome), call_ensures(K::is_zero, (arith, kept), degenerate)]
        {
            &&& accumulated(arith, before, Some(target), before.len(), prob_one)
            &&& call_ensures(K::less_than, (arith, draw, prob_one), outcome)
            &&& if outcome {
                kept == prob_one
            } else {
                call_ensures(K::complement, (arith, prob_one), kept)
            }
            &&& call_ensures(K::is_zero, (arith, kept), degenerate)
            &&& if degenerate {
                result == Err::<bool, CircuitError>(CircuitError::DegenerateMeasurement) && after
                    == before
            } else {
                &&& result == Ok::<bool, CircuitError>(outcome)
                &&& exists|norm: K::Real|
                    #![trigger call_ensures(K::sqrt, (arith, kept), norm)]
                    call_ensures(K::sqrt, (arith, kept), norm) && collapsed(
                        arith,
                        target,
                        outcome,
                        norm,
                        before,
                        after,
                    )
            }
        }
}

/// `verdict` is what `arith` can answer to: is the sum of all `|state[i]|^2`
/// within `10^(-decimals)` of 1?
pub open spec fn normalization_checked<K: Arithmetic>(
    arith: &K,
    state: Seq<K::Amplitude>,
    decimals: u32,
    verdict: bool,
) -> bool {
    exists|total: K::Real|
        #![trigger call_ensures(K::near_one, (arith, total, decimals), verdict)]
        accumulated(arith, state, None, state.len(), total) && call_ensures(
            K::near_one,
            (arith, total, decimals),
            verdict,
        )
}

} // verus!
