//! The circuit: a number of qubits and the state vector they are in.

use crate::arithmetic::Arithmetic;
use crate::arithmetic::Coefficient;
use crate::basis::bit_is_set;
use crate::basis::clear_qubit;
use crate::basis::dimension;
use crate::basis::dimension_of;
use crate::basis::lemma_dimension_is_shift;
use crate::basis::lemma_other_qubit_unchanged;
use crate::basis::lemma_pair_in_range;
use crate::basis::lemma_pair_members;
use crate::basis::lemma_pairs_are_disjoint;
use crate::basis::qubit_is_one;
use crate::basis::set_qubit;
use crate::basis::with_bit_cleared;
use crate::basis::with_bit_set;
use crate::error::CircuitError;
use crate::gates::pair_transformed;
use crate::gates::transform_pair;
use crate::gates::QuantumGate;
use crate::semantics::accumulated;
use crate::semantics::collapsed;
use crate::semantics::controlled_gate_applied;
use crate::semantics::gate_applied;
use crate::semantics::is_ground_state;
use crate::semantics::measured;
use crate::semantics::normalization_checked;
use vstd::prelude::*;

verus! {

/// The tolerance of `verify_state`, in decimal places: a state counts as
/// normalized when the sum of its squared magnitudes differs from 1 by less
/// than `10^-10`.
pub const NORMALIZATION_DECIMALS: u32 = 10;

/// A register of qubits and its state vector: one amplitude per basis state.
#[derive(Debug)]
pub struct QuantumCircuit<A> {
    state: Vec<A>,
    n_qubits: usize,
}

/// A copy of `source`, element by element.
fn copy_of<A: Copy>(source: &Vec<A>) -> (copy: Vec<A>)
    ensures
        copy@ == source@,
{
    let mut copy: Vec<A> = Vec::new();
    let mut i: usize = 0;
    while i < source.len()
        invariant
            i <= source.len(),
            copy@ == source@.subrange(0, i as int),
        decreases source.len() - i,
    {
        copy.push(source[i]);
        i = i + 1;
    }
    copy
}

/// The state `|0...0>` of `len` amplitudes: one at index 0, zero elsewhere.
fn ground_state<K: Arithmetic>(len: usize, arith: &K) -> (state: Vec<K::Amplitude>)
    requires
        len >= 1,
    ensures
        state.len() == len,
        is_ground_state(arith, state@),
{
    let zero = arith.coefficient(Coefficient::Zero);
    let one = arith.coefficient(Coefficient::One);
    let mut state: Vec<K::Amplitude> = Vec::new();
    state.push(one);
    let mut i: usize = 1;
    while i < len
        invariant
            1 <= i <= len,
            state.len() == i,
            call_ensures(K::coefficient, (arith, Coefficient::One), state[0]),
            call_ensures(K::coefficient, (arith, Coefficient::Zero), zero),
            forall|j: int| 1 <= j < i ==> #[trigger] state[j] == zero,
        decreases len - i,
    {
        state.push(zero);
        i = i + 1;
    }
    state
}

impl<A> QuantumCircuit<A> {
    /// A circuit has at least one qubit and one amplitude for each of the
    /// `2^n` basis states.
    #[verifier::type_invariant]
    spec fn well_formed(&self) -> bool {
        &&& 1 <= self.n_qubits < usize::BITS
        &&& self.state.len() == dimension(self.n_qubits)
    }
}

impl<A: Copy> View for QuantumCircuit<A> {
    type V = Seq<A>;

    /// The state vector: the amplitude of each basis state, by index.
    closed spec fn view(&self) -> Seq<A> {
        self.state@
    }
}

impl<A: Copy> QuantumCircuit<A> {
    /// The number of qubits.
    pub closed spec fn qubits(&self) -> usize {
        self.n_qubits
    }

    /// A circuit of `n_qubits` qubits in the state `|0...0>`.
    ///
    /// A circuit has at least one qubit, and its `2^n_qubits` amplitudes are
    /// counted by a `usize`: `n_qubits` must be below the number of bits of one.
    pub fn new<K: Arithmetic<Amplitude = A>>(n_qubits: usize, arith: &K) -> (made: Result<
        Self,
        CircuitError,
    >)
        ensures
            match made {
                Ok(circuit) => {
                    &&& 1 <= n_qubits < usize::BITS
                    &&& circuit.qubits() == n_qubits
                    &&& circuit@.len() == dimension(n_qubits)
                    &&& is_ground_state(arith, circuit@)
                },
                Err(error) => {
                    &&& n_qubits == 0 || n_qubits >= usize::BITS
                    &&& error == CircuitError::InvalidQubitCount
                },
            },
    {
        if n_qubits == 0 || n_qubits >= usize::BITS as usize {
            return Err(CircuitError::InvalidQubitCount);
        }
        let len = dimension_of(n_qubits);
        let state = ground_state(len, arith);
        Ok(QuantumCircuit { state, n_qubits })
    }

    /// Applies `gate` to qubit `target`.
    pub fn apply_gate<G: QuantumGate<K::Real>, K: Arithmetic<Amplitude = A>>(
        &mut self,
        gate: G,
        target: usize,
        arith: &K,
    ) -> (done: Result<(), CircuitError>)
        ensures
            final(self).qubits() == old(self).qubits(),
            final(self)@.len() == old(self)@.len(),
            match done {
                Ok(()) => {
                    &&& target < old(self).qubits()
                    &&& gate_applied(arith, gate.spec_matrix(), target, old(self)@, final(self)@)
                },
                Err(error) => {
                    &&& target >= old(self).qubits()
                    &&& error == CircuitError::InvalidQubitIndex
                    &&& final(self)@ == old(self)@
                },
            },
    {
        proof {
            use_type_invariant(&*self);
        }
        if target >= self.n_qubits {
            return Err(CircuitError::InvalidQubitIndex);
        }
        let n = self.state.len();
        let matrix = gate.matrix();
        let mut new_state = copy_of(&self.state);
        let mut i: usize = 0;
        while i < n
            invariant
                i <= n,
                n == self.state.len(),
                n == dimension(self.n_qubits),
                self.n_qubits < usize::BITS,
                target < self.n_qubits,
                new_state.len() == n,
                matrix == gate.spec_matrix(),
                forall|j: usize|
                    #![trigger bit_is_set(j, target)]
                    j < i && !bit_is_set(j, target) ==> pair_transformed(
                        arith,
                        matrix,
                        self.state[j as int],
                        self.state[with_bit_set(j, target) as int],
                        new_state[j as int],
                        new_state[with_bit_set(j, target) as int],
                    ),
            decreases n - i,
        {
            if !qubit_is_one(i, target) {
                let i1 = set_qubit(i, target);
                proof {
                    lemma_pair_in_range(i, target, self.n_qubits);
                    lemma_pair_members(i, target);
                }
                let b = transform_pair(&matrix, self.state[i], self.state[i1], arith);
                let ghost earlier = new_state@;
                new_state.set(i, b.0);
                new_state.set(i1, b.1);
                proof {
                    assert forall|j: usize|
                        #![trigger bit_is_set(j, target)]
                        j < i + 1 && !bit_is_set(j, target) implies pair_transformed(
                        arith,
                        matrix,
                        self.state[j as int],
                        self.state[with_bit_set(j, target) as int],
                        new_state[j as int],
                        new_state[with_bit_set(j, target) as int],
                    ) by {
                        if j != i {
                            lemma_pair_members(j, target);
                            lemma_pairs_are_disjoint(j, i, target);
                            lemma_pair_in_range(j, target, self.n_qubits);
                            assert(new_state[j as int] == earlier[j as int]);
                            assert(new_state[with_bit_set(j, target) as int] == earlier[with_bit_set(
                                j,
                                target,
                            ) as int]);
                        }
                    }
                }
            }
            i = i + 1;
        }
        self.state = new_state;
        Ok(())
    }

    /// Applies `gate` to qubit `target` in the part of the state where qubit
    /// `control` is 1.
    pub fn apply_controlled_gate<G: QuantumGate<K::Real>, K: Arithmetic<Amplitude = A>>(
        &mut self,
        gate: G,
        control: usize,
        target: usize,
        arith: &K,
    ) -> (done: Result<(), CircuitError>)
        ensures
            final(self).qubits() == old(self).qubits(),
            final(self)@.len() == old(self)@.len(),
            match done {
                Ok(()) => {
                    &&& control < old(self).qubits()
                    &&& target < old(self).qubits()
                    &&& control != target
                    &&& controlled_gate_applied(
                        arith,
                        gate.spec_matrix(),
                        control,
                        target,
                        old(self)@,
                        final(self)@,
                    )
                },
                Err(error) => {
                    &&& final(self)@ == old(self)@
                    &&& if control >= old(self).qubits() || target >= old(self).qubits() {
                        error == CircuitError::InvalidQubitIndex
                    } else {
                        control == target && error == CircuitError::ControlEqualsTarget
                    }
                },
            },
    {
        proof {
            use_type_invariant(&*self);
        }
        if control >= self.n_qubits || target >= self.n_qubits {
            return Err(CircuitError::InvalidQubitIndex);
        }
        if control == target {
            return Err(CircuitError::ControlEqualsTarget);
        }
        let n = self.state.len();
        let matrix = gate.matrix();
        let mut new_state = copy_of(&self.state);
        let mut i: usize = 0;
        while i < n
            invariant
                i <= n,
                n == self.state.len(),
                n == dimension(self.n_qubits),
                self.n_qubits < usize::BITS,
                target < self.n_qubits,
                control < self.n_qubits,
                control != target,
                new_state.len() == n,
                matrix == gate.spec_matrix(),
                forall|j: usize|
                    #![trigger bit_is_set(j, control)]
                    j < n && !bit_is_set(j, control) ==> new_state[j as int] == self.state[j as int],
                forall|j: usize|
                    #![trigger bit_is_set(j, control)]
                    j < i && bit_is_set(j, control) ==> pair_transformed(
                        arith,
                        matrix,
                        self.state[with_bit_cleared(j, target) as int],
                        self.state[with_bit_set(j, target) as int],
                        new_state[with_bit_cleared(j, target) as int],
                        new_state[with_bit_set(j, target) as int],
                    ),
            decreases n - i,
        {
            if qubit_is_one(i, control) {
                let low = clear_qubit(i, target);
                let high = set_qubit(i, target);
                proof {
                    lemma_pair_in_range(i, target, self.n_qubits);
                    lemma_pair_members(i, target);
                    lemma_other_qubit_unchanged(i, target, control);
                }
                let b = transform_pair(&matrix, self.state[low], self.state[high], arith);
                let ghost earlier = new_state@;
                new_state.set(low, b.0);
                new_state.set(high, b.1);
                proof {
                    assert forall|j: usize|
                        #![trigger bit_is_set(j, control)]
                        j < i + 1 && bit_is_set(j, control) implies pair_transformed(
                        arith,
                        matrix,
                        self.state[with_bit_cleared(j, target) as int],
                        self.state[with_bit_set(j, target) as int],
                        new_state[with_bit_cleared(j, target) as int],
                        new_state[with_bit_set(j, target) as int],
                    ) by {
                        lemma_pair_members(j, target);
                        lemma_pair_in_range(j, target, self.n_qubits);
                        if with_bit_cleared(j, target) != low {
                            lemma_pairs_are_disjoint(j, i, target);
                            lemma_pairs_are_disjoint(i, j, target);
                            assert(new_state[with_bit_cleared(j, target) as int] == earlier[with_bit_cleared(
                                j,
                                target,
                            ) as int]);
                            assert(new_state[with_bit_set(j, target) as int] == earlier[with_bit_set(
                                j,
                                target,
                            ) as int]);
                        }
                    }
                }
            }
            i = i + 1;
        }
        proof {
            assert forall|j: usize|
                #![trigger bit_is_set(j, control)]
                j < n && bit_is_set(j, control) && !bit_is_set(j, target) implies pair_transformed(
                arith,
                matrix,
                self.state[j as int],
                self.state[with_bit_set(j, target) as int],
                new_state[j as int],
                new_state[with_bit_set(j, target) as int],
            ) by {
                lemma_pair_members(j, target);
            }
        }
        self.state = new_state;
        Ok(())
    }

    /// The sum of `|a|^2` over the counted amplitudes, added in index order.
    fn weight<K: Arithmetic<Amplitude = A>>(&self, qubit: Option<usize>, arith: &K) -> (total:
        K::Real)
        requires
            qubit matches Some(q) ==> q < usize::BITS,
        ensures
            accumulated(arith, self@, qubit, self@.len(), total),
    {
        let n = self.state.len();
        let mut total = arith.zero();
        let mut i: usize = 0;
        while i < n
            invariant
                i <= n,
                n == self.state.len(),
                qubit matches Some(q) ==> q < usize::BITS,
                accumulated(arith, self.state@, qubit, i as nat, total),
            decreases n - i,
        {
            let take = match qubit {
                Some(q) => qubit_is_one(i, q),
                None => true,
            };
            if take {
                let weight = arith.norm_sqr(self.state[i]);
                let ghost earlier = total;
                total = arith.sum(total, weight);
                assert(accumulated(arith, self.state@, qubit, i as nat, earlier));
                assert(call_ensures(K::sum, (arith, earlier, weight), total));
            }
            i = i + 1;
        }
        total
    }

    /// The probability of finding qubit `target` to be 1: the sum of `|a|^2`
    /// over the basis states in which the qubit is 1.
    pub fn probability_of_one<K: Arithmetic<Amplitude = A>>(&self, target: usize, arith: &K) -> (
        result: Result<K::Real, CircuitError>)
        ensures
            match result {
                Ok(prob_one) => {
                    &&& target < self.qubits()
                    &&& accumulated(arith, self@, Some(target), self@.len(), prob_one)
                },
                Err(error) => target >= self.qubits() && error == CircuitError::InvalidQubitIndex,
            },
    {
        proof {
            use_type_invariant(self);
        }
        if target >= self.n_qubits {
            return Err(CircuitError::InvalidQubitIndex);
        }
        Ok(self.weight(Some(target), arith))
    }

    /// Replaces the state by its collapse onto the outcome `outcome` of qubit
    /// `target`, which is one of the qubits.
    fn collapse_onto<K: Arithmetic<Amplitude = A>>(
        &mut self,
        target: usize,
        outcome: bool,
        norm: K::Real,
        arith: &K,
    )
        requires
            target < old(self).qubits(),
        ensures
            final(self).qubits() == old(self).qubits(),
            collapsed(arith, target, outcome, norm, old(self)@, final(self)@),
    {
        proof {
            use_type_invariant(&*self);
        }
        let n = self.state.len();
        let zero = arith.coefficient(Coefficient::Zero);
        let mut new_state: Vec<A> = Vec::new();
        let mut i: usize = 0;
        while i < n
            invariant
                i <= n,
                n == self.state.len(),
                target < usize::BITS,
                new_state.len() == i,
                call_ensures(K::coefficient, (arith, Coefficient::Zero), zero),
                forall|j: usize|
                    #![trigger bit_is_set(j, target)]
                    j < i ==> if bit_is_set(j, target) == outcome {
                        call_ensures(
                            K::scaled_down,
                            (arith, self.state[j as int], norm),
                            new_state[j as int],
                        )
                    } else {
                        call_ensures(K::coefficient, (arith, Coefficient::Zero), new_state[j as int])
                    },
            decreases n - i,
        {
            if qubit_is_one(i, target) == outcome {
                let scaled = arith.scaled_down(self.state[i], norm);
                new_state.push(scaled);
            } else {
                new_state.push(zero);
            }
            i = i + 1;
        }
        self.state = new_state;
    }

    /// Collapses the state onto the outcome `outcome` of qubit `target`: the
    /// amplitudes that agree with the outcome are divided by `norm`, the others
    /// become zero.
    ///
    /// This is the second half of a measurement, for a caller that has chosen
    /// the outcome itself. The state stays normalized where `norm` is the square
    /// root of the probability of `outcome`.
    pub fn collapse<K: Arithmetic<Amplitude = A>>(
        &mut self,
        target: usize,
        outcome: bool,
        norm: K::Real,
        arith: &K,
    ) -> (done: Result<(), CircuitError>)
        ensures
            final(self).qubits() == old(self).qubits(),
            final(self)@.len() == old(self)@.len(),
            match done {
                Ok(()) => {
                    &&& target < old(self).qubits()
                    &&& collapsed(arith, target, outcome, norm, old(self)@, final(self)@)
                },
                Err(error) => {
                    &&& target >= old(self).qubits()
                    &&& error == CircuitError::InvalidQubitIndex
                    &&& final(self)@ == old(self)@
                },
            },
    {
        if target >= self.n_qubits {
            return Err(CircuitError::InvalidQubitIndex);
        }
        self.collapse_onto(target, outcome, norm, arith);
        Ok(())
    }

    /// Measures qubit `target` and collapses the state onto the outcome.
    ///
    /// `draw` is the caller's uniform sample from `[0, 1)`; the outcome is 1
    /// (`true`) exactly when `draw` is less than the probability of 1.
    pub fn measure<K: Arithmetic<Amplitude = A>>(
        &mut self,
        target: usize,
        draw: K::Real,
        arith: &K,
    ) -> (result: Result<bool, CircuitError>)
        ensures
            final(self).qubits() == old(self).qubits(),
            final(self)@.len() == old(self)@.len(),
            if target >= old(self).qubits() {
                result == Err::<bool, CircuitError>(CircuitError::InvalidQubitIndex) && final(self)@
                    == old(self)@
            } else {
                measured(arith, target, draw, old(self)@, final(self)@, result)
            },
    {
        proof {
            use_type_invariant(&*self);
        }
        if target >= self.n_qubits {
            return Err(CircuitError::InvalidQubitIndex);
        }
        let prob_one = self.weight(Some(target), arith);
        let outcome = arith.less_than(draw, prob_one);
        let kept = if outcome {
            prob_one
        } else {
            arith.complement(prob_one)
        };
        let degenerate = arith.is_zero(kept);
        if degenerate {
            assert(call_ensures(K::less_than, (arith, draw, prob_one), outcome));
            assert(call_ensures(K::is_zero, (arith, kept), degenerate));
            return Err(CircuitError::DegenerateMeasurement);
        }
        let norm = arith.sqrt(kept);
        self.collapse_onto(target, outcome, norm, arith);
        assert(call_ensures(K::less_than, (arith, draw, prob_one), outcome));
        assert(call_ensures(K::is_zero, (arith, kept), degenerate));
        assert(call_ensures(K::sqrt, (arith, kept), norm));
        Ok(outcome)
    }

    /// The state vector: `2^n` amplitudes, by basis index.
    pub fn get_state(&self) -> (state: &Vec<A>)
        ensures
            state@ == self@,
            state.len() == dimension(self.qubits()),
    {
        proof {
            use_type_invariant(self);
        }
        &self.state
    }

    /// The probability of finding the register in the basis state
    /// `basis_state`: the squared magnitude of its amplitude.
    pub fn get_probability<K: Arithmetic<Amplitude = A>>(&self, basis_state: usize, arith: &K) -> (
        result: Result<K::Real, CircuitError>)
        ensures
            match result {
                Ok(p) => {
                    &&& basis_state < self@.len()
                    &&& call_ensures(K::norm_sqr, (arith, self@[basis_state as int]), p)
                },
                Err(error) => basis_state >= self@.len() && error
                    == CircuitError::InvalidBasisIndex,
            },
    {
        if basis_state >= self.state.len() {
            return Err(CircuitError::InvalidBasisIndex);
        }
        Ok(arith.norm_sqr(self.state[basis_state]))
    }

    /// Whether the state is normalized: whether the sum of all `|a|^2` is
    /// within `10^-10` of 1.
    pub fn verify_state<K: Arithmetic<Amplitude = A>>(&self, arith: &K) -> (normalized: bool)
        ensures
            normalization_checked(arith, self@, NORMALIZATION_DECIMALS, normalized),
    {
        let total = self.weight(None, arith);
        arith.near_one(total, NORMALIZATION_DECIMALS)
    }

    /// The number of qubits: at least one, and fixed when the circuit is made.
    pub fn n_qubits(&self) -> (n: usize)
        ensures
            n == self.qubits(),
            1 <= n < usize::BITS,
    {
        proof {
            use_type_invariant(self);
        }
        self.n_qubits
    }

    /// Puts the circuit back into the state `|0...0>`.
    pub fn reset<K: Arithmetic<Amplitude = A>>(&mut self, arith: &K)
        ensures
            final(self).qubits() == old(self).qubits(),
            final(self)@.len() == old(self)@.len(),
            is_ground_state(arith, final(self)@),
    {
        proof {
            use_type_invariant(&*self);
            lemma_dimension_is_shift(self.n_qubits);
        }
        self.state = ground_state(self.state.len(), arith);
    }
}

} // verus!
