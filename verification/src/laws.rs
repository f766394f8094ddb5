//! Laws of the circuit operations.
//!
//! Each law is stated over the state vector before and after the operations it
//! speaks of, with the predicates that the operations' own contracts use. What
//! a law asks of the arithmetic is said in its `requires`: the circuit computes
//! with whatever numbers the caller supplies, so a law that rests on `0 * a + 1
//! * b` being `b` holds for the arithmetics in which it is.

use crate::arithmetic::Arithmetic;
use crate::arithmetic::Coefficient;
use crate::basis::bit_is_set;
use crate::basis::dimension;
use crate::basis::lemma_dimension_is_shift;
use crate::basis::lemma_flip_is_the_partner;
use crate::basis::lemma_other_qubit_unchanged;
use crate::basis::lemma_pair_in_range;
use crate::basis::lemma_pair_members;
use crate::basis::lemma_setting_two_qubits;
use crate::basis::with_bit_cleared;
use crate::basis::with_bit_flipped;
use crate::basis::with_bit_set;
use crate::gates::cnot_applied;
use crate::gates::pair_transformed;
use crate::gates::row_product;
use crate::gates::GateMatrix;
use crate::gates::QuantumGate;
use crate::gates::XGate;
use crate::gates::ZGate;
use crate::semantics::controlled_gate_applied;
use crate::semantics::gate_applied;
use vstd::prelude::*;

verus! {

/// In `arith`, the product of `matrix` with a pair has one value only.
pub open spec fn single_valued_on_pairs<K: Arithmetic>(arith: &K, matrix: GateMatrix<K::Real>) -> bool {
    forall|
        a0: K::Amplitude,
        a1: K::Amplitude,
        b0: K::Amplitude,
        b1: K::Amplitude,
        c0: K::Amplitude,
        c1: K::Amplitude,
    |
        #![trigger pair_transformed(arith, matrix, a0, a1, b0, b1), pair_transformed(arith, matrix, a0, a1, c0, c1)]
        pair_transformed(arith, matrix, a0, a1, b0, b1) && pair_transformed(
            arith,
            matrix,
            a0,
            a1,
            c0,
            c1,
        ) ==> b0 == c0 && b1 == c1
}

/// In `arith`, multiplying a pair by `matrix` twice gives the pair back.
pub open spec fn self_inverse_on_pairs<K: Arithmetic>(arith: &K, matrix: GateMatrix<K::Real>) -> bool {
    forall|
        a0: K::Amplitude,
        a1: K::Amplitude,
        b0: K::Amplitude,
        b1: K::Amplitude,
        c0: K::Amplitude,
        c1: K::Amplitude,
    |
        #![trigger pair_transformed(arith, matrix, a0, a1, b0, b1), pair_transformed(arith, matrix, b0, b1, c0, c1)]
        pair_transformed(arith, matrix, a0, a1, b0, b1) && pair_transformed(
            arith,
            matrix,
            b0,
            b1,
            c0,
            c1,
        ) ==> c0 == a0 && c1 == a1
}

/// In `arith`, multiplying a pair by `matrix` exchanges its two amplitudes.
pub open spec fn exchanges_pairs<K: Arithmetic>(arith: &K, matrix: GateMatrix<K::Real>) -> bool {
    forall|a0: K::Amplitude, a1: K::Amplitude, b0: K::Amplitude, b1: K::Amplitude|
        #![trigger pair_transformed(arith, matrix, a0, a1, b0, b1)]
        pair_transformed(arith, matrix, a0, a1, b0, b1) ==> b0 == a1 && b1 == a0
}

/// In `arith`, `1 * a + 0 * b` is `a` and `0 * a + 1 * b` is `b`, exactly.
pub open spec fn unit_rows_are_exact<K: Arithmetic>(arith: &K) -> bool {
    &&& forall|a0: K::Amplitude, a1: K::Amplitude, out: K::Amplitude|
        #![trigger row_product(arith, Coefficient::One, a0, Coefficient::Zero, a1, out)]
        row_product(arith, Coefficient::One, a0, Coefficient::Zero, a1, out) ==> out == a0
    &&& forall|a0: K::Amplitude, a1: K::Amplitude, out: K::Amplitude|
        #![trigger row_product(arith, Coefficient::Zero, a0, Coefficient::One, a1, out)]
        row_product(arith, Coefficient::Zero, a0, Coefficient::One, a1, out) ==> out == a1
}

/// In `arith`, `0 * a + (-1) * b` is a negation of `b` that undoes itself:
/// computed twice, it gives `b` back exactly.
pub open spec fn negation_is_exact<K: Arithmetic>(arith: &K) -> bool {
    forall|
        a0: K::Amplitude,
        a1: K::Amplitude,
        b0: K::Amplitude,
        negated: K::Amplitude,
        out: K::Amplitude,
    |
        #![trigger row_product(arith, Coefficient::Zero, a0, Coefficient::MinusOne, a1, negated), row_product(arith, Coefficient::Zero, b0, Coefficient::MinusOne, negated, out)]
        row_product(arith, Coefficient::Zero, a0, Coefficient::MinusOne, a1, negated)
            && row_product(arith, Coefficient::Zero, b0, Coefficient::MinusOne, negated, out)
            ==> out == a1
}

/// Every basis state is in exactly one pair of a qubit: the pair of the index
/// with that qubit cleared. So a statement about every pair is a statement
/// about every amplitude.
pub proof fn law_pairs_cover_the_state(index: usize, qubit: usize, n_qubits: usize)
    requires
        n_qubits < usize::BITS,
        qubit < n_qubits,
        index < dimension(n_qubits),
    ensures
        ({
            let first = with_bit_cleared(index, qubit);
            let second = with_bit_set(first, qubit);
            &&& !bit_is_set(first, qubit)
            &&& bit_is_set(second, qubit)
            &&& first < second < dimension(n_qubits)
            &&& index == if bit_is_set(index, qubit) {
                second
            } else {
                first
            }
        }),
{
    let first = with_bit_cleared(index, qubit);
    lemma_pair_members(index, qubit);
    lemma_pair_members(first, qubit);
    lemma_pair_in_range(index, qubit, n_qubits);
    lemma_pair_in_range(first, qubit, n_qubits);
}

/// Applying a gate has one result: where the arithmetic gives one value for
/// the product of its matrix with a pair, two states that both satisfy the
/// contract of `apply_gate` for the same earlier state are equal.
pub proof fn law_gate_result_is_unique<K: Arithmetic>(
    arith: &K,
    matrix: GateMatrix<K::Real>,
    n_qubits: usize,
    target: usize,
    before: Seq<K::Amplitude>,
    after: Seq<K::Amplitude>,
    other: Seq<K::Amplitude>,
)
    requires
        n_qubits < usize::BITS,
        target < n_qubits,
        before.len() == dimension(n_qubits),
        single_valued_on_pairs(arith, matrix),
        gate_applied(arith, matrix, target, before, after),
        gate_applied(arith, matrix, target, before, other),
    ensures
        after == other,
{
    lemma_dimension_is_shift(n_qubits);
    assert forall|j: int| 0 <= j < before.len() implies after[j] == other[j] by {
        let index = j as usize;
        let first = with_bit_cleared(index, target);
        let second = with_bit_set(first, target);
        law_pairs_cover_the_state(index, target, n_qubits);
        assert(!bit_is_set(first, target));
        assert(pair_transformed(
            arith,
            matrix,
            before[first as int],
            before[second as int],
            after[first as int],
            after[second as int],
        ));
        assert(pair_transformed(
            arith,
            matrix,
            before[first as int],
            before[second as int],
            other[first as int],
            other[second as int],
        ));
    }
    assert(after =~= other);
}

/// A gate that undoes itself on every pair undoes itself on every state:
/// applied twice to the same qubit, it gives back the state it started from.
///
/// Pauli-X and Pauli-Z are such gates in every arithmetic that computes `0 * a
/// + 1 * b` and `-(-a)` exactly.
pub proof fn law_self_inverse_gate_twice<K: Arithmetic>(
    arith: &K,
    matrix: GateMatrix<K::Real>,
    n_qubits: usize,
    target: usize,
    start: Seq<K::Amplitude>,
    middle: Seq<K::Amplitude>,
    end: Seq<K::Amplitude>,
)
    requires
        n_qubits < usize::BITS,
        target < n_qubits,
        start.len() == dimension(n_qubits),
        self_inverse_on_pairs(arith, matrix),
        gate_applied(arith, matrix, target, start, middle),
        gate_applied(arith, matrix, target, middle, end),
    ensures
        end == start,
{
    lemma_dimension_is_shift(n_qubits);
    assert forall|j: int| 0 <= j < start.len() implies end[j] == start[j] by {
        let index = j as usize;
        let first = with_bit_cleared(index, target);
        let second = with_bit_set(first, target);
        law_pairs_cover_the_state(index, target, n_qubits);
        assert(!bit_is_set(first, target));
        assert(pair_transformed(
            arith,
            matrix,
            start[first as int],
            start[second as int],
            middle[first as int],
            middle[second as int],
        ));
        assert(pair_transformed(
            arith,
            matrix,
            middle[first as int],
            middle[second as int],
            end[first as int],
            end[second as int],
        ));
    }
    assert(end =~= start);
}

/// Pauli-X exchanges the two amplitudes of every pair, where the arithmetic
/// computes with 0 and 1 exactly.
pub proof fn law_x_exchanges_pairs<K: Arithmetic>(arith: &K)
    requires
        unit_rows_are_exact(arith),
    ensures
        exchanges_pairs(arith, QuantumGate::<K::Real>::spec_matrix(&XGate)),
        self_inverse_on_pairs(arith, QuantumGate::<K::Real>::spec_matrix(&XGate)),
{
}

/// Pauli-X applied twice to a qubit gives back the state it started from,
/// where the arithmetic computes with 0 and 1 exactly.
pub proof fn law_x_gate_twice<K: Arithmetic>(
    arith: &K,
    n_qubits: usize,
    target: usize,
    start: Seq<K::Amplitude>,
    middle: Seq<K::Amplitude>,
    end: Seq<K::Amplitude>,
)
    requires
        n_qubits < usize::BITS,
        target < n_qubits,
        start.len() == dimension(n_qubits),
        unit_rows_are_exact(arith),
        gate_applied(arith, QuantumGate::<K::Real>::spec_matrix(&XGate), target, start, middle),
        gate_applied(arith, QuantumGate::<K::Real>::spec_matrix(&XGate), target, middle, end),
    ensures
        end == start,
{
    law_x_exchanges_pairs(arith);
    law_self_inverse_gate_twice(
        arith,
        QuantumGate::<K::Real>::spec_matrix(&XGate),
        n_qubits,
        target,
        start,
        middle,
        end,
    );
}

/// Pauli-Z applied twice to a qubit gives back the state it started from,
/// where the arithmetic computes with 0 and 1 exactly and its negation undoes
/// itself.
pub proof fn law_z_gate_twice<K: Arithmetic>(
    arith: &K,
    n_qubits: usize,
    target: usize,
    start: Seq<K::Amplitude>,
    middle: Seq<K::Amplitude>,
    end: Seq<K::Amplitude>,
)
    requires
        n_qubits < usize::BITS,
        target < n_qubits,
        start.len() == dimension(n_qubits),
        unit_rows_are_exact(arith),
        negation_is_exact(arith),
        gate_applied(arith, QuantumGate::<K::Real>::spec_matrix(&ZGate), target, start, middle),
        gate_applied(arith, QuantumGate::<K::Real>::spec_matrix(&ZGate), target, middle, end),
    ensures
        end == start,
{
    law_self_inverse_gate_twice(
        arith,
        QuantumGate::<K::Real>::spec_matrix(&ZGate),
        n_qubits,
        target,
        start,
        middle,
        end,
    );
}

/// A controlled gate has one result, as an uncontrolled one has.
pub proof fn law_controlled_gate_result_is_unique<K: Arithmetic>(
    arith: &K,
    matrix: GateMatrix<K::Real>,
    n_qubits: usize,
    control: usize,
    target: usize,
    before: Seq<K::Amplitude>,
    after: Seq<K::Amplitude>,
    other: Seq<K::Amplitude>,
)
    requires
        n_qubits < usize::BITS,
        control < n_qubits,
        target < n_qubits,
        control != target,
        before.len() == dimension(n_qubits),
        single_valued_on_pairs(arith, matrix),
        controlled_gate_applied(arith, matrix, control, target, before, after),
        controlled_gate_applied(arith, matrix, control, target, before, other),
    ensures
        after == other,
{
    lemma_dimension_is_shift(n_qubits);
    assert forall|j: int| 0 <= j < before.len() implies after[j] == other[j] by {
        let index = j as usize;
        if bit_is_set(index, control) {
            let first = with_bit_cleared(index, target);
            let second = with_bit_set(first, target);
            law_pairs_cover_the_state(index, target, n_qubits);
            lemma_other_qubit_unchanged(index, target, control);
            assert(bit_is_set(first, control) && !bit_is_set(first, target));
            assert(pair_transformed(
                arith,
                matrix,
                before[first as int],
                before[second as int],
                after[first as int],
                after[second as int],
            ));
            assert(pair_transformed(
                arith,
                matrix,
                before[first as int],
                before[second as int],
                other[first as int],
                other[second as int],
            ));
        }
    }
    assert(after =~= other);
}

/// A controlled gate that undoes itself on every pair undoes itself on every
/// state.
pub proof fn law_self_inverse_controlled_gate_twice<K: Arithmetic>(
    arith: &K,
    matrix: GateMatrix<K::Real>,
    n_qubits: usize,
    control: usize,
    target: usize,
    start: Seq<K::Amplitude>,
    middle: Seq<K::Amplitude>,
    end: Seq<K::Amplitude>,
)
    requires
        n_qubits < usize::BITS,
        control < n_qubits,
        target < n_qubits,
        control != target,
        start.len() == dimension(n_qubits),
        self_inverse_on_pairs(arith, matrix),
        controlled_gate_applied(arith, matrix, control, target, start, middle),
        controlled_gate_applied(arith, matrix, control, target, middle, end),
    ensures
        end == start,
{
    lemma_dimension_is_shift(n_qubits);
    assert forall|j: int| 0 <= j < start.len() implies end[j] == start[j] by {
        let index = j as usize;
        if bit_is_set(index, control) {
            let first = with_bit_cleared(index, target);
            let second = with_bit_set(first, target);
            law_pairs_cover_the_state(index, target, n_qubits);
            lemma_other_qubit_unchanged(index, target, control);
            assert(bit_is_set(first, control) && !bit_is_set(first, target));
            assert(pair_transformed(
                arith,
                matrix,
                start[first as int],
                start[second as int],
                middle[first as int],
                middle[second as int],
            ));
            assert(pair_transformed(
                arith,
                matrix,
                middle[first as int],
                middle[second as int],
                end[first as int],
                end[second as int],
            ));
        }
    }
    assert(end =~= start);
}

/// A gate that exchanges the amplitudes of every pair moves each amplitude to
/// the basis state with the target qubit flipped, and changes none.
///
/// Pauli-X is such a gate where the arithmetic computes with 0 and 1 exactly.
pub proof fn law_exchanging_gate_flips_the_target<K: Arithmetic>(
    arith: &K,
    matrix: GateMatrix<K::Real>,
    n_qubits: usize,
    target: usize,
    before: Seq<K::Amplitude>,
    after: Seq<K::Amplitude>,
)
    requires
        n_qubits < usize::BITS,
        target < n_qubits,
        before.len() == dimension(n_qubits),
        exchanges_pairs(arith, matrix),
        gate_applied(arith, matrix, target, before, after),
    ensures
        after.len() == before.len(),
        forall|j: usize|
            j < before.len() ==> 0 <= #[trigger] with_bit_flipped(j, target) < before.len()
                && after[j as int] == before[with_bit_flipped(j, target) as int],
{
    lemma_dimension_is_shift(n_qubits);
    assert forall|j: usize| j < before.len() implies 0 <= #[trigger] with_bit_flipped(j, target)
        < before.len() && after[j as int] == before[with_bit_flipped(j, target) as int] by {
        let first = with_bit_cleared(j, target);
        let second = with_bit_set(first, target);
        law_pairs_cover_the_state(j, target, n_qubits);
        lemma_flip_is_the_partner(j, target);
        lemma_pair_members(j, target);
        assert(!bit_is_set(first, target));
        assert(pair_transformed(
            arith,
            matrix,
            before[first as int],
            before[second as int],
            after[first as int],
            after[second as int],
        ));
    }
}

/// A controlled gate that exchanges the amplitudes of every pair moves each
/// amplitude of a basis state with the control qubit 1 to the basis state
/// with the target qubit flipped, and leaves the others where they are.
///
/// For a state with all its weight on one basis state this is the classical
/// controlled NOT: the target flips exactly when the control is 1.
pub proof fn law_controlled_exchange_flips_the_target<K: Arithmetic>(
    arith: &K,
    matrix: GateMatrix<K::Real>,
    n_qubits: usize,
    control: usize,
    target: usize,
    before: Seq<K::Amplitude>,
    after: Seq<K::Amplitude>,
)
    requires
        n_qubits < usize::BITS,
        control < n_qubits,
        target < n_qubits,
        control != target,
        before.len() == dimension(n_qubits),
        exchanges_pairs(arith, matrix),
        controlled_gate_applied(arith, matrix, control, target, before, after),
    ensures
        after.len() == before.len(),
        forall|j: usize|
            j < before.len() ==> 0 <= #[trigger] with_bit_flipped(j, target) < before.len()
                && after[j as int] == if bit_is_set(j, control) {
                before[with_bit_flipped(j, target) as int]
            } else {
                before[j as int]
            },
{
    lemma_dimension_is_shift(n_qubits);
    assert forall|j: usize| j < before.len() implies 0 <= #[trigger] with_bit_flipped(j, target)
        < before.len() && after[j as int] == if bit_is_set(j, control) {
        before[with_bit_flipped(j, target) as int]
    } else {
        before[j as int]
    } by {
        let first = with_bit_cleared(j, target);
        let second = with_bit_set(first, target);
        law_pairs_cover_the_state(j, target, n_qubits);
        lemma_flip_is_the_partner(j, target);
        lemma_pair_members(j, target);
        lemma_other_qubit_unchanged(j, target, control);
        if bit_is_set(j, control) {
            assert(bit_is_set(first, control) && !bit_is_set(first, target));
            assert(pair_transformed(
                arith,
                matrix,
                before[first as int],
                before[second as int],
                after[first as int],
                after[second as int],
            ));
        }
    }
}

/// On a register of two qubits, a pair-exchanging gate controlled by one qubit
/// and applied to the other does what `CNOTGate::apply_controlled` does: with
/// the control 1 and the target 0 the amplitudes of the basis states 2 and 3
/// change places, with the control 0 and the target 1 those of 1 and 3, and
/// the other two stay.
pub proof fn law_controlled_exchange_on_two_qubits<K: Arithmetic>(
    arith: &K,
    matrix: GateMatrix<K::Real>,
    control: usize,
    target: usize,
    before: Seq<K::Amplitude>,
    after: Seq<K::Amplitude>,
)
    requires
        before.len() == 4,
        control < 2,
        target < 2,
        control != target,
        exchanges_pairs(arith, matrix),
        controlled_gate_applied(arith, matrix, control, target, before, after),
    ensures
        after == cnot_applied(control, before),
{
    assert(!bit_is_set(0usize, 0usize) && !bit_is_set(0usize, 1usize)) by (bit_vector);
    assert(bit_is_set(1usize, 0usize) && !bit_is_set(1usize, 1usize)) by (bit_vector);
    assert(!bit_is_set(2usize, 0usize) && bit_is_set(2usize, 1usize)) by (bit_vector);
    assert(bit_is_set(3usize, 0usize) && bit_is_set(3usize, 1usize)) by (bit_vector);
    assert(with_bit_set(2usize, 0usize) == 3usize) by (bit_vector);
    assert(with_bit_set(1usize, 1usize) == 3usize) by (bit_vector);
    if control == 1 {
        assert(pair_transformed(arith, matrix, before[2], before[3], after[2], after[3]));
    } else {
        assert(pair_transformed(arith, matrix, before[1], before[3], after[1], after[3]));
    }
    assert(after =~= cnot_applied(control, before));
}

/// In `arith`, `first` and `second` commute on four amplitudes: applied to two
/// different qubits of a register of two, they give the same four amplitudes
/// in either order. The amplitudes are named by the values of the two qubits,
/// the qubit of `second` before the qubit of `first`.
pub open spec fn commute_on_four<K: Arithmetic>(
    arith: &K,
    first: GateMatrix<K::Real>,
    second: GateMatrix<K::Real>,
) -> bool {
    forall|
        a00: K::Amplitude,
        a01: K::Amplitude,
        a10: K::Amplitude,
        a11: K::Amplitude,
        b00: K::Amplitude,
        b01: K::Amplitude,
        b10: K::Amplitude,
        b11: K::Amplitude,
        c00: K::Amplitude,
        c01: K::Amplitude,
        c10: K::Amplitude,
        c11: K::Amplitude,
        d00: K::Amplitude,
        d01: K::Amplitude,
        d10: K::Amplitude,
        d11: K::Amplitude,
        e00: K::Amplitude,
        e01: K::Amplitude,
        e10: K::Amplitude,
        e11: K::Amplitude,
    |
        #![trigger
            pair_transformed(arith, first, a00, a01, b00, b01),
            pair_transformed(arith, first, a10, a11, b10, b11),
            pair_transformed(arith, second, b00, b10, c00, c10),
            pair_transformed(arith, second, b01, b11, c01, c11),
            pair_transformed(arith, second, a00, a10, d00, d10),
            pair_transformed(arith, second, a01, a11, d01, d11),
            pair_transformed(arith, first, d00, d01, e00, e01),
            pair_transformed(arith, first, d10, d11, e10, e11),
        ]
        {
            &&& pair_transformed(arith, first, a00, a01, b00, b01)
            &&& pair_transformed(arith, first, a10, a11, b10, b11)
            &&& pair_transformed(arith, second, b00, b10, c00, c10)
            &&& pair_transformed(arith, second, b01, b11, c01, c11)
            &&& pair_transformed(arith, second, a00, a10, d00, d10)
            &&& pair_transformed(arith, second, a01, a11, d01, d11)
            &&& pair_transformed(arith, first, d00, d01, e00, e01)
            &&& pair_transformed(arith, first, d10, d11, e10, e11)
        } ==> c00 == e00 && c01 == e01 && c10 == e10 && c11 == e11
}

/// Gates on different qubits commute: where two matrices commute on four
/// amplitudes, applying the one to a qubit and then the other to another
/// qubit gives the state that the other order gives.
///
/// Each gate acts on the pairs of its own qubit, and four basis states that
/// differ only in the two qubits are touched by no other four.
pub proof fn law_gates_on_different_qubits_commute<K: Arithmetic>(
    arith: &K,
    first: GateMatrix<K::Real>,
    second: GateMatrix<K::Real>,
    n_qubits: usize,
    first_qubit: usize,
    second_qubit: usize,
    start: Seq<K::Amplitude>,
    after_first: Seq<K::Amplitude>,
    after_both: Seq<K::Amplitude>,
    after_second: Seq<K::Amplitude>,
    after_both_reversed: Seq<K::Amplitude>,
)
    requires
        n_qubits < usize::BITS,
        first_qubit < n_qubits,
        second_qubit < n_qubits,
        first_qubit != second_qubit,
        start.len() == dimension(n_qubits),
        commute_on_four(arith, first, second),
        gate_applied(arith, first, first_qubit, start, after_first),
        gate_applied(arith, second, second_qubit, after_first, after_both),
        gate_applied(arith, second, second_qubit, start, after_second),
        gate_applied(arith, first, first_qubit, after_second, after_both_reversed),
    ensures
        after_both == after_both_reversed,
{
    lemma_dimension_is_shift(n_qubits);
    let s = first_qubit;
    let t = second_qubit;
    assert forall|j: int| 0 <= j < start.len() implies after_both[j] == after_both_reversed[j] by {
        let index = j as usize;
        let half = with_bit_cleared(index, s);
        let p00 = with_bit_cleared(half, t);
        let p01 = with_bit_set(p00, s);
        let p10 = with_bit_set(p00, t);
        let p11 = with_bit_set(p10, s);
        lemma_pair_members(index, s);
        lemma_pair_in_range(index, s, n_qubits);
        lemma_pair_members(half, t);
        lemma_pair_in_range(half, t, n_qubits);
        lemma_other_qubit_unchanged(half, t, s);
        lemma_pair_members(p00, s);
        lemma_pair_in_range(p00, s, n_qubits);
        lemma_pair_members(p00, t);
        lemma_pair_in_range(p00, t, n_qubits);
        lemma_other_qubit_unchanged(p00, s, t);
        lemma_other_qubit_unchanged(p00, t, s);
        lemma_pair_members(p10, s);
        lemma_pair_in_range(p10, s, n_qubits);
        lemma_pair_members(p01, t);
        lemma_pair_in_range(p01, t, n_qubits);
        lemma_setting_two_qubits(p00, s, t);
        assert(with_bit_set(p01, t) == p11);
        assert(!bit_is_set(p00, s) && !bit_is_set(p00, t));
        assert(!bit_is_set(p10, s) && !bit_is_set(p01, t));
        assert(index == p00 || index == p01 || index == p10 || index == p11);
        assert(pair_transformed(
            arith,
            first,
            start[p00 as int],
            start[p01 as int],
            after_first[p00 as int],
            after_first[p01 as int],
        ));
        assert(pair_transformed(
            arith,
            first,
            start[p10 as int],
            start[p11 as int],
            after_first[p10 as int],
            after_first[p11 as int],
        ));
        assert(pair_transformed(
            arith,
            second,
            after_first[p00 as int],
            after_first[p10 as int],
            after_both[p00 as int],
            after_both[p10 as int],
        ));
        assert(pair_transformed(
            arith,
            second,
            after_first[p01 as int],
            after_first[p11 as int],
            after_both[p01 as int],
            after_both[p11 as int],
        ));
        assert(pair_transformed(
            arith,
            second,
            start[p00 as int],
            start[p10 as int],
            after_second[p00 as int],
            after_second[p10 as int],
        ));
        assert(pair_transformed(
            arith,
            second,
            start[p01 as int],
            start[p11 as int],
            after_second[p01 as int],
            after_second[p11 as int],
        ));
        assert(pair_transformed(
            arith,
            first,
            after_second[p00 as int],
            after_second[p01 as int],
            after_both_reversed[p00 as int],
            after_both_reversed[p01 as int],
        ));
        assert(pair_transformed(
            arith,
            first,
            after_second[p10 as int],
            after_second[p11 as int],
            after_both_reversed[p10 as int],
            after_both_reversed[p11 as int],
        ));
    }
    assert(after_both =~= after_both_reversed);
}

/// Two gates that each exchange the amplitudes of every pair commute on four
/// amplitudes: Pauli-X on one qubit and Pauli-X on another can be applied in
/// either order.
pub proof fn law_exchanging_gates_commute_on_four<K: Arithmetic>(
    arith: &K,
    first: GateMatrix<K::Real>,
    second: GateMatrix<K::Real>,
)
    requires
        exchanges_pairs(arith, first),
        exchanges_pairs(arith, second),
    ensures
        commute_on_four(arith, first, second),
{
}

} // verus!
