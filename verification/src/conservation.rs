//! Conservation of weight: a gate that keeps the weight of every pair keeps the
//! weight of the whole state, and a measurement leaves a normalized state
//! normalized.
//!
//! A weight is any real-valued function of an amplitude; the squared magnitude
//! is the one that makes the total weight the total probability. A unitary
//! matrix keeps the squared magnitude of every pair in exact arithmetic, and
//! the first laws here carry that from the pairs to the state. The laws on
//! measurement and on the check of the normalization hold where the
//! arithmetic is exact: where its sums, roots and quotients are those of the
//! real numbers. Nothing is proved here of an arithmetic that rounds.

use crate::arithmetic::Arithmetic;
use crate::arithmetic::Coefficient;
use crate::basis::bit_is_set;
use crate::basis::dimension;
use crate::basis::lemma_bit_is_binary_digit;
use crate::basis::lemma_dimension_is_shift;
use crate::basis::lemma_other_qubit_unchanged;
use crate::basis::lemma_pair_in_range;
use crate::basis::with_bit_set;
use crate::error::CircuitError;
use crate::gates::pair_transformed;
use crate::gates::GateMatrix;
use crate::laws::exchanges_pairs;
use crate::semantics::accumulated;
use crate::semantics::collapsed;
use crate::semantics::controlled_gate_applied;
use crate::semantics::counted;
use crate::semantics::gate_applied;
use crate::semantics::is_ground_state;
use crate::semantics::measured;
use crate::semantics::normalization_checked;
use vstd::arithmetic::div_mod::lemma_fundamental_div_mod_converse;
use vstd::arithmetic::power2::lemma_pow2_adds;
use vstd::arithmetic::power2::lemma_pow2_pos;
use vstd::arithmetic::power2::lemma_pow2_unfold;
use vstd::arithmetic::power2::pow2;
use vstd::prelude::*;

verus! {

/// The sum of `weight(state[i])` over the indices `i` below `upto`.
pub open spec fn weight_below<A>(weight: spec_fn(A) -> real, state: Seq<A>, upto: int) -> real
    decreases upto,
{
    if upto <= 0 {
        0 as real
    } else {
        weight_below(weight, state, upto - 1) + weight(state[upto - 1])
    }
}

/// The sum of `weight(a)` over all amplitudes `a` of `state`.
pub open spec fn total_weight<A>(weight: spec_fn(A) -> real, state: Seq<A>) -> real {
    weight_below(weight, state, state.len() as int)
}

/// In `arith`, the product of `matrix` with a pair has the weight of the pair.
pub open spec fn keeps_weight_of_pairs<K: Arithmetic>(
    arith: &K,
    matrix: GateMatrix<K::Real>,
    weight: spec_fn(K::Amplitude) -> real,
) -> bool {
    forall|a0: K::Amplitude, a1: K::Amplitude, b0: K::Amplitude, b1: K::Amplitude|
        #![trigger pair_transformed(arith, matrix, a0, a1, b0, b1)]
        pair_transformed(arith, matrix, a0, a1, b0, b1) ==> weight(b0) + weight(b1) == weight(a0)
            + weight(a1)
}

/// A gate that exchanges the two amplitudes of every pair keeps the weight of
/// every pair, whatever the weight.
pub proof fn law_exchanging_gate_keeps_weight<K: Arithmetic>(
    arith: &K,
    matrix: GateMatrix<K::Real>,
    weight: spec_fn(K::Amplitude) -> real,
)
    requires
        exchanges_pairs(arith, matrix),
    ensures
        keeps_weight_of_pairs(arith, matrix, weight),
{
}

/// The sum of `change(i)` over `lo <= i < hi`.
spec fn range_sum(change: spec_fn(int) -> real, lo: int, hi: int) -> real
    decreases hi - lo,
{
    if hi <= lo {
        0 as real
    } else {
        range_sum(change, lo, hi - 1) + change(hi - 1)
    }
}

proof fn lemma_range_sum_splits(change: spec_fn(int) -> real, lo: int, mid: int, hi: int)
    requires
        lo <= mid <= hi,
    ensures
        range_sum(change, lo, hi) == range_sum(change, lo, mid) + range_sum(change, mid, hi),
    decreases hi - mid,
{
    if mid < hi {
        lemma_range_sum_splits(change, lo, mid, hi - 1);
    }
}

/// Where the changes at `i` and at `i + m` cancel for every `i` of the first
/// half of a block, the changes over the first `j` indices of both halves
/// cancel.
proof fn lemma_halves_cancel(change: spec_fn(int) -> real, base: int, m: int, j: int)
    requires
        0 <= j <= m,
        forall|i: int| base <= i < base + m ==> #[trigger] change(i) + change(i + m) == 0 as real,
    ensures
        range_sum(change, base, base + j) + range_sum(change, base + m, base + m + j) == 0 as real,
    decreases j,
{
    if j > 0 {
        lemma_halves_cancel(change, base, m, j - 1);
        let i = base + j - 1;
        assert(change(i) + change(i + m) == 0 as real);
    }
}

/// An index in the first half of a block of `2 * 2^qubit` indices has the qubit
/// clear, and its partner is `2^qubit` further on.
proof fn lemma_first_half_of_a_block(index: usize, qubit: usize, block: int)
    requires
        qubit < usize::BITS,
        block >= 0,
        block * (2 * pow2(qubit as nat)) <= index < block * (2 * pow2(qubit as nat)) + pow2(
            qubit as nat,
        ),
        index + pow2(qubit as nat) <= usize::MAX,
    ensures
        !bit_is_set(index, qubit),
        with_bit_set(index, qubit) == index + pow2(qubit as nat),
{
    let m = pow2(qubit as nat) as int;
    lemma_pow2_pos(qubit as nat);
    lemma_bit_is_binary_digit(index, qubit);
    let offset = index - block * (2 * m);
    assert(index == (2 * block) * m + offset) by (nonlinear_arith)
        requires
            offset == index - block * (2 * m),
    ;
    lemma_fundamental_div_mod_converse(index as int, m, 2 * block, offset);
    assert((index as nat / pow2(qubit as nat)) % 2 == 0);
    lemma_dimension_is_shift(qubit);
    let shifted: usize = 1usize << qubit;
    assert(index & shifted == 0 ==> (index | shifted) == index + shifted) by (bit_vector);
}

/// Where the changes of the two members of every pair cancel, the changes
/// over the first `blocks` blocks add up to nothing.
proof fn lemma_blocks_cancel(
    change: spec_fn(int) -> real,
    n_qubits: usize,
    target: usize,
    blocks: int,
)
    requires
        n_qubits < usize::BITS,
        target < n_qubits,
        0 <= blocks,
        blocks * (2 * pow2(target as nat)) <= dimension(n_qubits),
        forall|i: usize|
            #![trigger bit_is_set(i, target)]
            i < dimension(n_qubits) && !bit_is_set(i, target) ==> change(i as int) + change(
                with_bit_set(i, target) as int,
            ) == 0 as real,
    ensures
        range_sum(change, 0, blocks * (2 * pow2(target as nat))) == 0 as real,
    decreases blocks,
{
    let m = pow2(target as nat) as int;
    lemma_pow2_pos(target as nat);
    if blocks > 0 {
        let base = (blocks - 1) * (2 * m);
        assert(blocks * (2 * m) == base + 2 * m) by (nonlinear_arith)
            requires
                base == (blocks - 1) * (2 * m),
        ;
        assert(0 <= base) by (nonlinear_arith)
            requires
                base == (blocks - 1) * (2 * m),
                blocks >= 1,
                m > 0,
        ;
        lemma_blocks_cancel(change, n_qubits, target, blocks - 1);
        lemma_dimension_is_shift(n_qubits);
        assert forall|i: int| base <= i < base + m implies #[trigger] change(i) + change(i + m)
            == 0 as real by {
            let index = i as usize;
            lemma_first_half_of_a_block(index, target, blocks - 1);
            assert(!bit_is_set(index, target));
        }
        lemma_halves_cancel(change, base, m, m);
        lemma_range_sum_splits(change, 0, base, base + 2 * m);
        lemma_range_sum_splits(change, base, base + m, base + 2 * m);
    } else {
        assert(blocks * (2 * m) == 0) by (nonlinear_arith)
            requires
                blocks == 0,
        ;
    }
}

/// Where the changes of the two members of every pair cancel, the changes
/// over the whole state add up to nothing.
proof fn lemma_pairs_cancel(change: spec_fn(int) -> real, n_qubits: usize, target: usize)
    requires
        n_qubits < usize::BITS,
        target < n_qubits,
        forall|i: usize|
            #![trigger bit_is_set(i, target)]
            i < dimension(n_qubits) && !bit_is_set(i, target) ==> change(i as int) + change(
                with_bit_set(i, target) as int,
            ) == 0 as real,
    ensures
        range_sum(change, 0, dimension(n_qubits) as int) == 0 as real,
{
    let rest = (n_qubits - target - 1) as nat;
    let blocks = pow2(rest) as int;
    lemma_pow2_adds(rest, (target + 1) as nat);
    lemma_pow2_unfold((target + 1) as nat);
    assert(blocks * (2 * pow2(target as nat)) == dimension(n_qubits)) by (nonlinear_arith)
        requires
            blocks == pow2(rest),
            pow2((target + 1) as nat) == 2 * pow2(target as nat),
            dimension(n_qubits) == pow2(rest) * pow2((target + 1) as nat),
    ;
    lemma_blocks_cancel(change, n_qubits, target, blocks);
}

/// The change of weight between two states is the difference of their totals.
proof fn lemma_change_is_the_difference<A>(
    weight: spec_fn(A) -> real,
    before: Seq<A>,
    after: Seq<A>,
    upto: int,
)
    requires
        0 <= upto,
    ensures
        range_sum(|i: int| weight(after[i]) - weight(before[i]), 0, upto) == weight_below(
            weight,
            after,
            upto,
        ) - weight_below(weight, before, upto),
    decreases upto,
{
    if upto > 0 {
        lemma_change_is_the_difference(weight, before, after, upto - 1);
    }
}

/// A gate that keeps the weight of every pair keeps the total weight of the
/// state.
///
/// With the squared magnitude as the weight, this is the conservation of
/// probability: a state whose probabilities add up to 1 is taken to one whose
/// probabilities add up to 1.
pub proof fn law_gate_keeps_total_weight<K: Arithmetic>(
    arith: &K,
    matrix: GateMatrix<K::Real>,
    weight: spec_fn(K::Amplitude) -> real,
    n_qubits: usize,
    target: usize,
    before: Seq<K::Amplitude>,
    after: Seq<K::Amplitude>,
)
    requires
        n_qubits < usize::BITS,
        target < n_qubits,
        before.len() == dimension(n_qubits),
        keeps_weight_of_pairs(arith, matrix, weight),
        gate_applied(arith, matrix, target, before, after),
    ensures
        total_weight(weight, after) == total_weight(weight, before),
{
    let change = |i: int| weight(after[i]) - weight(before[i]);
    lemma_dimension_is_shift(n_qubits);
    assert forall|i: usize|
        #![trigger bit_is_set(i, target)]
        i < dimension(n_qubits) && !bit_is_set(i, target) implies change(i as int) + change(
        with_bit_set(i, target) as int,
    ) == 0 as real by {
        lemma_pair_in_range(i, target, n_qubits);
        assert(pair_transformed(
            arith,
            matrix,
            before[i as int],
            before[with_bit_set(i, target) as int],
            after[i as int],
            after[with_bit_set(i, target) as int],
        ));
    }
    lemma_pairs_cancel(change, n_qubits, target);
    lemma_change_is_the_difference(weight, before, after, before.len() as int);
}

/// A controlled gate that keeps the weight of every pair keeps the total
/// weight of the state.
pub proof fn law_controlled_gate_keeps_total_weight<K: Arithmetic>(
    arith: &K,
    matrix: GateMatrix<K::Real>,
    weight: spec_fn(K::Amplitude) -> real,
    n_qubits: usize,
    control: usize,
    target: usize,
    before: Seq<K::Amplitude>,
    after: Seq<K::Amplitude>,
)
    requires
        n_qubits < usize::BITS,
        control < n_qubits,
        target < n_qubits,
        control != target,
        before.len() == dimension(n_qubits),
        keeps_weight_of_pairs(arith, matrix, weight),
        controlled_gate_applied(arith, matrix, control, target, before, after),
    ensures
        total_weight(weight, after) == total_weight(weight, before),
{
    let change = |i: int| weight(after[i]) - weight(before[i]);
    lemma_dimension_is_shift(n_qubits);
    assert forall|i: usize|
        #![trigger bit_is_set(i, target)]
        i < dimension(n_qubits) && !bit_is_set(i, target) implies change(i as int) + change(
        with_bit_set(i, target) as int,
    ) == 0 as real by {
        lemma_pair_in_range(i, target, n_qubits);
        lemma_other_qubit_unchanged(i, target, control);
        if bit_is_set(i, control) {
            assert(pair_transformed(
                arith,
                matrix,
                before[i as int],
                before[with_bit_set(i, target) as int],
                after[i as int],
                after[with_bit_set(i, target) as int],
            ));
        } else {
            assert(!bit_is_set(with_bit_set(i, target), control));
        }
    }
    lemma_pairs_cancel(change, n_qubits, target);
    lemma_change_is_the_difference(weight, before, after, before.len() as int);
}

/// `arith` computes exactly: `weight` gives the squared magnitude of an
/// amplitude, which is not negative, and `value` the real number that a
/// `K::Real` stands for, and every operation that a measurement or a check of
/// the normalization uses gives the result that its name promises, with no
/// rounding. Nothing is asked of the root of a negative number, nor of a
/// quotient by zero.
pub open spec fn is_exact<K: Arithmetic>(
    arith: &K,
    weight: spec_fn(K::Amplitude) -> real,
    value: spec_fn(K::Real) -> real,
) -> bool {
    &&& forall|a: K::Amplitude| 0 as real <= #[trigger] weight(a)
    &&& forall|z: K::Amplitude|
        #![trigger call_ensures(K::coefficient, (arith, Coefficient::Zero), z)]
        call_ensures(K::coefficient, (arith, Coefficient::Zero), z) ==> weight(z) == 0 as real
    &&& forall|o: K::Amplitude|
        #![trigger call_ensures(K::coefficient, (arith, Coefficient::One), o)]
        call_ensures(K::coefficient, (arith, Coefficient::One), o) ==> weight(o) == 1 as real
    &&& forall|a: K::Amplitude, w: K::Real|
        #![trigger call_ensures(K::norm_sqr, (arith, a), w)]
        call_ensures(K::norm_sqr, (arith, a), w) ==> value(w) == weight(a)
    &&& forall|z: K::Real|
        #![trigger call_ensures(K::zero, (arith,), z)]
        call_ensures(K::zero, (arith,), z) ==> value(z) == 0 as real
    &&& forall|p: K::Real, q: K::Real, r: K::Real|
        #![trigger call_ensures(K::sum, (arith, p, q), r)]
        call_ensures(K::sum, (arith, p, q), r) ==> value(r) == value(p) + value(q)
    &&& forall|p: K::Real, r: K::Real|
        #![trigger call_ensures(K::complement, (arith, p), r)]
        call_ensures(K::complement, (arith, p), r) ==> value(r) == 1 as real - value(p)
    &&& forall|x: K::Real, y: K::Real, r: bool|
        #![trigger call_ensures(K::less_than, (arith, x, y), r)]
        call_ensures(K::less_than, (arith, x, y), r) ==> r == (value(x) < value(y))
    &&& forall|p: K::Real, r: bool|
        #![trigger call_ensures(K::is_zero, (arith, p), r)]
        call_ensures(K::is_zero, (arith, p), r) ==> r == (value(p) == 0 as real)
    &&& forall|p: K::Real, r: K::Real|
        #![trigger call_ensures(K::sqrt, (arith, p), r)]
        call_ensures(K::sqrt, (arith, p), r) && 0 as real <= value(p) ==> value(r) * value(r)
            == value(p)
    &&& forall|a: K::Amplitude, n: K::Real, b: K::Amplitude|
        #![trigger call_ensures(K::scaled_down, (arith, a, n), b)]
        call_ensures(K::scaled_down, (arith, a, n), b) && value(n) != 0 as real ==> weight(b) * (
        value(n) * value(n)) == weight(a)
    &&& forall|p: K::Real, decimals: u32, r: bool|
        #![trigger call_ensures(K::near_one, (arith, p, decimals), r)]
        call_ensures(K::near_one, (arith, p, decimals), r) && value(p) == 1 as real ==> r
}

/// The sum of `weight(state[i])` over the indices `i` below `upto` that are
/// counted for `qubit`.
pub open spec fn counted_weight_below<A>(
    weight: spec_fn(A) -> real,
    state: Seq<A>,
    qubit: Option<usize>,
    upto: int,
) -> real
    decreases upto,
{
    if upto <= 0 {
        0 as real
    } else if counted((upto - 1) as usize, qubit) {
        counted_weight_below(weight, state, qubit, upto - 1) + weight(state[upto - 1])
    } else {
        counted_weight_below(weight, state, qubit, upto - 1)
    }
}

/// In exact arithmetic, a sum that the circuit accumulates is the sum of the
/// weights of the counted amplitudes.
pub proof fn law_accumulated_is_the_counted_weight<K: Arithmetic>(
    arith: &K,
    weight: spec_fn(K::Amplitude) -> real,
    value: spec_fn(K::Real) -> real,
    state: Seq<K::Amplitude>,
    qubit: Option<usize>,
    upto: nat,
    total: K::Real,
)
    requires
        is_exact(arith, weight, value),
        upto <= usize::MAX,
        accumulated(arith, state, qubit, upto, total),
    ensures
        value(total) == counted_weight_below(weight, state, qubit, upto as int),
    decreases upto,
{
    if upto == 0 {
    } else if counted((upto - 1) as usize, qubit) {
        let (earlier, added) = choose|earlier: K::Real, added: K::Real|
            #![trigger call_ensures(K::sum, (arith, earlier, added), total)]
            {
                &&& accumulated(arith, state, qubit, (upto - 1) as nat, earlier)
                &&& call_ensures(K::norm_sqr, (arith, state[upto - 1]), added)
                &&& call_ensures(K::sum, (arith, earlier, added), total)
            };
        law_accumulated_is_the_counted_weight(
            arith,
            weight,
            value,
            state,
            qubit,
            (upto - 1) as nat,
            earlier,
        );
    } else {
        law_accumulated_is_the_counted_weight(
            arith,
            weight,
            value,
            state,
            qubit,
            (upto - 1) as nat,
            total,
        );
    }
}

/// Counting every amplitude gives the total weight.
proof fn lemma_counting_all<A>(weight: spec_fn(A) -> real, state: Seq<A>, upto: int)
    ensures
        counted_weight_below(weight, state, None, upto) == weight_below(weight, state, upto),
    decreases upto,
{
    if upto > 0 {
        lemma_counting_all(weight, state, upto - 1);
    }
}

/// The weight of the basis states that agree with `outcome` in qubit `target`,
/// below `upto`.
pub open spec fn agreeing_weight_below<A>(
    weight: spec_fn(A) -> real,
    state: Seq<A>,
    target: usize,
    outcome: bool,
    upto: int,
) -> real
    decreases upto,
{
    if upto <= 0 {
        0 as real
    } else if bit_is_set((upto - 1) as usize, target) == outcome {
        agreeing_weight_below(weight, state, target, outcome, upto - 1) + weight(state[upto - 1])
    } else {
        agreeing_weight_below(weight, state, target, outcome, upto - 1)
    }
}

/// The two outcomes of a qubit share the total weight between them.
proof fn lemma_outcomes_share_the_weight<A>(
    weight: spec_fn(A) -> real,
    state: Seq<A>,
    target: usize,
    upto: int,
)
    ensures
        agreeing_weight_below(weight, state, target, true, upto) + agreeing_weight_below(
            weight,
            state,
            target,
            false,
            upto,
        ) == weight_below(weight, state, upto),
        agreeing_weight_below(weight, state, target, true, upto) == counted_weight_below(
            weight,
            state,
            Some(target),
            upto,
        ),
    decreases upto,
{
    if upto > 0 {
        lemma_outcomes_share_the_weight(weight, state, target, upto - 1);
    }
}

/// The weight that agrees with an outcome is not negative, where no weight is.
proof fn lemma_agreeing_weight_is_not_negative<A>(
    weight: spec_fn(A) -> real,
    state: Seq<A>,
    target: usize,
    outcome: bool,
    upto: int,
)
    requires
        forall|a: A| 0 as real <= #[trigger] weight(a),
    ensures
        0 as real <= agreeing_weight_below(weight, state, target, outcome, upto),
    decreases upto,
{
    if upto > 0 {
        lemma_agreeing_weight_is_not_negative(weight, state, target, outcome, upto - 1);
        assert(0 as real <= weight(state[upto - 1]));
    }
}

/// After a collapse with a norm `norm` other than zero, the weight of the
/// state times `norm^2` is the weight that agreed with the outcome before.
proof fn lemma_collapse_scales_the_weight<K: Arithmetic>(
    arith: &K,
    weight: spec_fn(K::Amplitude) -> real,
    value: spec_fn(K::Real) -> real,
    target: usize,
    outcome: bool,
    norm: K::Real,
    before: Seq<K::Amplitude>,
    after: Seq<K::Amplitude>,
    upto: int,
)
    requires
        is_exact(arith, weight, value),
        value(norm) != 0 as real,
        collapsed(arith, target, outcome, norm, before, after),
        0 <= upto <= before.len() <= usize::MAX,
    ensures
        weight_below(weight, after, upto) * (value(norm) * value(norm)) == agreeing_weight_below(
            weight,
            before,
            target,
            outcome,
            upto,
        ),
    decreases upto,
{
    let factor = value(norm) * value(norm);
    if upto > 0 {
        lemma_collapse_scales_the_weight(
            arith,
            weight,
            value,
            target,
            outcome,
            norm,
            before,
            after,
            upto - 1,
        );
        let i = (upto - 1) as usize;
        let earlier = weight_below(weight, after, upto - 1);
        let last = weight(after[upto - 1]);
        assert((earlier + last) * factor == earlier * factor + last * factor) by (nonlinear_arith);
        if bit_is_set(i, target) == outcome {
            assert(call_ensures(K::scaled_down, (arith, before[i as int], norm), after[i as int]));
        } else {
            assert(call_ensures(K::coefficient, (arith, Coefficient::Zero), after[i as int]));
            assert(last * factor == 0 as real) by (nonlinear_arith)
                requires
                    last == 0 as real,
            ;
        }
    } else {
        assert((0 as real) * factor == 0 as real) by (nonlinear_arith);
    }
}

/// The state `|0...0>` is normalized, in exact arithmetic: `new` and `reset`
/// give a state whose total weight is 1.
pub proof fn law_ground_state_is_normalized<K: Arithmetic>(
    arith: &K,
    weight: spec_fn(K::Amplitude) -> real,
    value: spec_fn(K::Real) -> real,
    state: Seq<K::Amplitude>,
)
    requires
        is_exact(arith, weight, value),
        is_ground_state(arith, state),
    ensures
        total_weight(weight, state) == 1 as real,
{
    lemma_ground_state_weight(arith, weight, value, state, state.len() as int);
}

proof fn lemma_ground_state_weight<K: Arithmetic>(
    arith: &K,
    weight: spec_fn(K::Amplitude) -> real,
    value: spec_fn(K::Real) -> real,
    state: Seq<K::Amplitude>,
    upto: int,
)
    requires
        is_exact(arith, weight, value),
        is_ground_state(arith, state),
        1 <= upto <= state.len(),
    ensures
        weight_below(weight, state, upto) == 1 as real,
    decreases upto,
{
    if upto > 1 {
        lemma_ground_state_weight(arith, weight, value, state, upto - 1);
        assert(call_ensures(K::coefficient, (arith, Coefficient::Zero), state[upto - 1]));
    } else {
        assert(weight_below(weight, state, 0) == 0 as real);
        assert(call_ensures(K::coefficient, (arith, Coefficient::One), state[0]));
    }
}

/// A measurement keeps a normalized state normalized, in exact arithmetic:
/// whatever the draw, and whether the measurement succeeds or finds the
/// outcome to have probability zero, the total weight is 1 afterwards.
pub proof fn law_measurement_keeps_normalization<K: Arithmetic>(
    arith: &K,
    weight: spec_fn(K::Amplitude) -> real,
    value: spec_fn(K::Real) -> real,
    target: usize,
    draw: K::Real,
    before: Seq<K::Amplitude>,
    after: Seq<K::Amplitude>,
    result: Result<bool, CircuitError>,
)
    requires
        is_exact(arith, weight, value),
        before.len() <= usize::MAX,
        total_weight(weight, before) == 1 as real,
        measured(arith, target, draw, before, after, result),
    ensures
        after.len() == before.len(),
        total_weight(weight, after) == 1 as real,
{
    let (prob_one, outcome, kept, degenerate) = choose|
        prob_one: K::Real,
        outcome: bool,
        kept: K::Real,
        degenerate: bool,
    |
        #![trigger call_ensures(K::less_than, (arith, draw, prob_one), outcome), call_ensures(K::is_zero, (arith, kept), degenerate)]
        {
            &&& accumulated(arith, before, Some(target), before.len(), prob_one)
            &&& call_ensures(K::less_than, (arith, draw, prob_one), outcome)
            &&& if outcome {
                kept == prob_one
            } else {
                call_ensures(K::complement, (arith, prob_one), kept)
            }
            &&& call_ensures(K::is_zero, (arith, kept), degenerate)
            &&& if degenerate {
                result == Err::<bool, CircuitError>(CircuitError::DegenerateMeasurement) && after
                    == before
            } else {
                &&& result == Ok::<bool, CircuitError>(outcome)
                &&& exists|norm: K::Real|
                    #![trigger call_ensures(K::sqrt, (arith, kept), norm)]
                    call_ensures(K::sqrt, (arith, kept), norm) && collapsed(
                        arith,
                        target,
                        outcome,
                        norm,
                        before,
                        after,
                    )
            }
        };
    if !degenerate {
        let norm = choose|norm: K::Real|
            #![trigger call_ensures(K::sqrt, (arith, kept), norm)]
            call_ensures(K::sqrt, (arith, kept), norm) && collapsed(
                arith,
                target,
                outcome,
                norm,
                before,
                after,
            );
        let len = before.len() as int;
        law_accumulated_is_the_counted_weight(
            arith,
            weight,
            value,
            before,
            Some(target),
            before.len(),
            prob_one,
        );
        lemma_outcomes_share_the_weight(weight, before, target, len);
        lemma_agreeing_weight_is_not_negative(weight, before, target, outcome, len);
        assert(value(kept) == agreeing_weight_below(weight, before, target, outcome, len));
        let factor = value(norm) * value(norm);
        assert(factor == value(kept));
        assert(value(norm) != 0 as real) by (nonlinear_arith)
            requires
                factor == value(norm) * value(norm),
                factor != 0 as real,
        ;
        lemma_collapse_scales_the_weight(
            arith,
            weight,
            value,
            target,
            outcome,
            norm,
            before,
            after,
            len,
        );
        let total = weight_below(weight, after, len);
        assert(value(kept) == agreeing_weight_below(weight, before, target, outcome, len));
        assert(total == 1 as real) by (nonlinear_arith)
            requires
                total * factor == factor,
                factor != 0 as real,
        ;
    }
}

/// Qubit `target` is certainly `outcome` in `state`: no basis state in which
/// the qubit is the other value has any weight.
pub open spec fn is_certainly<A>(
    weight: spec_fn(A) -> real,
    state: Seq<A>,
    target: usize,
    outcome: bool,
) -> bool {
    forall|i: usize|
        #![trigger bit_is_set(i, target)]
        i < state.len() && bit_is_set(i, target) != outcome ==> weight(state[i as int])
            == 0 as real
}

/// Where a qubit is certainly `outcome`, the other outcome has no weight.
proof fn lemma_the_other_outcome_has_no_weight<A>(
    weight: spec_fn(A) -> real,
    state: Seq<A>,
    target: usize,
    outcome: bool,
    upto: int,
)
    requires
        0 <= upto <= state.len() <= usize::MAX,
        is_certainly(weight, state, target, outcome),
    ensures
        agreeing_weight_below(weight, state, target, !outcome, upto) == 0 as real,
    decreases upto,
{
    if upto > 0 {
        lemma_the_other_outcome_has_no_weight(weight, state, target, outcome, upto - 1);
        let i = (upto - 1) as usize;
        assert(bit_is_set(i, target) != outcome ==> weight(state[i as int]) == 0 as real);
    }
}

/// A measurement finds what is certain, in exact arithmetic: where a qubit of
/// a normalized state is certainly `outcome`, every draw from `[0, 1)` gives
/// that outcome, and no amplitude changes its weight.
///
/// The ground state is such a state for the outcome 0 of every qubit, and
/// the state that Pauli-X on a qubit makes of it is one for the outcome 1.
pub proof fn law_certain_outcome_is_measured<K: Arithmetic>(
    arith: &K,
    weight: spec_fn(K::Amplitude) -> real,
    value: spec_fn(K::Real) -> real,
    target: usize,
    outcome: bool,
    draw: K::Real,
    before: Seq<K::Amplitude>,
    after: Seq<K::Amplitude>,
    result: Result<bool, CircuitError>,
)
    requires
        is_exact(arith, weight, value),
        before.len() <= usize::MAX,
        total_weight(weight, before) == 1 as real,
        is_certainly(weight, before, target, outcome),
        0 as real <= value(draw) < 1 as real,
        measured(arith, target, draw, before, after, result),
    ensures
        result == Ok::<bool, CircuitError>(outcome),
        after.len() == before.len(),
        forall|i: int| 0 <= i < before.len() ==> weight(#[trigger] after[i]) == weight(before[i]),
{
    let (prob_one, drawn, kept, degenerate) = choose|
        prob_one: K::Real,
        drawn: bool,
        kept: K::Real,
        degenerate: bool,
    |
        #![trigger call_ensures(K::less_than, (arith, draw, prob_one), drawn), call_ensures(K::is_zero, (arith, kept), degenerate)]
        {
            &&& accumulated(arith, before, Some(target), before.len(), prob_one)
            &&& call_ensures(K::less_than, (arith, draw, prob_one), drawn)
            &&& if drawn {
                kept == prob_one
            } else {
                call_ensures(K::complement, (arith, prob_one), kept)
            }
            &&& call_ensures(K::is_zero, (arith, kept), degenerate)
            &&& if degenerate {
                result == Err::<bool, CircuitError>(CircuitError::DegenerateMeasurement) && after
                    == before
            } else {
                &&& result == Ok::<bool, CircuitError>(drawn)
                &&& exists|norm: K::Real|
                    #![trigger call_ensures(K::sqrt, (arith, kept), norm)]
                    call_ensures(K::sqrt, (arith, kept), norm) && collapsed(
                        arith,
                        target,
                        drawn,
                        norm,
                        before,
                        after,
                    )
            }
        };
    let len = before.len() as int;
    law_accumulated_is_the_counted_weight(
        arith,
        weight,
        value,
        before,
        Some(target),
        before.len(),
        prob_one,
    );
    lemma_outcomes_share_the_weight(weight, before, target, len);
    lemma_the_other_outcome_has_no_weight(weight, before, target, outcome, len);
    assert(value(prob_one) == if outcome {
        1 as real
    } else {
        0 as real
    });
    assert(drawn == outcome);
    assert(value(kept) == 1 as real);
    assert(!degenerate);
    let norm = choose|norm: K::Real|
        #![trigger call_ensures(K::sqrt, (arith, kept), norm)]
        call_ensures(K::sqrt, (arith, kept), norm) && collapsed(
            arith,
            target,
            drawn,
            norm,
            before,
            after,
        );
    let factor = value(norm) * value(norm);
    assert(factor == 1 as real);
    assert forall|i: int| 0 <= i < before.len() implies weight(#[trigger] after[i]) == weight(
        before[i],
    ) by {
        let index = i as usize;
        if bit_is_set(index, target) == outcome {
            assert(call_ensures(K::scaled_down, (arith, before[i], norm), after[i]));
            assert(weight(after[i]) * factor == weight(before[i]));
            assert(weight(after[i]) * factor == weight(after[i])) by (nonlinear_arith)
                requires
                    factor == 1 as real,
            ;
        } else {
            assert(call_ensures(K::coefficient, (arith, Coefficient::Zero), after[i]));
        }
    }
}

/// A measurement of a normalized state succeeds, in exact arithmetic: for
/// every draw from `[0, 1)` the outcome is 1 exactly when the draw is below the
/// probability of 1, the weight of the basis states in which the qubit is 1.
pub proof fn law_measurement_follows_the_draw<K: Arithmetic>(
    arith: &K,
    weight: spec_fn(K::Amplitude) -> real,
    value: spec_fn(K::Real) -> real,
    target: usize,
    draw: K::Real,
    before: Seq<K::Amplitude>,
    after: Seq<K::Amplitude>,
    result: Result<bool, CircuitError>,
)
    requires
        is_exact(arith, weight, value),
        before.len() <= usize::MAX,
        total_weight(weight, before) == 1 as real,
        0 as real <= value(draw) < 1 as real,
        measured(arith, target, draw, before, after, result),
    ensures
        result == Ok::<bool, CircuitError>(
            value(draw) < agreeing_weight_below(weight, before, target, true, before.len() as int),
        ),
{
    let (prob_one, drawn, kept, degenerate) = choose|
        prob_one: K::Real,
        drawn: bool,
        kept: K::Real,
        degenerate: bool,
    |
        #![trigger call_ensures(K::less_than, (arith, draw, prob_one), drawn), call_ensures(K::is_zero, (arith, kept), degenerate)]
        {
            &&& accumulated(arith, before, Some(target), before.len(), prob_one)
            &&& call_ensures(K::less_than, (arith, draw, prob_one), drawn)
            &&& if drawn {
                kept == prob_one
            } else {
                call_ensures(K::complement, (arith, prob_one), kept)
            }
            &&& call_ensures(K::is_zero, (arith, kept), degenerate)
            &&& if degenerate {
                result == Err::<bool, CircuitError>(CircuitError::DegenerateMeasurement) && after
                    == before
            } else {
                &&& result == Ok::<bool, CircuitError>(drawn)
                &&& exists|norm: K::Real|
                    #![trigger call_ensures(K::sqrt, (arith, kept), norm)]
                    call_ensures(K::sqrt, (arith, kept), norm) && collapsed(
                        arith,
                        target,
                        drawn,
                        norm,
                        before,
                        after,
                    )
            }
        };
    let len = before.len() as int;
    law_accumulated_is_the_counted_weight(
        arith,
        weight,
        value,
        before,
        Some(target),
        before.len(),
        prob_one,
    );
    lemma_outcomes_share_the_weight(weight, before, target, len);
    assert(drawn == (value(draw) < value(prob_one)));
    assert(value(kept) != 0 as real);
}

/// After a measurement that gave `outcome`, the qubit is certainly `outcome`:
/// every amplitude of a basis state with the other value is a zero.
pub proof fn law_measurement_makes_the_outcome_certain<K: Arithmetic>(
    arith: &K,
    weight: spec_fn(K::Amplitude) -> real,
    value: spec_fn(K::Real) -> real,
    target: usize,
    outcome: bool,
    draw: K::Real,
    before: Seq<K::Amplitude>,
    after: Seq<K::Amplitude>,
)
    requires
        is_exact(arith, weight, value),
        measured(arith, target, draw, before, after, Ok::<bool, CircuitError>(outcome)),
    ensures
        after.len() == before.len(),
        is_certainly(weight, after, target, outcome),
{
    let result = Ok::<bool, CircuitError>(outcome);
    let (prob_one, drawn, kept, degenerate) = choose|
        prob_one: K::Real,
        drawn: bool,
        kept: K::Real,
        degenerate: bool,
    |
        #![trigger call_ensures(K::less_than, (arith, draw, prob_one), drawn), call_ensures(K::is_zero, (arith, kept), degenerate)]
        {
            &&& accumulated(arith, before, Some(target), before.len(), prob_one)
            &&& call_ensures(K::less_than, (arith, draw, prob_one), drawn)
            &&& if drawn {
                kept == prob_one
            } else {
                call_ensures(K::complement, (arith, prob_one), kept)
            }
            &&& call_ensures(K::is_zero, (arith, kept), degenerate)
            &&& if degenerate {
                result == Err::<bool, CircuitError>(CircuitError::DegenerateMeasurement) && after
                    == before
            } else {
                &&& result == Ok::<bool, CircuitError>(drawn)
                &&& exists|norm: K::Real|
                    #![trigger call_ensures(K::sqrt, (arith, kept), norm)]
                    call_ensures(K::sqrt, (arith, kept), norm) && collapsed(
                        arith,
                        target,
                        drawn,
                        norm,
                        before,
                        after,
                    )
            }
        };
    let norm = choose|norm: K::Real|
        #![trigger call_ensures(K::sqrt, (arith, kept), norm)]
        call_ensures(K::sqrt, (arith, kept), norm) && collapsed(
            arith,
            target,
            drawn,
            norm,
            before,
            after,
        );
    assert forall|i: usize|
        #![trigger bit_is_set(i, target)]
        i < after.len() && bit_is_set(i, target) != outcome implies weight(after[i as int])
        == 0 as real by {
        assert(call_ensures(K::coefficient, (arith, Coefficient::Zero), after[i as int]));
    }
}

/// A measurement repeated gives the same outcome, in exact arithmetic: after a
/// measurement of a normalized state that gave `outcome`, every further
/// measurement of the same qubit with a draw from `[0, 1)` gives `outcome`
/// again, and no amplitude changes its weight.
pub proof fn law_repeated_measurement_gives_the_same_outcome<K: Arithmetic>(
    arith: &K,
    weight: spec_fn(K::Amplitude) -> real,
    value: spec_fn(K::Real) -> real,
    target: usize,
    outcome: bool,
    first_draw: K::Real,
    second_draw: K::Real,
    before: Seq<K::Amplitude>,
    between: Seq<K::Amplitude>,
    after: Seq<K::Amplitude>,
    result: Result<bool, CircuitError>,
)
    requires
        is_exact(arith, weight, value),
        before.len() <= usize::MAX,
        total_weight(weight, before) == 1 as real,
        measured(arith, target, first_draw, before, between, Ok::<bool, CircuitError>(outcome)),
        0 as real <= value(second_draw) < 1 as real,
        measured(arith, target, second_draw, between, after, result),
    ensures
        result == Ok::<bool, CircuitError>(outcome),
        after.len() == before.len(),
        forall|i: int| 0 <= i < between.len() ==> weight(#[trigger] after[i]) == weight(between[i]),
{
    law_measurement_keeps_normalization(
        arith,
        weight,
        value,
        target,
        first_draw,
        before,
        between,
        Ok::<bool, CircuitError>(outcome),
    );
    law_measurement_makes_the_outcome_certain(
        arith,
        weight,
        value,
        target,
        outcome,
        first_draw,
        before,
        between,
    );
    law_certain_outcome_is_measured(
        arith,
        weight,
        value,
        target,
        outcome,
        second_draw,
        between,
        after,
        result,
    );
}

/// A normalized state passes the check of `verify_state`, in exact arithmetic.
pub proof fn law_normalized_state_is_verified<K: Arithmetic>(
    arith: &K,
    weight: spec_fn(K::Amplitude) -> real,
    value: spec_fn(K::Real) -> real,
    state: Seq<K::Amplitude>,
    decimals: u32,
    verdict: bool,
)
    requires
        is_exact(arith, weight, value),
        state.len() <= usize::MAX,
        total_weight(weight, state) == 1 as real,
        normalization_checked(arith, state, decimals, verdict),
    ensures
        verdict,
{
    let total = choose|total: K::Real|
        #![trigger call_ensures(K::near_one, (arith, total, decimals), verdict)]
        accumulated(arith, state, None, state.len(), total) && call_ensures(
            K::near_one,
            (arith, total, decimals),
            verdict,
        );
    law_accumulated_is_the_counted_weight(arith, weight, value, state, None, state.len(), total);
    lemma_counting_all(weight, state, state.len() as int);
}

/// The probabilities of all basis states add up to the total weight, in exact
/// arithmetic: to 1 for a normalized state.
pub proof fn law_probabilities_add_up<K: Arithmetic>(
    arith: &K,
    weight: spec_fn(K::Amplitude) -> real,
    value: spec_fn(K::Real) -> real,
    state: Seq<K::Amplitude>,
    probabilities: Seq<K::Real>,
)
    requires
        is_exact(arith, weight, value),
        probabilities.len() == state.len(),
        forall|i: int|
            0 <= i < state.len() ==> call_ensures(
                K::norm_sqr,
                (arith, state[i]),
                #[trigger] probabilities[i],
            ),
    ensures
        total_weight(value, probabilities) == total_weight(weight, state),
{
    lemma_probabilities_below(arith, weight, value, state, probabilities, state.len() as int);
}

proof fn lemma_probabilities_below<K: Arithmetic>(
    arith: &K,
    weight: spec_fn(K::Amplitude) -> real,
    value: spec_fn(K::Real) -> real,
    state: Seq<K::Amplitude>,
    probabilities: Seq<K::Real>,
    upto: int,
)
    requires
        is_exact(arith, weight, value),
        probabilities.len() == state.len(),
        0 <= upto <= state.len(),
        forall|i: int|
            0 <= i < state.len() ==> call_ensures(
                K::norm_sqr,
                (arith, state[i]),
                #[trigger] probabilities[i],
            ),
    ensures
        weight_below(value, probabilities, upto) == weight_below(weight, state, upto),
    decreases upto,
{
    if upto > 0 {
        lemma_probabilities_below(arith, weight, value, state, probabilities, upto - 1);
        assert(call_ensures(K::norm_sqr, (arith, state[upto - 1]), probabilities[upto - 1]));
    }
}

/// After `new` and after `reset`, `verify_state` answers true, in exact
/// arithmetic.
pub proof fn law_ground_state_is_verified<K: Arithmetic>(
    arith: &K,
    weight: spec_fn(K::Amplitude) -> real,
    value: spec_fn(K::Real) -> real,
    state: Seq<K::Amplitude>,
    decimals: u32,
    verdict: bool,
)
    requires
        is_exact(arith, weight, value),
        state.len() <= usize::MAX,
        is_ground_state(arith, state),
        normalization_checked(arith, state, decimals, verdict),
    ensures
        verdict,
{
    law_ground_state_is_normalized(arith, weight, value, state);
    law_normalized_state_is_verified(arith, weight, value, state, decimals, verdict);
}

/// After `apply_gate` on a normalized state, with a gate that keeps the weight
/// of every pair, `verify_state` answers true, in exact arithmetic.
pub proof fn law_state_is_verified_after_a_gate<K: Arithmetic>(
    arith: &K,
    matrix: GateMatrix<K::Real>,
    weight: spec_fn(K::Amplitude) -> real,
    value: spec_fn(K::Real) -> real,
    n_qubits: usize,
    target: usize,
    before: Seq<K::Amplitude>,
    after: Seq<K::Amplitude>,
    decimals: u32,
    verdict: bool,
)
    requires
        n_qubits < usize::BITS,
        target < n_qubits,
        before.len() == dimension(n_qubits),
        is_exact(arith, weight, value),
        keeps_weight_of_pairs(arith, matrix, weight),
        total_weight(weight, before) == 1 as real,
        gate_applied(arith, matrix, target, before, after),
        normalization_checked(arith, after, decimals, verdict),
    ensures
        verdict,
{
    lemma_dimension_is_shift(n_qubits);
    law_gate_keeps_total_weight(arith, matrix, weight, n_qubits, target, before, after);
    law_normalized_state_is_verified(arith, weight, value, after, decimals, verdict);
}

/// After `apply_controlled_gate` on a normalized state, with a gate that keeps
/// the weight of every pair, `verify_state` answers true, in exact arithmetic.
pub proof fn law_state_is_verified_after_a_controlled_gate<K: Arithmetic>(
    arith: &K,
    matrix: GateMatrix<K::Real>,
    weight: spec_fn(K::Amplitude) -> real,
    value: spec_fn(K::Real) -> real,
    n_qubits: usize,
    control: usize,
    target: usize,
    before: Seq<K::Amplitude>,
    after: Seq<K::Amplitude>,
    decimals: u32,
    verdict: bool,
)
    requires
        n_qubits < usize::BITS,
        control < n_qubits,
        target < n_qubits,
        control != target,
        before.len() == dimension(n_qubits),
        is_exact(arith, weight, value),
        keeps_weight_of_pairs(arith, matrix, weight),
        total_weight(weight, before) == 1 as real,
        controlled_gate_applied(arith, matrix, control, target, before, after),
        normalization_checked(arith, after, decimals, verdict),
    ensures
        verdict,
{
    lemma_dimension_is_shift(n_qubits);
    law_controlled_gate_keeps_total_weight(
        arith,
        matrix,
        weight,
        n_qubits,
        control,
        target,
        before,
        after,
    );
    law_normalized_state_is_verified(arith, weight, value, after, decimals, verdict);
}

/// After `measure` on a normalized state, `verify_state` answers true, in
/// exact arithmetic.
pub proof fn law_state_is_verified_after_a_measurement<K: Arithmetic>(
    arith: &K,
    weight: spec_fn(K::Amplitude) -> real,
    value: spec_fn(K::Real) -> real,
    target: usize,
    draw: K::Real,
    before: Seq<K::Amplitude>,
    after: Seq<K::Amplitude>,
    result: Result<bool, CircuitError>,
    decimals: u32,
    verdict: bool,
)
    requires
        is_exact(arith, weight, value),
        before.len() <= usize::MAX,
        total_weight(weight, before) == 1 as real,
        measured(arith, target, draw, before, after, result),
        normalization_checked(arith, after, decimals, verdict),
    ensures
        verdict,
{
    law_measurement_keeps_normalization(arith, weight, value, target, draw, before, after, result);
    law_normalized_state_is_verified(arith, weight, value, after, decimals, verdict);
}

} // verus!
