//! Basis indices and their bits.
//!
//! A basis state of `n` qubits is an index below `2^n`; bit `k` of the index is
//! the value of qubit `k`. The two indices that differ only in bit `k` form a
//! pair: a gate on qubit `k` acts on each pair separately.

use vstd::arithmetic::power2::pow2;
use vstd::bits::lemma_usize_pow2_no_overflow;
use vstd::bits::lemma_usize_shl_is_mul;
use vstd::bits::lemma_usize_shr_is_div;
use vstd::prelude::*;

verus! {

/// The number of basis states of `n_qubits` qubits.
pub open spec fn dimension(n_qubits: usize) -> nat {
    pow2(n_qubits as nat)
}

/// Whether qubit `qubit` is 1 in basis state `index`.
pub open spec fn bit_is_set(index: usize, qubit: usize) -> bool {
    index & (1usize << qubit) != 0
}

/// The basis state that agrees with `index` except that qubit `qubit` is 1.
pub open spec fn with_bit_set(index: usize, qubit: usize) -> usize {
    index | (1usize << qubit)
}

/// The basis state that agrees with `index` except that qubit `qubit` is 0.
pub open spec fn with_bit_cleared(index: usize, qubit: usize) -> usize {
    index & !(1usize << qubit)
}

/// The basis state that differs from `index` in qubit `qubit` and in nothing
/// else: the other member of the pair of `index`.
pub open spec fn with_bit_flipped(index: usize, qubit: usize) -> usize {
    index ^ (1usize << qubit)
}

/// `2^n_qubits`, the length of a state vector.
pub fn dimension_of(n_qubits: usize) -> (len: usize)
    requires
        n_qubits < usize::BITS,
    ensures
        len == dimension(n_qubits),
        len == 1usize << n_qubits,
        len >= 1,
{
    proof {
        lemma_usize_pow2_no_overflow(n_qubits as nat);
        lemma_usize_shl_is_mul(1usize, n_qubits);
    }
    1usize << n_qubits
}

/// Reads qubit `qubit` of basis state `index`.
pub fn qubit_is_one(index: usize, qubit: usize) -> (one: bool)
    requires
        qubit < usize::BITS,
    ensures
        one == bit_is_set(index, qubit),
{
    index & (1usize << qubit) != 0
}

/// Sets qubit `qubit` of basis state `index` to 1.
pub fn set_qubit(index: usize, qubit: usize) -> (partner: usize)
    requires
        qubit < usize::BITS,
    ensures
        partner == with_bit_set(index, qubit),
{
    index | (1usize << qubit)
}

/// Sets qubit `qubit` of basis state `index` to 0.
pub fn clear_qubit(index: usize, qubit: usize) -> (partner: usize)
    requires
        qubit < usize::BITS,
    ensures
        partner == with_bit_cleared(index, qubit),
{
    index & !(1usize << qubit)
}

/// The length of a state vector is `1 << n`.
pub proof fn lemma_dimension_is_shift(n_qubits: usize)
    requires
        n_qubits < usize::BITS,
    ensures
        dimension(n_qubits) == 1usize << n_qubits,
        0 < dimension(n_qubits) <= usize::MAX,
{
    lemma_usize_pow2_no_overflow(n_qubits as nat);
    lemma_usize_shl_is_mul(1usize, n_qubits);
}

/// Bit `k` of an index is its binary digit of weight `2^k`.
pub proof fn lemma_bit_is_binary_digit(index: usize, qubit: usize)
    requires
        qubit < usize::BITS,
    ensures
        bit_is_set(index, qubit) <==> (index as nat / pow2(qubit as nat)) % 2 == 1,
{
    lemma_usize_shr_is_div(index, qubit);
    let shifted: usize = index >> qubit;
    assert((index & (1usize << qubit) != 0) <==> (shifted % 2 == 1)) by (bit_vector)
        requires
            qubit < usize::BITS,
            shifted == index >> qubit,
    ;
}

/// Both members of a pair are basis states of the same circuit.
pub proof fn lemma_pair_in_range(index: usize, qubit: usize, n_qubits: usize)
    requires
        n_qubits < usize::BITS,
        qubit < n_qubits,
        index < dimension(n_qubits),
    ensures
        with_bit_set(index, qubit) < dimension(n_qubits),
        with_bit_cleared(index, qubit) < dimension(n_qubits),
{
    lemma_dimension_is_shift(n_qubits);
    assert((index | (1usize << qubit)) < (1usize << n_qubits) && (index & !(1usize << qubit)) < (1usize
        << n_qubits)) by (bit_vector)
        requires
            n_qubits < usize::BITS,
            qubit < n_qubits,
            index < (1usize << n_qubits),
    ;
}

/// Setting or clearing a qubit changes that qubit and nothing else: the member
/// of the pair with the bit clear and the one with it set determine each
/// other.
pub proof fn lemma_pair_members(index: usize, qubit: usize)
    requires
        qubit < usize::BITS,
    ensures
        bit_is_set(with_bit_set(index, qubit), qubit),
        !bit_is_set(with_bit_cleared(index, qubit), qubit),
        with_bit_set(index, qubit) != with_bit_cleared(index, qubit),
        bit_is_set(index, qubit) ==> with_bit_set(index, qubit) == index,
        !bit_is_set(index, qubit) ==> with_bit_cleared(index, qubit) == index,
        with_bit_cleared(with_bit_set(index, qubit), qubit) == with_bit_cleared(index, qubit),
        with_bit_set(with_bit_cleared(index, qubit), qubit) == with_bit_set(index, qubit),
        with_bit_cleared(index, qubit) <= index <= with_bit_set(index, qubit),
{
    let m: usize = 1usize << qubit;
    assert({
        &&& (index | m) & m != 0
        &&& (index & !m) & m == 0
        &&& (index | m) != (index & !m)
        &&& (index & m != 0 ==> (index | m) == index)
        &&& (index & m == 0 ==> (index & !m) == index)
        &&& ((index | m) & !m) == (index & !m)
        &&& ((index & !m) | m) == (index | m)
        &&& (index & !m) <= index
        &&& index <= (index | m)
    }) by (bit_vector)
        requires
            qubit < usize::BITS,
            m == 1usize << qubit,
    ;
}

/// Flipping a qubit sets it where it was clear and clears it where it was set.
pub proof fn lemma_flip_is_the_partner(index: usize, qubit: usize)
    requires
        qubit < usize::BITS,
    ensures
        with_bit_flipped(index, qubit) == if bit_is_set(index, qubit) {
            with_bit_cleared(index, qubit)
        } else {
            with_bit_set(index, qubit)
        },
        with_bit_flipped(with_bit_flipped(index, qubit), qubit) == index,
{
    let m: usize = 1usize << qubit;
    assert({
        &&& (index & m != 0 ==> index ^ m == index & !m)
        &&& (index & m == 0 ==> index ^ m == index | m)
        &&& (index ^ m) ^ m == index
    }) by (bit_vector)
        requires
            qubit < usize::BITS,
            m == 1usize << qubit,
    ;
}

/// Two different pairs share no member.
pub proof fn lemma_pairs_are_disjoint(i: usize, j: usize, qubit: usize)
    requires
        qubit < usize::BITS,
        with_bit_cleared(i, qubit) != with_bit_cleared(j, qubit),
    ensures
        with_bit_set(i, qubit) != with_bit_set(j, qubit),
        with_bit_set(i, qubit) != with_bit_cleared(j, qubit),
{
    let m: usize = 1usize << qubit;
    assert(m != 0) by (bit_vector)
        requires
            qubit < usize::BITS,
            m == 1usize << qubit,
    ;
    assert((i | m) != (j | m) && (i | m) != (j & !m)) by (bit_vector)
        requires
            m != 0,
            (i & !m) != (j & !m),
    ;
}

/// Two different qubits can be set in either order.
pub proof fn lemma_setting_two_qubits(index: usize, qubit: usize, other: usize)
    requires
        qubit < usize::BITS,
        other < usize::BITS,
    ensures
        with_bit_set(with_bit_set(index, qubit), other) == with_bit_set(
            with_bit_set(index, other),
            qubit,
        ),
{
    assert(((index | (1usize << qubit)) | (1usize << other)) == ((index | (1usize << other)) | (1usize
        << qubit))) by (bit_vector);
}

/// Setting or clearing one qubit leaves every other qubit as it was.
pub proof fn lemma_other_qubit_unchanged(index: usize, qubit: usize, other: usize)
    requires
        qubit < usize::BITS,
        other < usize::BITS,
        qubit != other,
    ensures
        bit_is_set(with_bit_set(index, qubit), other) == bit_is_set(index, other),
        bit_is_set(with_bit_cleared(index, qubit), other) == bit_is_set(index, other),
{
    assert({
        &&& ((index | (1usize << qubit)) & (1usize << other) != 0) == (index & (1usize << other) != 0)
        &&& ((index & !(1usize << qubit)) & (1usize << other) != 0) == (index & (1usize << other)
            != 0)
    }) by (bit_vector)
        requires
            qubit < usize::BITS,
            other < usize::BITS,
            qubit != other,
    ;
}

} // verus!
