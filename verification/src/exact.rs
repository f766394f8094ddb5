//! Exact arithmetic: the gates of the catalog are unitary.
//!
//! The laws here read the numbers of an arithmetic as exact complex and real
//! numbers and hold where the arithmetic computes without rounding. There the
//! entries of a matrix are the numbers that their names say, every gate of the
//! catalog keeps the squared magnitude of every pair, Pauli-X, Pauli-Y,
//! Pauli-Z and Hadamard undo themselves, and gates on different qubits
//! commute.
//!
//! The laws on gates ask only that entries, products and sums are those of
//! complex numbers (`computes_complex_numbers`); only the law on the
//! probability of a basis state asks for exact squared magnitudes as well
//! (`computes_exactly`).

use crate::arithmetic::Arithmetic;
use crate::arithmetic::Coefficient;
use crate::basis::bit_is_set;
use crate::basis::dimension;
use crate::basis::lemma_dimension_is_shift;
use crate::basis::with_bit_set;
use crate::conservation::is_exact;
use crate::conservation::keeps_weight_of_pairs;
use crate::conservation::law_controlled_gate_keeps_total_weight;
use crate::conservation::law_gate_keeps_total_weight;
use crate::conservation::total_weight;
use crate::conservation::weight_below;
use crate::gates::in_catalog;
use crate::gates::pair_transformed;
use crate::gates::rotation_matrix;
use crate::gates::row_product;
use crate::gates::GateMatrix;
use crate::gates::HadamardGate;
use crate::gates::PhaseGate;
use crate::gates::QuantumGate;
use crate::gates::TGate;
use crate::gates::XGate;
use crate::gates::YGate;
use crate::gates::ZGate;
use crate::laws::commute_on_four;
use crate::laws::exchanges_pairs;
use crate::laws::law_gates_on_different_qubits_commute;
use crate::laws::law_self_inverse_gate_twice;
use crate::laws::self_inverse_on_pairs;
use crate::semantics::controlled_gate_applied;
use crate::semantics::gate_applied;
use crate::semantics::is_ground_state;
use vstd::prelude::*;

verus! {

/// A reading of the numbers of an arithmetic as exact complex and real
/// numbers.
pub struct Reading<K: Arithmetic> {
    /// The real part of an amplitude.
    pub re: spec_fn(K::Amplitude) -> real,
    /// The imaginary part of an amplitude.
    pub im: spec_fn(K::Amplitude) -> real,
    /// The real number that a `K::Real` stands for.
    pub value: spec_fn(K::Real) -> real,
    /// The cosine of an angle in radians.
    pub cos: spec_fn(real) -> real,
    /// The sine of an angle in radians.
    pub sin: spec_fn(real) -> real,
    /// The positive square root of one half.
    pub inv_sqrt2: real,
}

impl<K: Arithmetic> Reading<K> {
    /// The squared magnitude of an amplitude.
    pub open spec fn weight(self) -> spec_fn(K::Amplitude) -> real {
        |a: K::Amplitude| (self.re)(a) * (self.re)(a) + (self.im)(a) * (self.im)(a)
    }

    /// The real part of the complex number that `entry` denotes.
    pub open spec fn entry_re(self, entry: Coefficient<K::Real>) -> real {
        match entry {
            Coefficient::Zero => 0 as real,
            Coefficient::One => 1 as real,
            Coefficient::MinusOne => -(1 as real),
            Coefficient::I => 0 as real,
            Coefficient::MinusI => 0 as real,
            Coefficient::InvSqrt2 => self.inv_sqrt2,
            Coefficient::MinusInvSqrt2 => -self.inv_sqrt2,
            Coefficient::ExpIPi4 => self.inv_sqrt2,
            Coefficient::Cos(theta) => (self.cos)((self.value)(theta)),
            Coefficient::Sin(theta) => (self.sin)((self.value)(theta)),
            Coefficient::MinusSin(theta) => -(self.sin)((self.value)(theta)),
        }
    }

    /// The imaginary part of the complex number that `entry` denotes.
    pub open spec fn entry_im(self, entry: Coefficient<K::Real>) -> real {
        match entry {
            Coefficient::I => 1 as real,
            Coefficient::MinusI => -(1 as real),
            Coefficient::ExpIPi4 => self.inv_sqrt2,
            _ => 0 as real,
        }
    }

    /// The constants of the reading are what their names say: `inv_sqrt2` is
    /// the positive root of one half, the squares of the cosine and the sine
    /// of an angle add up to 1, and two amplitudes with the same real and the
    /// same imaginary part are the same amplitude.
    pub open spec fn is_sound(self) -> bool {
        &&& self.inv_sqrt2 > 0 as real
        &&& (2 as real) * (self.inv_sqrt2 * self.inv_sqrt2) == 1 as real
        &&& forall|angle: real|
            #![trigger (self.cos)(angle)]
            #![trigger (self.sin)(angle)]
            (self.cos)(angle) * (self.cos)(angle) + (self.sin)(angle) * (self.sin)(angle)
                == 1 as real
        &&& forall|a: K::Amplitude, b: K::Amplitude|
            #![trigger (self.re)(a), (self.re)(b)]
            (self.re)(a) == (self.re)(b) && (self.im)(a) == (self.im)(b) ==> a == b
    }
}

/// `arith` computes with the complex numbers of `reading`: an entry of a
/// matrix is evaluated to the number that it denotes, and products and sums of
/// amplitudes are those of complex numbers, with no rounding. This is all
/// that a gate needs.
pub open spec fn computes_complex_numbers<K: Arithmetic>(arith: &K, reading: Reading<K>) -> bool {
    &&& reading.is_sound()
    &&& forall|entry: Coefficient<K::Real>, x: K::Amplitude|
        #![trigger call_ensures(K::coefficient, (arith, entry), x)]
        call_ensures(K::coefficient, (arith, entry), x) ==> (reading.re)(x) == reading.entry_re(
            entry,
        ) && (reading.im)(x) == reading.entry_im(entry)
    &&& forall|a: K::Amplitude, b: K::Amplitude, r: K::Amplitude|
        #![trigger call_ensures(K::times, (arith, a, b), r)]
        call_ensures(K::times, (arith, a, b), r) ==> (reading.re)(r) == (reading.re)(a) * (
        reading.re)(b) - (reading.im)(a) * (reading.im)(b) && (reading.im)(r) == (reading.re)(a)
            * (reading.im)(b) + (reading.im)(a) * (reading.re)(b)
    &&& forall|a: K::Amplitude, b: K::Amplitude, r: K::Amplitude|
        #![trigger call_ensures(K::plus, (arith, a, b), r)]
        call_ensures(K::plus, (arith, a, b), r) ==> (reading.re)(r) == (reading.re)(a) + (
        reading.re)(b) && (reading.im)(r) == (reading.im)(a) + (reading.im)(b)
}

/// `arith` computes exactly under `reading`: with complex numbers, and with
/// exact squared magnitudes, sums, roots and quotients as well.
pub open spec fn computes_exactly<K: Arithmetic>(arith: &K, reading: Reading<K>) -> bool {
    &&& computes_complex_numbers(arith, reading)
    &&& is_exact(arith, reading.weight(), reading.value)
}

/// A squared magnitude is not negative.
pub proof fn lemma_squared_magnitude_is_not_negative<K: Arithmetic>(reading: Reading<K>)
    ensures
        forall|a: K::Amplitude| 0 as real <= #[trigger] (reading.weight())(a),
{
    assert forall|a: K::Amplitude| 0 as real <= #[trigger] (reading.weight())(a) by {
        let x = (reading.re)(a);
        let y = (reading.im)(a);
        assert(x * x >= 0 as real) by (nonlinear_arith);
        assert(y * y >= 0 as real) by (nonlinear_arith);
    }
}

/// In exact arithmetic, a row of a matrix times a pair is the complex number
/// `c0 * a0 + c1 * a1`.
pub proof fn lemma_row_is_the_complex_product<K: Arithmetic>(
    arith: &K,
    reading: Reading<K>,
    c0: Coefficient<K::Real>,
    a0: K::Amplitude,
    c1: Coefficient<K::Real>,
    a1: K::Amplitude,
    out: K::Amplitude,
)
    requires
        computes_complex_numbers(arith, reading),
        row_product(arith, c0, a0, c1, a1, out),
    ensures
        (reading.re)(out) == reading.entry_re(c0) * (reading.re)(a0) - reading.entry_im(c0) * (
        reading.im)(a0) + (reading.entry_re(c1) * (reading.re)(a1) - reading.entry_im(c1) * (
        reading.im)(a1)),
        (reading.im)(out) == reading.entry_re(c0) * (reading.im)(a0) + reading.entry_im(c0) * (
        reading.re)(a0) + (reading.entry_re(c1) * (reading.im)(a1) + reading.entry_im(c1) * (
        reading.re)(a1)),
{
    let (x, y, p, q) = choose|x: K::Amplitude, y: K::Amplitude, p: K::Amplitude, q: K::Amplitude|
        #![trigger call_ensures(K::times, (arith, x, a0), p), call_ensures(K::times, (arith, y, a1), q)]
        {
            &&& call_ensures(K::coefficient, (arith, c0), x)
            &&& call_ensures(K::coefficient, (arith, c1), y)
            &&& call_ensures(K::times, (arith, x, a0), p)
            &&& call_ensures(K::times, (arith, y, a1), q)
            &&& call_ensures(K::plus, (arith, p, q), out)
        };
}

/// `(h*u + h*v)^2 + (h*u - h*v)^2` is `u^2 + v^2` where `2 * h^2` is 1.
proof fn lemma_half_and_half(h: real, u: real, v: real)
    requires
        (2 as real) * (h * h) == 1 as real,
    ensures
        (h * u + h * v) * (h * u + h * v) + (h * u - h * v) * (h * u - h * v) == u * u + v * v,
{
    let a = h * u;
    let b = h * v;
    let hh = h * h;
    let uu = u * u;
    let vv = v * v;
    assert((a + b) * (a + b) + (a - b) * (a - b) == (2 as real) * (a * a) + (2 as real) * (b * b))
        by (nonlinear_arith);
    assert(a * a == hh * uu) by (nonlinear_arith)
        requires
            a == h * u,
            hh == h * h,
            uu == u * u,
    ;
    assert(b * b == hh * vv) by (nonlinear_arith)
        requires
            b == h * v,
            hh == h * h,
            vv == v * v,
    ;
    assert((2 as real) * (hh * uu) + (2 as real) * (hh * vv) == uu + vv) by (nonlinear_arith)
        requires
            (2 as real) * hh == 1 as real,
    ;
}

/// `(c*u - s*v)^2 + (s*u + c*v)^2` is `u^2 + v^2` where `c^2 + s^2` is 1.
proof fn lemma_rotation_keeps_length(c: real, s: real, u: real, v: real)
    requires
        c * c + s * s == 1 as real,
    ensures
        (c * u - s * v) * (c * u - s * v) + (s * u + c * v) * (s * u + c * v) == u * u + v * v,
{
    let a = c * u;
    let b = s * v;
    let p = s * u;
    let q = c * v;
    let cc = c * c;
    let ss = s * s;
    let uu = u * u;
    let vv = v * v;
    assert((a - b) * (a - b) + (p + q) * (p + q) == a * a + b * b + p * p + q * q - (2 as real) * (a
        * b) + (2 as real) * (p * q)) by (nonlinear_arith);
    assert(a * b == p * q) by (nonlinear_arith)
        requires
            a == c * u,
            b == s * v,
            p == s * u,
            q == c * v,
    ;
    assert(a * a == cc * uu) by (nonlinear_arith)
        requires
            a == c * u,
            cc == c * c,
            uu == u * u,
    ;
    assert(b * b == ss * vv) by (nonlinear_arith)
        requires
            b == s * v,
            ss == s * s,
            vv == v * v,
    ;
    assert(p * p == ss * uu) by (nonlinear_arith)
        requires
            p == s * u,
            ss == s * s,
            uu == u * u,
    ;
    assert(q * q == cc * vv) by (nonlinear_arith)
        requires
            q == c * v,
            cc == c * c,
            vv == v * v,
    ;
    assert(cc * uu + ss * vv + ss * uu + cc * vv == uu + vv) by (nonlinear_arith)
        requires
            cc + ss == 1 as real,
    ;
}

/// `h * (h*u + h*v) + h * (h*u - h*v)` is `u` where `2 * h^2` is 1.
proof fn lemma_half_twice(h: real, u: real, v: real)
    requires
        (2 as real) * (h * h) == 1 as real,
    ensures
        h * (h * u + h * v) + h * (h * u - h * v) == u,
        h * (h * u + h * v) - h * (h * u - h * v) == v,
{
    let a = h * u;
    let b = h * v;
    let hh = h * h;
    assert(h * (a + b) + h * (a - b) == (2 as real) * (h * a)) by (nonlinear_arith);
    assert(h * (a + b) - h * (a - b) == (2 as real) * (h * b)) by (nonlinear_arith);
    assert(h * a == hh * u) by (nonlinear_arith)
        requires
            a == h * u,
            hh == h * h,
    ;
    assert(h * b == hh * v) by (nonlinear_arith)
        requires
            b == h * v,
            hh == h * h,
    ;
    assert((2 as real) * (hh * u) == u) by (nonlinear_arith)
        requires
            (2 as real) * hh == 1 as real,
    ;
    assert((2 as real) * (hh * v) == v) by (nonlinear_arith)
        requires
            (2 as real) * hh == 1 as real,
    ;
}

/// Pauli-X keeps the squared magnitude of every pair, in exact arithmetic.
pub proof fn law_x_keeps_weight<K: Arithmetic>(arith: &K, reading: Reading<K>)
    requires
        computes_complex_numbers(arith, reading),
    ensures
        keeps_weight_of_pairs(
            arith,
            QuantumGate::<K::Real>::spec_matrix(&XGate),
            reading.weight(),
        ),
{
    let matrix = QuantumGate::<K::Real>::spec_matrix(&XGate);
    let weight = reading.weight();
    assert forall|a0: K::Amplitude, a1: K::Amplitude, b0: K::Amplitude, b1: K::Amplitude|
        #![trigger pair_transformed(arith, matrix, a0, a1, b0, b1)]
        pair_transformed(arith, matrix, a0, a1, b0, b1) implies weight(b0) + weight(b1) == weight(
        a0,
    ) + weight(a1) by {
        lemma_row_is_the_complex_product(arith, reading, matrix.m11, a0, matrix.m12, a1, b0);
        lemma_row_is_the_complex_product(arith, reading, matrix.m21, a0, matrix.m22, a1, b1);
        let x0 = (reading.re)(a0);
        let y0 = (reading.im)(a0);
        let x1 = (reading.re)(a1);
        let y1 = (reading.im)(a1);
        assert((reading.re)(b0) == x1 && (reading.im)(b0) == y1);
        assert((reading.re)(b1) == x0 && (reading.im)(b1) == y0);
    }
}

/// Pauli-Y keeps the squared magnitude of every pair, in exact arithmetic.
pub proof fn law_y_keeps_weight<K: Arithmetic>(arith: &K, reading: Reading<K>)
    requires
        computes_complex_numbers(arith, reading),
    ensures
        keeps_weight_of_pairs(
            arith,
            QuantumGate::<K::Real>::spec_matrix(&YGate),
            reading.weight(),
        ),
{
    let matrix = QuantumGate::<K::Real>::spec_matrix(&YGate);
    let weight = reading.weight();
    assert forall|a0: K::Amplitude, a1: K::Amplitude, b0: K::Amplitude, b1: K::Amplitude|
        #![trigger pair_transformed(arith, matrix, a0, a1, b0, b1)]
        pair_transformed(arith, matrix, a0, a1, b0, b1) implies weight(b0) + weight(b1) == weight(
        a0,
    ) + weight(a1) by {
        lemma_row_is_the_complex_product(arith, reading, matrix.m11, a0, matrix.m12, a1, b0);
        lemma_row_is_the_complex_product(arith, reading, matrix.m21, a0, matrix.m22, a1, b1);
        let x0 = (reading.re)(a0);
        let y0 = (reading.im)(a0);
        let x1 = (reading.re)(a1);
        let y1 = (reading.im)(a1);
        assert((reading.re)(b0) == y1 && (reading.im)(b0) == -x1);
        assert((reading.re)(b1) == -y0 && (reading.im)(b1) == x0);
        assert((-x1) * (-x1) == x1 * x1) by (nonlinear_arith);
        assert((-y0) * (-y0) == y0 * y0) by (nonlinear_arith);
    }
}

/// Pauli-Z keeps the squared magnitude of every pair, in exact arithmetic.
pub proof fn law_z_keeps_weight<K: Arithmetic>(arith: &K, reading: Reading<K>)
    requires
        computes_complex_numbers(arith, reading),
    ensures
        keeps_weight_of_pairs(
            arith,
            QuantumGate::<K::Real>::spec_matrix(&ZGate),
            reading.weight(),
        ),
{
    let matrix = QuantumGate::<K::Real>::spec_matrix(&ZGate);
    let weight = reading.weight();
    assert forall|a0: K::Amplitude, a1: K::Amplitude, b0: K::Amplitude, b1: K::Amplitude|
        #![trigger pair_transformed(arith, matrix, a0, a1, b0, b1)]
        pair_transformed(arith, matrix, a0, a1, b0, b1) implies weight(b0) + weight(b1) == weight(
        a0,
    ) + weight(a1) by {
        lemma_row_is_the_complex_product(arith, reading, matrix.m11, a0, matrix.m12, a1, b0);
        lemma_row_is_the_complex_product(arith, reading, matrix.m21, a0, matrix.m22, a1, b1);
        let x0 = (reading.re)(a0);
        let y0 = (reading.im)(a0);
        let x1 = (reading.re)(a1);
        let y1 = (reading.im)(a1);
        assert((reading.re)(b0) == x0 && (reading.im)(b0) == y0);
        assert((reading.re)(b1) == -x1 && (reading.im)(b1) == -y1);
        assert((-x1) * (-x1) == x1 * x1) by (nonlinear_arith);
        assert((-y1) * (-y1) == y1 * y1) by (nonlinear_arith);
    }
}

/// The phase gate keeps the squared magnitude of every pair, in exact
/// arithmetic.
pub proof fn law_phase_keeps_weight<K: Arithmetic>(arith: &K, reading: Reading<K>)
    requires
        computes_complex_numbers(arith, reading),
    ensures
        keeps_weight_of_pairs(
            arith,
            QuantumGate::<K::Real>::spec_matrix(&PhaseGate),
            reading.weight(),
        ),
{
    let matrix = QuantumGate::<K::Real>::spec_matrix(&PhaseGate);
    let weight = reading.weight();
    assert forall|a0: K::Amplitude, a1: K::Amplitude, b0: K::Amplitude, b1: K::Amplitude|
        #![trigger pair_transformed(arith, matrix, a0, a1, b0, b1)]
        pair_transformed(arith, matrix, a0, a1, b0, b1) implies weight(b0) + weight(b1) == weight(
        a0,
    ) + weight(a1) by {
        lemma_row_is_the_complex_product(arith, reading, matrix.m11, a0, matrix.m12, a1, b0);
        lemma_row_is_the_complex_product(arith, reading, matrix.m21, a0, matrix.m22, a1, b1);
        let x0 = (reading.re)(a0);
        let y0 = (reading.im)(a0);
        let x1 = (reading.re)(a1);
        let y1 = (reading.im)(a1);
        assert((reading.re)(b0) == x0 && (reading.im)(b0) == y0);
        assert((reading.re)(b1) == -y1 && (reading.im)(b1) == x1);
        assert((-y1) * (-y1) == y1 * y1) by (nonlinear_arith);
    }
}

/// Hadamard keeps the squared magnitude of every pair, in exact arithmetic.
pub proof fn law_hadamard_keeps_weight<K: Arithmetic>(arith: &K, reading: Reading<K>)
    requires
        computes_complex_numbers(arith, reading),
    ensures
        keeps_weight_of_pairs(
            arith,
            QuantumGate::<K::Real>::spec_matrix(&HadamardGate),
            reading.weight(),
        ),
{
    let matrix = QuantumGate::<K::Real>::spec_matrix(&HadamardGate);
    let weight = reading.weight();
    assert forall|a0: K::Amplitude, a1: K::Amplitude, b0: K::Amplitude, b1: K::Amplitude|
        #![trigger pair_transformed(arith, matrix, a0, a1, b0, b1)]
        pair_transformed(arith, matrix, a0, a1, b0, b1) implies weight(b0) + weight(b1) == weight(
        a0,
    ) + weight(a1) by {
        lemma_row_is_the_complex_product(arith, reading, matrix.m11, a0, matrix.m12, a1, b0);
        lemma_row_is_the_complex_product(arith, reading, matrix.m21, a0, matrix.m22, a1, b1);
        let x0 = (reading.re)(a0);
        let y0 = (reading.im)(a0);
        let x1 = (reading.re)(a1);
        let y1 = (reading.im)(a1);
        let h = reading.inv_sqrt2;
        assert(reading.entry_re(matrix.m11) == h && reading.entry_im(matrix.m11) == 0 as real);
        assert(reading.entry_re(matrix.m12) == h && reading.entry_im(matrix.m12) == 0 as real);
        assert(reading.entry_re(matrix.m21) == h && reading.entry_im(matrix.m21) == 0 as real);
        assert(reading.entry_re(matrix.m22) == -h && reading.entry_im(matrix.m22) == 0 as real);
        assert((-h) * x1 == -(h * x1)) by (nonlinear_arith);
        assert((-h) * y1 == -(h * y1)) by (nonlinear_arith);
        assert((reading.re)(b0) == h * x0 + h * x1 && (reading.im)(b0) == h * y0 + h * y1);
        assert((reading.re)(b1) == h * x0 - h * x1 && (reading.im)(b1) == h * y0 - h * y1);
        lemma_half_and_half(h, x0, x1);
        lemma_half_and_half(h, y0, y1);
    }
}

/// The T gate keeps the squared magnitude of every pair, in exact arithmetic.
pub proof fn law_t_keeps_weight<K: Arithmetic>(arith: &K, reading: Reading<K>)
    requires
        computes_complex_numbers(arith, reading),
    ensures
        keeps_weight_of_pairs(
            arith,
            QuantumGate::<K::Real>::spec_matrix(&TGate),
            reading.weight(),
        ),
{
    let matrix = QuantumGate::<K::Real>::spec_matrix(&TGate);
    let weight = reading.weight();
    assert forall|a0: K::Amplitude, a1: K::Amplitude, b0: K::Amplitude, b1: K::Amplitude|
        #![trigger pair_transformed(arith, matrix, a0, a1, b0, b1)]
        pair_transformed(arith, matrix, a0, a1, b0, b1) implies weight(b0) + weight(b1) == weight(
        a0,
    ) + weight(a1) by {
        lemma_row_is_the_complex_product(arith, reading, matrix.m11, a0, matrix.m12, a1, b0);
        lemma_row_is_the_complex_product(arith, reading, matrix.m21, a0, matrix.m22, a1, b1);
        let x0 = (reading.re)(a0);
        let y0 = (reading.im)(a0);
        let x1 = (reading.re)(a1);
        let y1 = (reading.im)(a1);
        let h = reading.inv_sqrt2;
        assert(reading.entry_re(matrix.m11) == 1 as real && reading.entry_im(matrix.m11) == 0 as real);
        assert(reading.entry_re(matrix.m12) == 0 as real && reading.entry_im(matrix.m12) == 0 as real);
        assert(reading.entry_re(matrix.m21) == 0 as real && reading.entry_im(matrix.m21) == 0 as real);
        assert(reading.entry_re(matrix.m22) == h && reading.entry_im(matrix.m22) == h);
        assert((reading.re)(b0) == x0 && (reading.im)(b0) == y0);
        assert((reading.re)(b1) == h * x1 - h * y1 && (reading.im)(b1) == h * x1 + h * y1);
        lemma_half_and_half(h, x1, y1);
    }
}

/// A rotation keeps the squared magnitude of every pair, in exact arithmetic.
pub proof fn law_rotation_keeps_weight<K: Arithmetic>(
    arith: &K,
    reading: Reading<K>,
    theta: K::Real,
)
    requires
        computes_complex_numbers(arith, reading),
    ensures
        keeps_weight_of_pairs(arith, rotation_matrix(theta), reading.weight()),
{
    let matrix = rotation_matrix::<K::Real>(theta);
    let weight = reading.weight();
    assert forall|a0: K::Amplitude, a1: K::Amplitude, b0: K::Amplitude, b1: K::Amplitude|
        #![trigger pair_transformed(arith, matrix, a0, a1, b0, b1)]
        pair_transformed(arith, matrix, a0, a1, b0, b1) implies weight(b0) + weight(b1) == weight(
        a0,
    ) + weight(a1) by {
        lemma_row_is_the_complex_product(arith, reading, matrix.m11, a0, matrix.m12, a1, b0);
        lemma_row_is_the_complex_product(arith, reading, matrix.m21, a0, matrix.m22, a1, b1);
        let x0 = (reading.re)(a0);
        let y0 = (reading.im)(a0);
        let x1 = (reading.re)(a1);
        let y1 = (reading.im)(a1);
        let c = (reading.cos)((reading.value)(theta));
        let s = (reading.sin)((reading.value)(theta));
        assert(reading.entry_re(matrix.m11) == c && reading.entry_im(matrix.m11) == 0 as real);
        assert(reading.entry_re(matrix.m12) == -s && reading.entry_im(matrix.m12) == 0 as real);
        assert(reading.entry_re(matrix.m21) == s && reading.entry_im(matrix.m21) == 0 as real);
        assert(reading.entry_re(matrix.m22) == c && reading.entry_im(matrix.m22) == 0 as real);
        assert((-s) * x1 == -(s * x1)) by (nonlinear_arith);
        assert((-s) * y1 == -(s * y1)) by (nonlinear_arith);
        assert((reading.re)(b0) == c * x0 - s * x1 && (reading.im)(b0) == c * y0 - s * y1);
        assert((reading.re)(b1) == s * x0 + c * x1 && (reading.im)(b1) == s * y0 + c * y1);
        lemma_rotation_keeps_length(c, s, x0, x1);
        lemma_rotation_keeps_length(c, s, y0, y1);
    }
}

/// Pauli-X undoes itself on every pair, in exact arithmetic.
pub proof fn law_x_undoes_itself<K: Arithmetic>(arith: &K, reading: Reading<K>)
    requires
        computes_complex_numbers(arith, reading),
    ensures
        self_inverse_on_pairs(arith, QuantumGate::<K::Real>::spec_matrix(&XGate)),
{
    let matrix = QuantumGate::<K::Real>::spec_matrix(&XGate);
    assert forall|
        a0: K::Amplitude,
        a1: K::Amplitude,
        b0: K::Amplitude,
        b1: K::Amplitude,
        c0: K::Amplitude,
        c1: K::Amplitude,
    |
        #![trigger pair_transformed(arith, matrix, a0, a1, b0, b1), pair_transformed(arith, matrix, b0, b1, c0, c1)]
        pair_transformed(arith, matrix, a0, a1, b0, b1) && pair_transformed(
            arith,
            matrix,
            b0,
            b1,
            c0,
            c1,
        ) implies c0 == a0 && c1 == a1 by {
        lemma_row_is_the_complex_product(arith, reading, matrix.m11, a0, matrix.m12, a1, b0);
        lemma_row_is_the_complex_product(arith, reading, matrix.m21, a0, matrix.m22, a1, b1);
        lemma_row_is_the_complex_product(arith, reading, matrix.m11, b0, matrix.m12, b1, c0);
        lemma_row_is_the_complex_product(arith, reading, matrix.m21, b0, matrix.m22, b1, c1);
        let x0 = (reading.re)(a0);
        let y0 = (reading.im)(a0);
        let x1 = (reading.re)(a1);
        let y1 = (reading.im)(a1);
        assert((reading.re)(b0) == x1 && (reading.im)(b0) == y1);
        assert((reading.re)(b1) == x0 && (reading.im)(b1) == y0);
        assert((reading.re)(c0) == x0 && (reading.im)(c0) == y0);
        assert((reading.re)(c1) == x1 && (reading.im)(c1) == y1);
    }
}

/// Pauli-Y undoes itself on every pair, in exact arithmetic.
pub proof fn law_y_undoes_itself<K: Arithmetic>(arith: &K, reading: Reading<K>)
    requires
        computes_complex_numbers(arith, reading),
    ensures
        self_inverse_on_pairs(arith, QuantumGate::<K::Real>::spec_matrix(&YGate)),
{
    let matrix = QuantumGate::<K::Real>::spec_matrix(&YGate);
    assert forall|
        a0: K::Amplitude,
        a1: K::Amplitude,
        b0: K::Amplitude,
        b1: K::Amplitude,
        c0: K::Amplitude,
        c1: K::Amplitude,
    |
        #![trigger pair_transformed(arith, matrix, a0, a1, b0, b1), pair_transformed(arith, matrix, b0, b1, c0, c1)]
        pair_transformed(arith, matrix, a0, a1, b0, b1) && pair_transformed(
            arith,
            matrix,
            b0,
            b1,
            c0,
            c1,
        ) implies c0 == a0 && c1 == a1 by {
        lemma_row_is_the_complex_product(arith, reading, matrix.m11, a0, matrix.m12, a1, b0);
        lemma_row_is_the_complex_product(arith, reading, matrix.m21, a0, matrix.m22, a1, b1);
        lemma_row_is_the_complex_product(arith, reading, matrix.m11, b0, matrix.m12, b1, c0);
        lemma_row_is_the_complex_product(arith, reading, matrix.m21, b0, matrix.m22, b1, c1);
        let x0 = (reading.re)(a0);
        let y0 = (reading.im)(a0);
        let x1 = (reading.re)(a1);
        let y1 = (reading.im)(a1);
        assert((reading.re)(b0) == y1 && (reading.im)(b0) == -x1);
        assert((reading.re)(b1) == -y0 && (reading.im)(b1) == x0);
        assert((reading.re)(c0) == x0 && (reading.im)(c0) == y0);
        assert((reading.re)(c1) == x1 && (reading.im)(c1) == y1);
    }
}

/// Pauli-Z undoes itself on every pair, in exact arithmetic.
pub proof fn law_z_undoes_itself<K: Arithmetic>(arith: &K, reading: Reading<K>)
    requires
        computes_complex_numbers(arith, reading),
    ensures
        self_inverse_on_pairs(arith, QuantumGate::<K::Real>::spec_matrix(&ZGate)),
{
    let matrix = QuantumGate::<K::Real>::spec_matrix(&ZGate);
    assert forall|
        a0: K::Amplitude,
        a1: K::Amplitude,
        b0: K::Amplitude,
        b1: K::Amplitude,
        c0: K::Amplitude,
        c1: K::Amplitude,
    |
        #![trigger pair_transformed(arith, matrix, a0, a1, b0, b1), pair_transformed(arith, matrix, b0, b1, c0, c1)]
        pair_transformed(arith, matrix, a0, a1, b0, b1) && pair_transformed(
            arith,
            matrix,
            b0,
            b1,
            c0,
            c1,
        ) implies c0 == a0 && c1 == a1 by {
        lemma_row_is_the_complex_product(arith, reading, matrix.m11, a0, matrix.m12, a1, b0);
        lemma_row_is_the_complex_product(arith, reading, matrix.m21, a0, matrix.m22, a1, b1);
        lemma_row_is_the_complex_product(arith, reading, matrix.m11, b0, matrix.m12, b1, c0);
        lemma_row_is_the_complex_product(arith, reading, matrix.m21, b0, matrix.m22, b1, c1);
        let x0 = (reading.re)(a0);
        let y0 = (reading.im)(a0);
        let x1 = (reading.re)(a1);
        let y1 = (reading.im)(a1);
        assert((reading.re)(b0) == x0 && (reading.im)(b0) == y0);
        assert((reading.re)(b1) == -x1 && (reading.im)(b1) == -y1);
        assert((reading.re)(c0) == x0 && (reading.im)(c0) == y0);
        assert((reading.re)(c1) == x1 && (reading.im)(c1) == y1);
    }
}

/// Hadamard undoes itself on every pair, in exact arithmetic.
pub proof fn law_hadamard_undoes_itself<K: Arithmetic>(arith: &K, reading: Reading<K>)
    requires
        computes_complex_numbers(arith, reading),
    ensures
        self_inverse_on_pairs(arith, QuantumGate::<K::Real>::spec_matrix(&HadamardGate)),
{
    let matrix = QuantumGate::<K::Real>::spec_matrix(&HadamardGate);
    assert forall|
        a0: K::Amplitude,
        a1: K::Amplitude,
        b0: K::Amplitude,
        b1: K::Amplitude,
        c0: K::Amplitude,
        c1: K::Amplitude,
    |
        #![trigger pair_transformed(arith, matrix, a0, a1, b0, b1), pair_transformed(arith, matrix, b0, b1, c0, c1)]
        pair_transformed(arith, matrix, a0, a1, b0, b1) && pair_transformed(
            arith,
            matrix,
            b0,
            b1,
            c0,
            c1,
        ) implies c0 == a0 && c1 == a1 by {
        lemma_row_is_the_complex_product(arith, reading, matrix.m11, a0, matrix.m12, a1, b0);
        lemma_row_is_the_complex_product(arith, reading, matrix.m21, a0, matrix.m22, a1, b1);
        lemma_row_is_the_complex_product(arith, reading, matrix.m11, b0, matrix.m12, b1, c0);
        lemma_row_is_the_complex_product(arith, reading, matrix.m21, b0, matrix.m22, b1, c1);
        let x0 = (reading.re)(a0);
        let y0 = (reading.im)(a0);
        let x1 = (reading.re)(a1);
        let y1 = (reading.im)(a1);
        let h = reading.inv_sqrt2;
        assert(reading.entry_re(matrix.m11) == h && reading.entry_im(matrix.m11) == 0 as real);
        assert(reading.entry_re(matrix.m12) == h && reading.entry_im(matrix.m12) == 0 as real);
        assert(reading.entry_re(matrix.m21) == h && reading.entry_im(matrix.m21) == 0 as real);
        assert(reading.entry_re(matrix.m22) == -h && reading.entry_im(matrix.m22) == 0 as real);
        assert((-h) * x1 == -(h * x1)) by (nonlinear_arith);
        assert((-h) * y1 == -(h * y1)) by (nonlinear_arith);
        assert((reading.re)(b0) == h * x0 + h * x1 && (reading.im)(b0) == h * y0 + h * y1);
        assert((reading.re)(b1) == h * x0 - h * x1 && (reading.im)(b1) == h * y0 - h * y1);
        let u0 = h * x0 + h * x1;
        let u1 = h * x0 - h * x1;
        let v0 = h * y0 + h * y1;
        let v1 = h * y0 - h * y1;
        assert((-h) * u1 == -(h * u1)) by (nonlinear_arith);
        assert((-h) * v1 == -(h * v1)) by (nonlinear_arith);
        assert((reading.re)(c0) == h * u0 + h * u1 && (reading.im)(c0) == h * v0 + h * v1);
        assert((reading.re)(c1) == h * u0 - h * u1 && (reading.im)(c1) == h * v0 - h * v1);
        lemma_half_twice(h, x0, x1);
        lemma_half_twice(h, y0, y1);
        assert((reading.re)(c0) == x0 && (reading.im)(c0) == y0);
        assert((reading.re)(c1) == x1 && (reading.im)(c1) == y1);
    }
}


/// Every gate of the catalog is unitary: it keeps the squared magnitude of
/// every pair, in exact arithmetic.
pub proof fn law_catalog_keeps_weight<K: Arithmetic>(
    arith: &K,
    reading: Reading<K>,
    matrix: GateMatrix<K::Real>,
)
    requires
        computes_complex_numbers(arith, reading),
        in_catalog(matrix),
    ensures
        keeps_weight_of_pairs(arith, matrix, reading.weight()),
{
    if matrix == QuantumGate::<K::Real>::spec_matrix(&XGate) {
        law_x_keeps_weight(arith, reading);
    } else if matrix == QuantumGate::<K::Real>::spec_matrix(&YGate) {
        law_y_keeps_weight(arith, reading);
    } else if matrix == QuantumGate::<K::Real>::spec_matrix(&ZGate) {
        law_z_keeps_weight(arith, reading);
    } else if matrix == QuantumGate::<K::Real>::spec_matrix(&HadamardGate) {
        law_hadamard_keeps_weight(arith, reading);
    } else if matrix == QuantumGate::<K::Real>::spec_matrix(&PhaseGate) {
        law_phase_keeps_weight(arith, reading);
    } else if matrix == QuantumGate::<K::Real>::spec_matrix(&TGate) {
        law_t_keeps_weight(arith, reading);
    } else {
        let theta = choose|theta: K::Real| matrix == #[trigger] rotation_matrix(theta);
        law_rotation_keeps_weight(arith, reading, theta);
    }
}

/// A gate of the catalog takes a normalized state to a normalized state, in
/// exact arithmetic.
pub proof fn law_catalog_gate_keeps_normalization<K: Arithmetic>(
    arith: &K,
    reading: Reading<K>,
    matrix: GateMatrix<K::Real>,
    n_qubits: usize,
    target: usize,
    before: Seq<K::Amplitude>,
    after: Seq<K::Amplitude>,
)
    requires
        n_qubits < usize::BITS,
        target < n_qubits,
        before.len() == dimension(n_qubits),
        computes_complex_numbers(arith, reading),
        in_catalog(matrix),
        total_weight(reading.weight(), before) == 1 as real,
        gate_applied(arith, matrix, target, before, after),
    ensures
        total_weight(reading.weight(), after) == 1 as real,
{
    law_catalog_keeps_weight(arith, reading, matrix);
    law_gate_keeps_total_weight(
        arith,
        matrix,
        reading.weight(),
        n_qubits,
        target,
        before,
        after,
    );
}

/// A controlled gate of the catalog takes a normalized state to a normalized
/// state, in exact arithmetic.
pub proof fn law_controlled_catalog_gate_keeps_normalization<K: Arithmetic>(
    arith: &K,
    reading: Reading<K>,
    matrix: GateMatrix<K::Real>,
    n_qubits: usize,
    control: usize,
    target: usize,
    before: Seq<K::Amplitude>,
    after: Seq<K::Amplitude>,
)
    requires
        n_qubits < usize::BITS,
        control < n_qubits,
        target < n_qubits,
        control != target,
        before.len() == dimension(n_qubits),
        computes_complex_numbers(arith, reading),
        in_catalog(matrix),
        total_weight(reading.weight(), before) == 1 as real,
        controlled_gate_applied(arith, matrix, control, target, before, after),
    ensures
        total_weight(reading.weight(), after) == 1 as real,
{
    law_catalog_keeps_weight(arith, reading, matrix);
    law_controlled_gate_keeps_total_weight(
        arith,
        matrix,
        reading.weight(),
        n_qubits,
        control,
        target,
        before,
        after,
    );
}

/// Hadamard applied twice to a qubit gives back the state it started from, in
/// exact arithmetic.
pub proof fn law_hadamard_gate_twice<K: Arithmetic>(
    arith: &K,
    reading: Reading<K>,
    n_qubits: usize,
    target: usize,
    start: Seq<K::Amplitude>,
    middle: Seq<K::Amplitude>,
    end: Seq<K::Amplitude>,
)
    requires
        n_qubits < usize::BITS,
        target < n_qubits,
        start.len() == dimension(n_qubits),
        computes_complex_numbers(arith, reading),
        gate_applied(
            arith,
            QuantumGate::<K::Real>::spec_matrix(&HadamardGate),
            target,
            start,
            middle,
        ),
        gate_applied(arith, QuantumGate::<K::Real>::spec_matrix(&HadamardGate), target, middle, end),
    ensures
        end == start,
{
    law_hadamard_undoes_itself(arith, reading);
    law_self_inverse_gate_twice(
        arith,
        QuantumGate::<K::Real>::spec_matrix(&HadamardGate),
        n_qubits,
        target,
        start,
        middle,
        end,
    );
}


/// Pauli-X exchanges the two amplitudes of every pair, in exact arithmetic.
pub proof fn law_x_exchanges_pairs_exactly<K: Arithmetic>(arith: &K, reading: Reading<K>)
    requires
        computes_complex_numbers(arith, reading),
    ensures
        exchanges_pairs(arith, QuantumGate::<K::Real>::spec_matrix(&XGate)),
{
    let matrix = QuantumGate::<K::Real>::spec_matrix(&XGate);
    assert forall|a0: K::Amplitude, a1: K::Amplitude, b0: K::Amplitude, b1: K::Amplitude|
        #![trigger pair_transformed(arith, matrix, a0, a1, b0, b1)]
        pair_transformed(arith, matrix, a0, a1, b0, b1) implies b0 == a1 && b1 == a0 by {
        lemma_row_is_the_complex_product(arith, reading, matrix.m11, a0, matrix.m12, a1, b0);
        lemma_row_is_the_complex_product(arith, reading, matrix.m21, a0, matrix.m22, a1, b1);
        assert((reading.re)(b0) == (reading.re)(a1) && (reading.im)(b0) == (reading.im)(a1));
        assert((reading.re)(b1) == (reading.re)(a0) && (reading.im)(b1) == (reading.im)(a0));
    }
}

/// Hadamard on a qubit of the ground state gives an even superposition, in
/// exact arithmetic: the basis states `|0...0>` and the one with only the
/// target qubit set have the probability one half each.
pub proof fn law_hadamard_splits_the_ground_state<K: Arithmetic>(
    arith: &K,
    reading: Reading<K>,
    n_qubits: usize,
    target: usize,
    before: Seq<K::Amplitude>,
    after: Seq<K::Amplitude>,
)
    requires
        n_qubits < usize::BITS,
        target < n_qubits,
        before.len() == dimension(n_qubits),
        computes_complex_numbers(arith, reading),
        is_ground_state(arith, before),
        gate_applied(
            arith,
            QuantumGate::<K::Real>::spec_matrix(&HadamardGate),
            target,
            before,
            after,
        ),
    ensures
        0 < with_bit_set(0, target) < after.len(),
        (2 as real) * (reading.weight())(after[0]) == 1 as real,
        (2 as real) * (reading.weight())(after[with_bit_set(0, target) as int]) == 1 as real,
{
    let matrix = QuantumGate::<K::Real>::spec_matrix(&HadamardGate);
    let h = reading.inv_sqrt2;
    let partner = with_bit_set(0, target);
    lemma_dimension_is_shift(n_qubits);
    assert(!bit_is_set(0usize, target) && 0 < (0usize | (1usize << target)) < (1usize << n_qubits))
        by (bit_vector)
        requires
            target < n_qubits < usize::BITS,
    ;
    let a0 = before[0];
    let a1 = before[partner as int];
    let b0 = after[0];
    let b1 = after[partner as int];
    assert(pair_transformed(arith, matrix, a0, a1, b0, b1));
    lemma_row_is_the_complex_product(arith, reading, matrix.m11, a0, matrix.m12, a1, b0);
    lemma_row_is_the_complex_product(arith, reading, matrix.m21, a0, matrix.m22, a1, b1);
    assert(call_ensures(K::coefficient, (arith, Coefficient::One), a0));
    assert(call_ensures(K::coefficient, (arith, Coefficient::Zero), a1));
    assert(reading.entry_re(matrix.m11) == h && reading.entry_im(matrix.m11) == 0 as real);
    assert(reading.entry_re(matrix.m12) == h && reading.entry_im(matrix.m12) == 0 as real);
    assert(reading.entry_re(matrix.m21) == h && reading.entry_im(matrix.m21) == 0 as real);
    assert(reading.entry_re(matrix.m22) == -h && reading.entry_im(matrix.m22) == 0 as real);
    assert((reading.re)(a0) == 1 as real && (reading.im)(a0) == 0 as real);
    assert((reading.re)(a1) == 0 as real && (reading.im)(a1) == 0 as real);
    assert((reading.re)(b0) == h && (reading.im)(b0) == 0 as real);
    assert((reading.re)(b1) == h && (reading.im)(b1) == 0 as real);
}


/// No part of a state weighs more than the whole: with squared magnitudes as
/// weights, which are not negative, the weight of an amplitude is at most the
/// weight of the amplitudes up to it.
proof fn lemma_part_is_at_most_the_whole<K: Arithmetic>(
    reading: Reading<K>,
    state: Seq<K::Amplitude>,
    i: int,
    upto: int,
)
    requires
        0 <= i < upto <= state.len(),
    ensures
        0 as real <= (reading.weight())(state[i]) <= weight_below(reading.weight(), state, upto),
        0 as real <= weight_below(reading.weight(), state, upto),
    decreases upto,
{
    let x = (reading.re)(state[upto - 1]);
    let y = (reading.im)(state[upto - 1]);
    assert(x * x >= 0 as real) by (nonlinear_arith);
    assert(y * y >= 0 as real) by (nonlinear_arith);
    if i < upto - 1 {
        lemma_part_is_at_most_the_whole(reading, state, i, upto - 1);
    } else {
        lemma_weight_is_not_negative(reading, state, upto - 1);
    }
}

/// A sum of squared magnitudes is not negative.
proof fn lemma_weight_is_not_negative<K: Arithmetic>(
    reading: Reading<K>,
    state: Seq<K::Amplitude>,
    upto: int,
)
    requires
        0 <= upto <= state.len(),
    ensures
        0 as real <= weight_below(reading.weight(), state, upto),
    decreases upto,
{
    if upto > 0 {
        let x = (reading.re)(state[upto - 1]);
        let y = (reading.im)(state[upto - 1]);
        assert(x * x >= 0 as real) by (nonlinear_arith);
        assert(y * y >= 0 as real) by (nonlinear_arith);
        lemma_weight_is_not_negative(reading, state, upto - 1);
    }
}

/// The probability of a basis state of a normalized state is between 0 and
/// 1, in exact arithmetic.
pub proof fn law_probability_is_between_zero_and_one<K: Arithmetic>(
    arith: &K,
    reading: Reading<K>,
    state: Seq<K::Amplitude>,
    basis_state: int,
    probability: K::Real,
)
    requires
        computes_exactly(arith, reading),
        total_weight(reading.weight(), state) == 1 as real,
        0 <= basis_state < state.len(),
        call_ensures(K::norm_sqr, (arith, state[basis_state]), probability),
    ensures
        0 as real <= (reading.value)(probability) <= 1 as real,
{
    lemma_part_is_at_most_the_whole(reading, state, basis_state, state.len() as int);
}


/// The real part of the product of the complex numbers `p` and `x`.
spec fn product_re(pr: real, pi: real, xr: real, xi: real) -> real {
    pr * xr - pi * xi
}

/// The imaginary part of the product of the complex numbers `p` and `x`.
spec fn product_im(pr: real, pi: real, xr: real, xi: real) -> real {
    pr * xi + pi * xr
}

/// A product distributes over a sum: `n * (u + v)` is `n * u + n * v`.
proof fn lemma_product_distributes(nr: real, ni: real, ur: real, ui: real, vr: real, vi: real)
    ensures
        product_re(nr, ni, ur + vr, ui + vi) == product_re(nr, ni, ur, ui) + product_re(
            nr,
            ni,
            vr,
            vi,
        ),
        product_im(nr, ni, ur + vr, ui + vi) == product_im(nr, ni, ur, ui) + product_im(
            nr,
            ni,
            vr,
            vi,
        ),
{
    assert(nr * (ur + vr) == nr * ur + nr * vr) by (nonlinear_arith);
    assert(ni * (ui + vi) == ni * ui + ni * vi) by (nonlinear_arith);
    assert(nr * (ui + vi) == nr * ui + nr * vi) by (nonlinear_arith);
    assert(ni * (ur + vr) == ni * ur + ni * vr) by (nonlinear_arith);
}

/// Two factors change places: `n * (m * a)` is `m * (n * a)`.
proof fn lemma_factors_change_places(nr: real, ni: real, mr: real, mi: real, ar: real, ai: real)
    ensures
        product_re(nr, ni, product_re(mr, mi, ar, ai), product_im(mr, mi, ar, ai)) == product_re(
            mr,
            mi,
            product_re(nr, ni, ar, ai),
            product_im(nr, ni, ar, ai),
        ),
        product_im(nr, ni, product_re(mr, mi, ar, ai), product_im(mr, mi, ar, ai)) == product_im(
            mr,
            mi,
            product_re(nr, ni, ar, ai),
            product_im(nr, ni, ar, ai),
        ),
{
    let m_rr = mr * ar;
    let m_ii = mi * ai;
    let m_ri = mr * ai;
    let m_ir = mi * ar;
    let n_rr = nr * ar;
    let n_ii = ni * ai;
    let n_ri = nr * ai;
    let n_ir = ni * ar;
    assert(nr * (m_rr - m_ii) == nr * m_rr - nr * m_ii) by (nonlinear_arith);
    assert(ni * (m_ri + m_ir) == ni * m_ri + ni * m_ir) by (nonlinear_arith);
    assert(nr * (m_ri + m_ir) == nr * m_ri + nr * m_ir) by (nonlinear_arith);
    assert(ni * (m_rr - m_ii) == ni * m_rr - ni * m_ii) by (nonlinear_arith);
    assert(mr * (n_rr - n_ii) == mr * n_rr - mr * n_ii) by (nonlinear_arith);
    assert(mi * (n_ri + n_ir) == mi * n_ri + mi * n_ir) by (nonlinear_arith);
    assert(mr * (n_ri + n_ir) == mr * n_ri + mr * n_ir) by (nonlinear_arith);
    assert(mi * (n_rr - n_ii) == mi * n_rr - mi * n_ii) by (nonlinear_arith);
    assert(nr * m_rr == mr * n_rr) by (nonlinear_arith)
        requires
            m_rr == mr * ar,
            n_rr == nr * ar,
    ;
    assert(nr * m_ii == mi * n_ri) by (nonlinear_arith)
        requires
            m_ii == mi * ai,
            n_ri == nr * ai,
    ;
    assert(ni * m_ri == mr * n_ii) by (nonlinear_arith)
        requires
            m_ri == mr * ai,
            n_ii == ni * ai,
    ;
    assert(ni * m_ir == mi * n_ir) by (nonlinear_arith)
        requires
            m_ir == mi * ar,
            n_ir == ni * ar,
    ;
    assert(nr * m_ri == mr * n_ri) by (nonlinear_arith)
        requires
            m_ri == mr * ai,
            n_ri == nr * ai,
    ;
    assert(nr * m_ir == mi * n_rr) by (nonlinear_arith)
        requires
            m_ir == mi * ar,
            n_rr == nr * ar,
    ;
    assert(ni * m_rr == mr * n_ir) by (nonlinear_arith)
        requires
            m_rr == mr * ar,
            n_ir == ni * ar,
    ;
    assert(ni * m_ii == mi * n_ii) by (nonlinear_arith)
        requires
            m_ii == mi * ai,
            n_ii == ni * ai,
    ;
}

/// A row of one matrix after a row of another, in either order:
/// `n1 * (m1*a + m2*b) + n2 * (m1*c + m2*d)` is
/// `m1 * (n1*a + n2*c) + m2 * (n1*b + n2*d)`.
proof fn lemma_rows_change_places(
    n1r: real,
    n1i: real,
    n2r: real,
    n2i: real,
    m1r: real,
    m1i: real,
    m2r: real,
    m2i: real,
    ar: real,
    ai: real,
    br: real,
    bi: real,
    cr: real,
    ci: real,
    dr: real,
    di: real,
)
    ensures
        ({
            let xr = product_re(m1r, m1i, ar, ai) + product_re(m2r, m2i, br, bi);
            let xi = product_im(m1r, m1i, ar, ai) + product_im(m2r, m2i, br, bi);
            let yr = product_re(m1r, m1i, cr, ci) + product_re(m2r, m2i, dr, di);
            let yi = product_im(m1r, m1i, cr, ci) + product_im(m2r, m2i, dr, di);
            let ur = product_re(n1r, n1i, ar, ai) + product_re(n2r, n2i, cr, ci);
            let ui = product_im(n1r, n1i, ar, ai) + product_im(n2r, n2i, cr, ci);
            let vr = product_re(n1r, n1i, br, bi) + product_re(n2r, n2i, dr, di);
            let vi = product_im(n1r, n1i, br, bi) + product_im(n2r, n2i, dr, di);
            &&& product_re(n1r, n1i, xr, xi) + product_re(n2r, n2i, yr, yi) == product_re(
                m1r,
                m1i,
                ur,
                ui,
            ) + product_re(m2r, m2i, vr, vi)
            &&& product_im(n1r, n1i, xr, xi) + product_im(n2r, n2i, yr, yi) == product_im(
                m1r,
                m1i,
                ur,
                ui,
            ) + product_im(m2r, m2i, vr, vi)
        }),
{
    let m1a_r = product_re(m1r, m1i, ar, ai);
    let m1a_i = product_im(m1r, m1i, ar, ai);
    let m2b_r = product_re(m2r, m2i, br, bi);
    let m2b_i = product_im(m2r, m2i, br, bi);
    let m1c_r = product_re(m1r, m1i, cr, ci);
    let m1c_i = product_im(m1r, m1i, cr, ci);
    let m2d_r = product_re(m2r, m2i, dr, di);
    let m2d_i = product_im(m2r, m2i, dr, di);
    let n1a_r = product_re(n1r, n1i, ar, ai);
    let n1a_i = product_im(n1r, n1i, ar, ai);
    let n2c_r = product_re(n2r, n2i, cr, ci);
    let n2c_i = product_im(n2r, n2i, cr, ci);
    let n1b_r = product_re(n1r, n1i, br, bi);
    let n1b_i = product_im(n1r, n1i, br, bi);
    let n2d_r = product_re(n2r, n2i, dr, di);
    let n2d_i = product_im(n2r, n2i, dr, di);
    lemma_product_distributes(n1r, n1i, m1a_r, m1a_i, m2b_r, m2b_i);
    lemma_product_distributes(n2r, n2i, m1c_r, m1c_i, m2d_r, m2d_i);
    lemma_product_distributes(m1r, m1i, n1a_r, n1a_i, n2c_r, n2c_i);
    lemma_product_distributes(m2r, m2i, n1b_r, n1b_i, n2d_r, n2d_i);
    lemma_factors_change_places(n1r, n1i, m1r, m1i, ar, ai);
    lemma_factors_change_places(n1r, n1i, m2r, m2i, br, bi);
    lemma_factors_change_places(n2r, n2i, m1r, m1i, cr, ci);
    lemma_factors_change_places(n2r, n2i, m2r, m2i, dr, di);
}


/// Any two matrices commute on four amplitudes, in arithmetic that computes
/// with complex numbers: so gates on different qubits can be applied in
/// either order.
pub proof fn law_matrices_commute_on_four<K: Arithmetic>(
    arith: &K,
    reading: Reading<K>,
    first: GateMatrix<K::Real>,
    second: GateMatrix<K::Real>,
)
    requires
        computes_complex_numbers(arith, reading),
    ensures
        commute_on_four(arith, first, second),
{
    assert forall|
        a00: K::Amplitude,
        a01: K::Amplitude,
        a10: K::Amplitude,
        a11: K::Amplitude,
        b00: K::Amplitude,
        b01: K::Amplitude,
        b10: K::Amplitude,
        b11: K::Amplitude,
        c00: K::Amplitude,
        c01: K::Amplitude,
        c10: K::Amplitude,
        c11: K::Amplitude,
        d00: K::Amplitude,
        d01: K::Amplitude,
        d10: K::Amplitude,
        d11: K::Amplitude,
        e00: K::Amplitude,
        e01: K::Amplitude,
        e10: K::Amplitude,
        e11: K::Amplitude,
    |
        #![trigger
            pair_transformed(arith, first, a00, a01, b00, b01),
            pair_transformed(arith, first, a10, a11, b10, b11),
            pair_transformed(arith, second, b00, b10, c00, c10),
            pair_transformed(arith, second, b01, b11, c01, c11),
            pair_transformed(arith, second, a00, a10, d00, d10),
            pair_transformed(arith, second, a01, a11, d01, d11),
            pair_transformed(arith, first, d00, d01, e00, e01),
            pair_transformed(arith, first, d10, d11, e10, e11),
        ]
        {
            &&& pair_transformed(arith, first, a00, a01, b00, b01)
            &&& pair_transformed(arith, first, a10, a11, b10, b11)
            &&& pair_transformed(arith, second, b00, b10, c00, c10)
            &&& pair_transformed(arith, second, b01, b11, c01, c11)
            &&& pair_transformed(arith, second, a00, a10, d00, d10)
            &&& pair_transformed(arith, second, a01, a11, d01, d11)
            &&& pair_transformed(arith, first, d00, d01, e00, e01)
            &&& pair_transformed(arith, first, d10, d11, e10, e11)
        } implies c00 == e00 && c01 == e01 && c10 == e10 && c11 == e11 by {
        lemma_row_is_the_complex_product(arith, reading, first.m11, a00, first.m12, a01, b00);
        lemma_row_is_the_complex_product(arith, reading, first.m21, a00, first.m22, a01, b01);
        lemma_row_is_the_complex_product(arith, reading, first.m11, a10, first.m12, a11, b10);
        lemma_row_is_the_complex_product(arith, reading, first.m21, a10, first.m22, a11, b11);
        lemma_row_is_the_complex_product(arith, reading, second.m11, b00, second.m12, b10, c00);
        lemma_row_is_the_complex_product(arith, reading, second.m21, b00, second.m22, b10, c10);
        lemma_row_is_the_complex_product(arith, reading, second.m11, b01, second.m12, b11, c01);
        lemma_row_is_the_complex_product(arith, reading, second.m21, b01, second.m22, b11, c11);
        lemma_row_is_the_complex_product(arith, reading, second.m11, a00, second.m12, a10, d00);
        lemma_row_is_the_complex_product(arith, reading, second.m21, a00, second.m22, a10, d10);
        lemma_row_is_the_complex_product(arith, reading, second.m11, a01, second.m12, a11, d01);
        lemma_row_is_the_complex_product(arith, reading, second.m21, a01, second.m22, a11, d11);
        lemma_row_is_the_complex_product(arith, reading, first.m11, d00, first.m12, d01, e00);
        lemma_row_is_the_complex_product(arith, reading, first.m21, d00, first.m22, d01, e01);
        lemma_row_is_the_complex_product(arith, reading, first.m11, d10, first.m12, d11, e10);
        lemma_row_is_the_complex_product(arith, reading, first.m21, d10, first.m22, d11, e11);
        lemma_rows_change_places(
            reading.entry_re(second.m11),
            reading.entry_im(second.m11),
            reading.entry_re(second.m12),
            reading.entry_im(second.m12),
            reading.entry_re(first.m11),
            reading.entry_im(first.m11),
            reading.entry_re(first.m12),
            reading.entry_im(first.m12),
            (reading.re)(a00),
            (reading.im)(a00),
            (reading.re)(a01),
            (reading.im)(a01),
            (reading.re)(a10),
            (reading.im)(a10),
            (reading.re)(a11),
            (reading.im)(a11),
        );
        assert((reading.re)(c00) == (reading.re)(e00) && (reading.im)(c00) == (reading.im)(e00));
        lemma_rows_change_places(
            reading.entry_re(second.m11),
            reading.entry_im(second.m11),
            reading.entry_re(second.m12),
            reading.entry_im(second.m12),
            reading.entry_re(first.m21),
            reading.entry_im(first.m21),
            reading.entry_re(first.m22),
            reading.entry_im(first.m22),
            (reading.re)(a00),
            (reading.im)(a00),
            (reading.re)(a01),
            (reading.im)(a01),
            (reading.re)(a10),
            (reading.im)(a10),
            (reading.re)(a11),
            (reading.im)(a11),
        );
        assert((reading.re)(c01) == (reading.re)(e01) && (reading.im)(c01) == (reading.im)(e01));
        lemma_rows_change_places(
            reading.entry_re(second.m21),
            reading.entry_im(second.m21),
            reading.entry_re(second.m22),
            reading.entry_im(second.m22),
            reading.entry_re(first.m11),
            reading.entry_im(first.m11),
            reading.entry_re(first.m12),
            reading.entry_im(first.m12),
            (reading.re)(a00),
            (reading.im)(a00),
            (reading.re)(a01),
            (reading.im)(a01),
            (reading.re)(a10),
            (reading.im)(a10),
            (reading.re)(a11),
            (reading.im)(a11),
        );
        assert((reading.re)(c10) == (reading.re)(e10) && (reading.im)(c10) == (reading.im)(e10));
        lemma_rows_change_places(
            reading.entry_re(second.m21),
            reading.entry_im(second.m21),
            reading.entry_re(second.m22),
            reading.entry_im(second.m22),
            reading.entry_re(first.m21),
            reading.entry_im(first.m21),
            reading.entry_re(first.m22),
            reading.entry_im(first.m22),
            (reading.re)(a00),
            (reading.im)(a00),
            (reading.re)(a01),
            (reading.im)(a01),
            (reading.re)(a10),
            (reading.im)(a10),
            (reading.re)(a11),
            (reading.im)(a11),
        );
        assert((reading.re)(c11) == (reading.re)(e11) && (reading.im)(c11) == (reading.im)(e11));
    }
}


/// Gates on different qubits commute, in arithmetic that computes with
/// complex numbers: the two orders give the same state.
pub proof fn law_gates_commute<K: Arithmetic>(
    arith: &K,
    reading: Reading<K>,
    first: GateMatrix<K::Real>,
    second: GateMatrix<K::Real>,
    n_qubits: usize,
    first_qubit: usize,
    second_qubit: usize,
    start: Seq<K::Amplitude>,
    after_first: Seq<K::Amplitude>,
    after_both: Seq<K::Amplitude>,
    after_second: Seq<K::Amplitude>,
    after_both_reversed: Seq<K::Amplitude>,
)
    requires
        n_qubits < usize::BITS,
        first_qubit < n_qubits,
        second_qubit < n_qubits,
        first_qubit != second_qubit,
        start.len() == dimension(n_qubits),
        computes_complex_numbers(arith, reading),
        gate_applied(arith, first, first_qubit, start, after_first),
        gate_applied(arith, second, second_qubit, after_first, after_both),
        gate_applied(arith, second, second_qubit, start, after_second),
        gate_applied(arith, first, first_qubit, after_second, after_both_reversed),
    ensures
        after_both == after_both_reversed,
{
    law_matrices_commute_on_four(arith, reading, first, second);
    law_gates_on_different_qubits_commute(
        arith,
        first,
        second,
        n_qubits,
        first_qubit,
        second_qubit,
        start,
        after_first,
        after_both,
        after_second,
        after_both_reversed,
    );
}

} // verus!
