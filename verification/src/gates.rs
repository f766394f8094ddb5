//! The catalog of gates: the 2x2 matrix and the name of each, and how a matrix
//! acts on a pair of amplitudes.
//!
//! A pair is `[a0, a1]`: the amplitudes of the two basis states that differ
//! only in the qubit that a gate acts on, the one with the qubit 0 first.

use crate::arithmetic::Arithmetic;
use crate::arithmetic::Coefficient;
use vstd::prelude::*;

verus! {

/// A 2x2 matrix of exact entries; `m12` is row 1, column 2.
#[derive(Debug, PartialEq)]
pub struct GateMatrix<R> {
    pub m11: Coefficient<R>,
    pub m12: Coefficient<R>,
    pub m21: Coefficient<R>,
    pub m22: Coefficient<R>,
}

impl<R: Copy> Clone for GateMatrix<R> {
    fn clone(&self) -> (copy: Self)
        ensures
            copy == *self,
    {
        *self
    }
}

impl<R: Copy> Copy for GateMatrix<R> {

}

/// `out` is a value that `arith` can give for `c0 * a0 + c1 * a1`: the two
/// entries evaluated, each multiplied by its amplitude, and the products added.
pub open spec fn row_product<K: Arithmetic>(
    arith: &K,
    c0: Coefficient<K::Real>,
    a0: K::Amplitude,
    c1: Coefficient<K::Real>,
    a1: K::Amplitude,
    out: K::Amplitude,
) -> bool {
    exists|x: K::Amplitude, y: K::Amplitude, p: K::Amplitude, q: K::Amplitude|
        #![trigger call_ensures(K::times, (arith, x, a0), p), call_ensures(K::times, (arith, y, a1), q)]
        {
            &&& call_ensures(K::coefficient, (arith, c0), x)
            &&& call_ensures(K::coefficient, (arith, c1), y)
            &&& call_ensures(K::times, (arith, x, a0), p)
            &&& call_ensures(K::times, (arith, y, a1), q)
            &&& call_ensures(K::plus, (arith, p, q), out)
        }
}

/// `[b0, b1]` is a value that `arith` can give for the product of `matrix`
/// with the pair `[a0, a1]`.
pub open spec fn pair_transformed<K: Arithmetic>(
    arith: &K,
    matrix: GateMatrix<K::Real>,
    a0: K::Amplitude,
    a1: K::Amplitude,
    b0: K::Amplitude,
    b1: K::Amplitude,
) -> bool {
    &&& row_product(arith, matrix.m11, a0, matrix.m12, a1, b0)
    &&& row_product(arith, matrix.m21, a0, matrix.m22, a1, b1)
}

/// One row of a matrix times a pair: `c0 * a0 + c1 * a1`.
fn row_times_pair<K: Arithmetic>(
    arith: &K,
    c0: Coefficient<K::Real>,
    a0: K::Amplitude,
    c1: Coefficient<K::Real>,
    a1: K::Amplitude,
) -> (out: K::Amplitude)
    ensures
        row_product(arith, c0, a0, c1, a1, out),
{
    let x = arith.coefficient(c0);
    let y = arith.coefficient(c1);
    let p = arith.times(x, a0);
    let q = arith.times(y, a1);
    arith.plus(p, q)
}

/// Multiplies `matrix` by the pair `[a0, a1]`.
pub fn transform_pair<K: Arithmetic>(
    matrix: &GateMatrix<K::Real>,
    a0: K::Amplitude,
    a1: K::Amplitude,
    arith: &K,
) -> (b: (K::Amplitude, K::Amplitude))
    ensures
        pair_transformed(arith, *matrix, a0, a1, b.0, b.1),
{
    let b0 = row_times_pair(arith, matrix.m11, a0, matrix.m12, a1);
    let b1 = row_times_pair(arith, matrix.m21, a0, matrix.m22, a1);
    (b0, b1)
}

/// Multiplies `matrix` by the pair held in `state` and overwrites the pair with
/// the product. The state of a single qubit has exactly two amplitudes.
pub fn apply_matrix<K: Arithmetic>(
    matrix: &GateMatrix<K::Real>,
    state: &mut Vec<K::Amplitude>,
    arith: &K,
)
    requires
        old(state).len() == 2,
    ensures
        final(state).len() == 2,
        pair_transformed(
            arith,
            *matrix,
            old(state)[0],
            old(state)[1],
            final(state)[0],
            final(state)[1],
        ),
{
    let b = transform_pair(matrix, state[0], state[1], arith);
    state.set(0, b.0);
    state.set(1, b.1);
}

/// A single-qubit gate: a fixed 2x2 unitary matrix with a name.
pub trait QuantumGate<R: Copy> {
    /// This gate as a matrix.
    spec fn spec_matrix(&self) -> GateMatrix<R>;

    /// This gate by name.
    spec fn spec_name(&self) -> Seq<char>;

    /// The matrix of this gate: the same for every call.
    fn matrix(&self) -> (m: GateMatrix<R>)
        ensures
            m == self.spec_matrix(),
    ;

    /// This gate by name.
    fn name(&self) -> (label: &'static str)
        ensures
            label@ == self.spec_name(),
    ;

    /// Multiplies the matrix of this gate by the pair held in `state` and
    /// overwrites the pair with the product.
    fn apply<K: Arithmetic<Real = R>>(&self, state: &mut Vec<K::Amplitude>, arith: &K)
        requires
            old(state).len() == 2,
        ensures
            final(state).len() == 2,
            pair_transformed(
                arith,
                self.spec_matrix(),
                old(state)[0],
                old(state)[1],
                final(state)[0],
                final(state)[1],
            ),
    ;
}

/// Pauli-X, the NOT gate: `[[0, 1], [1, 0]]`.
#[derive(Clone, Copy, Debug)]
pub struct XGate;

impl<R: Copy> QuantumGate<R> for XGate {
    open spec fn spec_matrix(&self) -> GateMatrix<R> {
        GateMatrix {
            m11: Coefficient::Zero,
            m12: Coefficient::One,
            m21: Coefficient::One,
            m22: Coefficient::Zero,
        }
    }

    open spec fn spec_name(&self) -> Seq<char> {
        "Pauli-X"@
    }

    fn matrix(&self) -> (m: GateMatrix<R>) {
        GateMatrix {
            m11: Coefficient::Zero,
            m12: Coefficient::One,
            m21: Coefficient::One,
            m22: Coefficient::Zero,
        }
    }

    fn name(&self) -> (label: &'static str) {
        "Pauli-X"
    }

    fn apply<K: Arithmetic<Real = R>>(&self, state: &mut Vec<K::Amplitude>, arith: &K) {
        let matrix: GateMatrix<R> = self.matrix();
        apply_matrix(&matrix, state, arith);
    }
}

/// Pauli-Y: `[[0, -i], [i, 0]]`.
#[derive(Clone, Copy, Debug)]
pub struct YGate;

impl<R: Copy> QuantumGate<R> for YGate {
    open spec fn spec_matrix(&self) -> GateMatrix<R> {
        GateMatrix {
            m11: Coefficient::Zero,
            m12: Coefficient::MinusI,
            m21: Coefficient::I,
            m22: Coefficient::Zero,
        }
    }

    open spec fn spec_name(&self) -> Seq<char> {
        "Pauli-Y"@
    }

    fn matrix(&self) -> (m: GateMatrix<R>) {
        GateMatrix {
            m11: Coefficient::Zero,
            m12: Coefficient::MinusI,
            m21: Coefficient::I,
            m22: Coefficient::Zero,
        }
    }

    fn name(&self) -> (label: &'static str) {
        "Pauli-Y"
    }

    fn apply<K: Arithmetic<Real = R>>(&self, state: &mut Vec<K::Amplitude>, arith: &K) {
        let matrix: GateMatrix<R> = self.matrix();
        apply_matrix(&matrix, state, arith);
    }
}

/// Pauli-Z: `[[1, 0], [0, -1]]`.
#[derive(Clone, Copy, Debug)]
pub struct ZGate;

impl<R: Copy> QuantumGate<R> for ZGate {
    open spec fn spec_matrix(&self) -> GateMatrix<R> {
        GateMatrix {
            m11: Coefficient::One,
            m12: Coefficient::Zero,
            m21: Coefficient::Zero,
            m22: Coefficient::MinusOne,
        }
    }

    open spec fn spec_name(&self) -> Seq<char> {
        "Pauli-Z"@
    }

    fn matrix(&self) -> (m: GateMatrix<R>) {
        GateMatrix {
            m11: Coefficient::One,
            m12: Coefficient::Zero,
            m21: Coefficient::Zero,
            m22: Coefficient::MinusOne,
        }
    }

    fn name(&self) -> (label: &'static str) {
        "Pauli-Z"
    }

    fn apply<K: Arithmetic<Real = R>>(&self, state: &mut Vec<K::Amplitude>, arith: &K) {
        let matrix: GateMatrix<R> = self.matrix();
        apply_matrix(&matrix, state, arith);
    }
}

/// Hadamard: `1/sqrt(2) * [[1, 1], [1, -1]]`.
#[derive(Clone, Copy, Debug)]
pub struct HadamardGate;

impl<R: Copy> QuantumGate<R> for HadamardGate {
    open spec fn spec_matrix(&self) -> GateMatrix<R> {
        GateMatrix {
            m11: Coefficient::InvSqrt2,
            m12: Coefficient::InvSqrt2,
            m21: Coefficient::InvSqrt2,
            m22: Coefficient::MinusInvSqrt2,
        }
    }

    open spec fn spec_name(&self) -> Seq<char> {
        "Hadamard"@
    }

    fn matrix(&self) -> (m: GateMatrix<R>) {
        GateMatrix {
            m11: Coefficient::InvSqrt2,
            m12: Coefficient::InvSqrt2,
            m21: Coefficient::InvSqrt2,
            m22: Coefficient::MinusInvSqrt2,
        }
    }

    fn name(&self) -> (label: &'static str) {
        "Hadamard"
    }

    fn apply<K: Arithmetic<Real = R>>(&self, state: &mut Vec<K::Amplitude>, arith: &K) {
        let matrix: GateMatrix<R> = self.matrix();
        apply_matrix(&matrix, state, arith);
    }
}

/// The phase gate S: `[[1, 0], [0, i]]`.
#[derive(Clone, Copy, Debug)]
pub struct PhaseGate;

impl<R: Copy> QuantumGate<R> for PhaseGate {
    open spec fn spec_matrix(&self) -> GateMatrix<R> {
        GateMatrix {
            m11: Coefficient::One,
            m12: Coefficient::Zero,
            m21: Coefficient::Zero,
            m22: Coefficient::I,
        }
    }

    open spec fn spec_name(&self) -> Seq<char> {
        "Phase"@
    }

    fn matrix(&self) -> (m: GateMatrix<R>) {
        GateMatrix {
            m11: Coefficient::One,
            m12: Coefficient::Zero,
            m21: Coefficient::Zero,
            m22: Coefficient::I,
        }
    }

    fn name(&self) -> (label: &'static str) {
        "Phase"
    }

    fn apply<K: Arithmetic<Real = R>>(&self, state: &mut Vec<K::Amplitude>, arith: &K) {
        let matrix: GateMatrix<R> = self.matrix();
        apply_matrix(&matrix, state, arith);
    }
}

/// The T gate: `[[1, 0], [0, e^(i*pi/4)]]`.
#[derive(Clone, Copy, Debug)]
pub struct TGate;

impl<R: Copy> QuantumGate<R> for TGate {
    open spec fn spec_matrix(&self) -> GateMatrix<R> {
        GateMatrix {
            m11: Coefficient::One,
            m12: Coefficient::Zero,
            m21: Coefficient::Zero,
            m22: Coefficient::ExpIPi4,
        }
    }

    open spec fn spec_name(&self) -> Seq<char> {
        "T"@
    }

    fn matrix(&self) -> (m: GateMatrix<R>) {
        GateMatrix {
            m11: Coefficient::One,
            m12: Coefficient::Zero,
            m21: Coefficient::Zero,
            m22: Coefficient::ExpIPi4,
        }
    }

    fn name(&self) -> (label: &'static str) {
        "T"
    }

    fn apply<K: Arithmetic<Real = R>>(&self, state: &mut Vec<K::Amplitude>, arith: &K) {
        let matrix: GateMatrix<R> = self.matrix();
        apply_matrix(&matrix, state, arith);
    }
}

/// A real rotation by `theta` radians: `[[cos, -sin], [sin, cos]]`.
#[derive(Debug)]
pub struct RotationGate<R> {
    theta: R,
}

impl<R: Copy> Clone for RotationGate<R> {
    fn clone(&self) -> (copy: Self)
        ensures
            copy == *self,
    {
        *self
    }
}

impl<R: Copy> Copy for RotationGate<R> {

}

impl<R: Copy> RotationGate<R> {
    /// The angle of the rotation, in radians.
    pub closed spec fn theta(&self) -> R {
        self.theta
    }

    /// The rotation by `theta` radians.
    pub fn new(theta: R) -> (gate: Self)
        ensures
            gate.theta() == theta,
    {
        Self { theta }
    }
}

/// The matrix of the rotation by `theta`.
pub open spec fn rotation_matrix<R>(theta: R) -> GateMatrix<R> {
    GateMatrix {
        m11: Coefficient::Cos(theta),
        m12: Coefficient::MinusSin(theta),
        m21: Coefficient::Sin(theta),
        m22: Coefficient::Cos(theta),
    }
}

impl<R: Copy> QuantumGate<R> for RotationGate<R> {
    open spec fn spec_matrix(&self) -> GateMatrix<R> {
        rotation_matrix(self.theta())
    }

    open spec fn spec_name(&self) -> Seq<char> {
        "Rotation"@
    }

    fn matrix(&self) -> (m: GateMatrix<R>) {
        GateMatrix {
            m11: Coefficient::Cos(self.theta),
            m12: Coefficient::MinusSin(self.theta),
            m21: Coefficient::Sin(self.theta),
            m22: Coefficient::Cos(self.theta),
        }
    }

    fn name(&self) -> (label: &'static str) {
        "Rotation"
    }

    fn apply<K: Arithmetic<Real = R>>(&self, state: &mut Vec<K::Amplitude>, arith: &K) {
        let matrix: GateMatrix<R> = self.matrix();
        apply_matrix(&matrix, state, arith);
    }
}

/// The basis state of two qubits in which qubit `control` is 1 and the other
/// qubit is 0: index 1 for the control 0 and index 2 for the control 1.
pub open spec fn control_alone(control: usize) -> int {
    if control == 0 {
        1
    } else {
        2
    }
}

/// What the controlled NOT makes of a state of two qubits: the two amplitudes
/// of the basis states in which qubit `control` is 1 change places, and the
/// other two stay. Those two basis states are `control_alone(control)` and 3,
/// and they differ in the other qubit, the target.
pub open spec fn cnot_applied<A>(control: usize, before: Seq<A>) -> Seq<A> {
    before.update(control_alone(control), before[3]).update(3, before[control_alone(control)])
}

/// The controlled NOT of a register of two qubits.
#[derive(Clone, Copy, Debug)]
pub struct CNOTGate;

impl CNOTGate {
    /// Flips qubit `target` where qubit `control` is 1, in a state of two
    /// qubits: with the control 1 and the target 0 the amplitudes of `|10>` and
    /// `|11>` (indices 2 and 3) change places, with the control 0 and the
    /// target 1 those of `|01>` and `|11>` (indices 1 and 3).
    ///
    /// This is `QuantumCircuit::apply_controlled_gate` with Pauli-X on two
    /// qubits, done without arithmetic. The state has four amplitudes, and
    /// control and target are the two qubits, one each.
    pub fn apply_controlled<A: Copy>(&self, state: &mut Vec<A>, control: usize, target: usize)
        requires
            old(state).len() == 4,
            control < 2,
            target < 2,
            control != target,
        ensures
            final(state)@ == cnot_applied(control, old(state)@),
    {
        let low: usize = if control == 0 {
            1
        } else {
            2
        };
        let first = state[low];
        let second = state[3];
        state.set(low, second);
        state.set(3, first);
    }
}

/// `matrix` is the matrix of a gate of the catalog.
pub open spec fn in_catalog<R: Copy>(matrix: GateMatrix<R>) -> bool {
    ||| matrix == QuantumGate::<R>::spec_matrix(&XGate)
    ||| matrix == QuantumGate::<R>::spec_matrix(&YGate)
    ||| matrix == QuantumGate::<R>::spec_matrix(&ZGate)
    ||| matrix == QuantumGate::<R>::spec_matrix(&HadamardGate)
    ||| matrix == QuantumGate::<R>::spec_matrix(&PhaseGate)
    ||| matrix == QuantumGate::<R>::spec_matrix(&TGate)
    ||| exists|theta: R| matrix == #[trigger] rotation_matrix(theta)
}

} // verus!
