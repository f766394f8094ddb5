use nalgebra::Complex;
use quantum_simulator::gates::{apply_matrix, transform_pair};
use quantum_simulator::{
    Arithmetic, CNOTGate, Coefficient, GateMatrix, HadamardGate, PhaseGate, QuantumGate,
    RotationGate, TGate, XGate, YGate, ZGate,
};
use quantum_simulator::Coefficient::{ExpIPi4, InvSqrt2, MinusI, MinusInvSqrt2, MinusOne, One, Zero, I};
use std::f64::consts::PI;

/// Double-precision complex arithmetic.
struct Floats;

impl Arithmetic for Floats {
    type Amplitude = Complex<f64>;
    type Real = f64;

    fn coefficient(&self, entry: Coefficient<f64>) -> Complex<f64> {
        let sqrt_2_inv = 1.0 / (2.0_f64.sqrt());
        match entry {
            Coefficient::Zero => Complex::new(0.0, 0.0),
            Coefficient::One => Complex::new(1.0, 0.0),
            Coefficient::MinusOne => Complex::new(-1.0, 0.0),
            Coefficient::I => Complex::new(0.0, 1.0),
            Coefficient::MinusI => Complex::new(0.0, -1.0),
            Coefficient::InvSqrt2 => Complex::new(sqrt_2_inv, 0.0),
            Coefficient::MinusInvSqrt2 => Complex::new(-sqrt_2_inv, 0.0),
            Coefficient::ExpIPi4 => Complex::new((PI / 4.0).cos(), (PI / 4.0).sin()),
            Coefficient::Cos(theta) => Complex::new(theta.cos(), 0.0),
            Coefficient::Sin(theta) => Complex::new(theta.sin(), 0.0),
            Coefficient::MinusSin(theta) => Complex::new(-theta.sin(), 0.0),
        }
    }

    fn times(&self, a: Complex<f64>, b: Complex<f64>) -> Complex<f64> {
        a * b
    }

    fn plus(&self, a: Complex<f64>, b: Complex<f64>) -> Complex<f64> {
        a + b
    }

    fn norm_sqr(&self, a: Complex<f64>) -> f64 {
        a.norm_sqr()
    }

    fn scaled_down(&self, a: Complex<f64>, norm: f64) -> Complex<f64> {
        a / Complex::new(norm, 0.0)
    }

    fn zero(&self) -> f64 {
        0.0
    }

    fn sum(&self, p: f64, q: f64) -> f64 {
        p + q
    }

    fn complement(&self, p: f64) -> f64 {
        1.0 - p
    }

    fn sqrt(&self, p: f64) -> f64 {
        p.sqrt()
    }

    fn less_than(&self, x: f64, y: f64) -> bool {
        x < y
    }

    fn is_zero(&self, p: f64) -> bool {
        p == 0.0
    }

    fn near_one(&self, p: f64, decimals: u32) -> bool {
        (p - 1.0).abs() < 10.0_f64.powi(-(decimals as i32))
    }
}

fn complex_eq(a: Complex<f64>, b: Complex<f64>, epsilon: f64) -> bool {
    (a.re - b.re).abs() < epsilon && (a.im - b.im).abs() < epsilon
}

fn matrix_of<G: QuantumGate<f64>>(gate: &G) -> GateMatrix<f64> {
    gate.matrix()
}

fn name_of<G: QuantumGate<f64>>(gate: &G) -> &'static str {
    gate.name()
}

#[test]
fn test_x_gate() {
    let mut state = vec![Complex::new(1.0, 0.0), Complex::new(0.0, 0.0)];
    let gate = XGate;
    gate.apply(&mut state, &Floats);
    assert!(complex_eq(state[0], Complex::new(0.0, 0.0), 1e-10));
    assert!(complex_eq(state[1], Complex::new(1.0, 0.0), 1e-10));
}

#[test]
fn test_hadamard_gate() {
    let mut state = vec![Complex::new(1.0, 0.0), Complex::new(0.0, 0.0)];
    let gate = HadamardGate;
    gate.apply(&mut state, &Floats);
    let sqrt_2_inv = 1.0 / (2.0_f64.sqrt());
    assert!(complex_eq(state[0], Complex::new(sqrt_2_inv, 0.0), 1e-10));
    assert!(complex_eq(state[1], Complex::new(sqrt_2_inv, 0.0), 1e-10));
}

#[test]
fn test_rotation_gate() {
    let mut state = vec![Complex::new(1.0, 0.0), Complex::new(0.0, 0.0)];
    let gate = RotationGate::new(PI / 2.0);
    gate.apply(&mut state, &Floats);
    assert!(complex_eq(state[0], Complex::new(0.0, 0.0), 1e-10));
    assert!(complex_eq(state[1], Complex::new(1.0, 0.0), 1e-10));
}

#[test]
fn test_phase_gate() {
    let mut state = vec![
        Complex::new(1.0 / 2.0_f64.sqrt(), 0.0),
        Complex::new(1.0 / 2.0_f64.sqrt(), 0.0),
    ];
    let gate = PhaseGate;
    gate.apply(&mut state, &Floats);
    assert!(complex_eq(
        state[0],
        Complex::new(1.0 / 2.0_f64.sqrt(), 0.0),
        1e-10
    ));
    assert!(complex_eq(
        state[1],
        Complex::new(0.0, 1.0 / 2.0_f64.sqrt()),
        1e-10
    ));
}

#[test]
fn x_gate_exchanges_the_pair_exactly() {
    let mut state = vec![Complex::new(0.25, -0.5), Complex::new(3.0, 4.0)];
    XGate.apply(&mut state, &Floats);
    assert_eq!(state, vec![Complex::new(3.0, 4.0), Complex::new(0.25, -0.5)]);
}

#[test]
fn y_gate_multiplies_by_i_and_exchanges() {
    // [[0, -i], [i, 0]] * [a0, a1] = [-i * a1, i * a0]
    let mut state = vec![Complex::new(1.0, 2.0), Complex::new(3.0, 4.0)];
    YGate.apply(&mut state, &Floats);
    assert!(complex_eq(state[0], Complex::new(4.0, -3.0), 1e-12));
    assert!(complex_eq(state[1], Complex::new(-2.0, 1.0), 1e-12));
}

#[test]
fn z_gate_negates_the_second_amplitude() {
    let mut state = vec![Complex::new(1.0, 2.0), Complex::new(3.0, 4.0)];
    ZGate.apply(&mut state, &Floats);
    assert!(complex_eq(state[0], Complex::new(1.0, 2.0), 1e-12));
    assert!(complex_eq(state[1], Complex::new(-3.0, -4.0), 1e-12));
}

#[test]
fn hadamard_gate_on_one() {
    // H|1> = (|0> - |1>) / sqrt(2)
    let mut state = vec![Complex::new(0.0, 0.0), Complex::new(1.0, 0.0)];
    HadamardGate.apply(&mut state, &Floats);
    let h = std::f64::consts::FRAC_1_SQRT_2;
    assert!(complex_eq(state[0], Complex::new(h, 0.0), 1e-12));
    assert!(complex_eq(state[1], Complex::new(-h, 0.0), 1e-12));
}

#[test]
fn t_gate_turns_the_second_amplitude_by_an_eighth() {
    let mut state = vec![Complex::new(1.0, 0.0), Complex::new(1.0, 0.0)];
    TGate.apply(&mut state, &Floats);
    let h = std::f64::consts::FRAC_1_SQRT_2;
    assert!(complex_eq(state[0], Complex::new(1.0, 0.0), 1e-12));
    assert!(complex_eq(state[1], Complex::new(h, h), 1e-12));
}

#[test]
fn t_gate_twice_is_the_phase_gate() {
    let start = vec![Complex::new(0.6, 0.0), Complex::new(0.0, 0.8)];
    let mut twice = start.clone();
    TGate.apply(&mut twice, &Floats);
    TGate.apply(&mut twice, &Floats);
    let mut phase = start.clone();
    PhaseGate.apply(&mut phase, &Floats);
    assert!(complex_eq(twice[0], phase[0], 1e-12));
    assert!(complex_eq(twice[1], phase[1], 1e-12));
}

#[test]
fn rotation_by_a_third_of_pi() {
    // [[cos, -sin], [sin, cos]] * [1, 2] at theta = pi / 3
    let mut state = vec![Complex::new(1.0, 0.0), Complex::new(2.0, 0.0)];
    RotationGate::new(PI / 3.0).apply(&mut state, &Floats);
    let (sin, cos) = (PI / 3.0).sin_cos();
    assert!(complex_eq(state[0], Complex::new(cos - 2.0 * sin, 0.0), 1e-12));
    assert!(complex_eq(state[1], Complex::new(sin + 2.0 * cos, 0.0), 1e-12));
    assert!(complex_eq(state[0], Complex::new(0.5 - 3.0_f64.sqrt(), 0.0), 1e-12));
    assert!(complex_eq(state[1], Complex::new(3.0_f64.sqrt() / 2.0 + 1.0, 0.0), 1e-12));
}

#[test]
fn matrices_of_the_catalog() {
    assert_eq!(matrix_of(&XGate), GateMatrix { m11: Zero, m12: One, m21: One, m22: Zero });
    assert_eq!(matrix_of(&YGate), GateMatrix { m11: Zero, m12: MinusI, m21: I, m22: Zero });
    assert_eq!(matrix_of(&ZGate), GateMatrix { m11: One, m12: Zero, m21: Zero, m22: MinusOne });
    assert_eq!(
        matrix_of(&HadamardGate),
        GateMatrix { m11: InvSqrt2, m12: InvSqrt2, m21: InvSqrt2, m22: MinusInvSqrt2 }
    );
    assert_eq!(matrix_of(&PhaseGate), GateMatrix { m11: One, m12: Zero, m21: Zero, m22: I });
    assert_eq!(matrix_of(&TGate), GateMatrix { m11: One, m12: Zero, m21: Zero, m22: ExpIPi4 });
    assert_eq!(
        matrix_of(&RotationGate::new(0.75)),
        GateMatrix {
            m11: Coefficient::Cos(0.75),
            m12: Coefficient::MinusSin(0.75),
            m21: Coefficient::Sin(0.75),
            m22: Coefficient::Cos(0.75),
        }
    );
}

#[test]
fn matrix_is_the_same_on_every_call() {
    let gate = RotationGate::new(1.25);
    assert_eq!(matrix_of(&gate), matrix_of(&gate));
    assert_eq!(matrix_of(&HadamardGate), matrix_of(&HadamardGate));
}

#[test]
fn names_of_the_catalog() {
    assert_eq!(name_of(&XGate), "Pauli-X");
    assert_eq!(name_of(&YGate), "Pauli-Y");
    assert_eq!(name_of(&ZGate), "Pauli-Z");
    assert_eq!(name_of(&HadamardGate), "Hadamard");
    assert_eq!(name_of(&PhaseGate), "Phase");
    assert_eq!(name_of(&TGate), "T");
    assert_eq!(name_of(&RotationGate::new(0.5)), "Rotation");
}

#[test]
fn transform_pair_is_the_matrix_product() {
    let matrix = matrix_of(&HadamardGate);
    let (b0, b1) = transform_pair(&matrix, Complex::new(3.0, 1.0), Complex::new(1.0, -1.0), &Floats);
    let h = std::f64::consts::FRAC_1_SQRT_2;
    assert!(complex_eq(b0, Complex::new(4.0 * h, 0.0), 1e-12));
    assert!(complex_eq(b1, Complex::new(2.0 * h, 2.0 * h), 1e-12));
}

#[test]
fn apply_matrix_overwrites_the_pair() {
    let matrix = matrix_of(&ZGate);
    let mut state = vec![Complex::new(0.5, 0.0), Complex::new(0.0, 0.5)];
    apply_matrix(&matrix, &mut state, &Floats);
    assert_eq!(state.len(), 2);
    assert!(complex_eq(state[0], Complex::new(0.5, 0.0), 1e-12));
    assert!(complex_eq(state[1], Complex::new(0.0, -0.5), 1e-12));
}

#[test]
fn cnot_with_control_one_exchanges_two_and_three() {
    let mut state = vec![1u8, 2, 3, 4];
    CNOTGate.apply_controlled(&mut state, 1, 0);
    assert_eq!(state, vec![1, 2, 4, 3]);
}

#[test]
fn cnot_with_control_zero_exchanges_one_and_three() {
    let mut state = vec![1u8, 2, 3, 4];
    CNOTGate.apply_controlled(&mut state, 0, 1);
    assert_eq!(state, vec![1, 4, 3, 2]);
}

#[test]
fn cnot_flips_the_target_where_the_control_is_one() {
    // |01>, index 1: qubit 0 is one, so with the control 0 the target 1 flips
    let mut state = vec![
        Complex::new(0.0, 0.0),
        Complex::new(1.0, 0.0),
        Complex::new(0.0, 0.0),
        Complex::new(0.0, 0.0),
    ];
    CNOTGate.apply_controlled(&mut state, 0, 1);
    assert_eq!(state[1], Complex::new(0.0, 0.0));
    assert_eq!(state[3], Complex::new(1.0, 0.0));
    // |11>, index 3: with the control 1 the target 0 flips, to |10>
    CNOTGate.apply_controlled(&mut state, 1, 0);
    assert_eq!(state[3], Complex::new(0.0, 0.0));
    assert_eq!(state[2], Complex::new(1.0, 0.0));
    // there qubit 0 is zero: the control 0 leaves the state
    CNOTGate.apply_controlled(&mut state, 0, 1);
    assert_eq!(state[2], Complex::new(1.0, 0.0));
}

#[test]
fn cnot_twice_gives_the_state_back() {
    for (control, target) in [(0usize, 1usize), (1, 0)] {
        let mut state = vec![1u8, 2, 3, 4];
        CNOTGate.apply_controlled(&mut state, control, target);
        assert_ne!(state, vec![1, 2, 3, 4]);
        CNOTGate.apply_controlled(&mut state, control, target);
        assert_eq!(state, vec![1, 2, 3, 4]);
    }
}

fn weight_of(state: &[Complex<f64>]) -> f64 {
    state.iter().map(|a| a.norm_sqr()).sum()
}

fn pairs() -> Vec<Vec<Complex<f64>>> {
    vec![
        vec![Complex::new(1.0, 0.0), Complex::new(0.0, 0.0)],
        vec![Complex::new(0.0, 0.0), Complex::new(0.0, 1.0)],
        vec![Complex::new(0.6, 0.0), Complex::new(0.0, 0.8)],
        vec![Complex::new(0.5, -0.5), Complex::new(-0.5, 0.5)],
        vec![Complex::new(3.0, -4.0), Complex::new(-12.0, 5.0)],
    ]
}

fn keeps_the_weight<G: QuantumGate<f64>>(gate: &G) -> bool {
    pairs().into_iter().all(|pair| {
        let mut state = pair.clone();
        gate.apply(&mut state, &Floats);
        (weight_of(&state) - weight_of(&pair)).abs() < 1e-12 * weight_of(&pair)
    })
}

fn undoes_itself<G: QuantumGate<f64>>(gate: &G) -> bool {
    pairs().into_iter().all(|pair| {
        let mut state = pair.clone();
        gate.apply(&mut state, &Floats);
        gate.apply(&mut state, &Floats);
        complex_eq(state[0], pair[0], 1e-12) && complex_eq(state[1], pair[1], 1e-12)
    })
}

#[test]
fn every_gate_of_the_catalog_keeps_the_weight_of_a_pair() {
    assert!(keeps_the_weight(&XGate));
    assert!(keeps_the_weight(&YGate));
    assert!(keeps_the_weight(&ZGate));
    assert!(keeps_the_weight(&HadamardGate));
    assert!(keeps_the_weight(&PhaseGate));
    assert!(keeps_the_weight(&TGate));
    for theta in [0.0, 0.3, 1.0, PI / 2.0, 2.5, -4.0] {
        assert!(keeps_the_weight(&RotationGate::new(theta)));
    }
}

#[test]
fn pauli_gates_and_hadamard_undo_themselves() {
    assert!(undoes_itself(&XGate));
    assert!(undoes_itself(&YGate));
    assert!(undoes_itself(&ZGate));
    assert!(undoes_itself(&HadamardGate));
    assert!(!undoes_itself(&PhaseGate));
    assert!(!undoes_itself(&TGate));
    assert!(!undoes_itself(&RotationGate::new(0.3)));
}

#[test]
fn entries_are_the_numbers_that_their_names_say() {
    let h = std::f64::consts::FRAC_1_SQRT_2;
    assert_eq!(Floats.coefficient(Zero), Complex::new(0.0, 0.0));
    assert_eq!(Floats.coefficient(One), Complex::new(1.0, 0.0));
    assert_eq!(Floats.coefficient(MinusOne), Complex::new(-1.0, 0.0));
    assert_eq!(Floats.coefficient(I), Complex::new(0.0, 1.0));
    assert_eq!(Floats.coefficient(MinusI), Complex::new(0.0, -1.0));
    assert!(complex_eq(Floats.coefficient(InvSqrt2), Complex::new(h, 0.0), 1e-15));
    assert!(complex_eq(Floats.coefficient(MinusInvSqrt2), Complex::new(-h, 0.0), 1e-15));
    assert!(complex_eq(Floats.coefficient(ExpIPi4), Complex::new(h, h), 1e-15));
    assert!(complex_eq(
        Floats.coefficient(Coefficient::Cos(PI / 3.0)),
        Complex::new(0.5, 0.0),
        1e-15
    ));
    assert!(complex_eq(
        Floats.coefficient(Coefficient::Sin(PI / 6.0)),
        Complex::new(0.5, 0.0),
        1e-15
    ));
    assert!(complex_eq(
        Floats.coefficient(Coefficient::MinusSin(PI / 6.0)),
        Complex::new(-0.5, 0.0),
        1e-15
    ));
}
