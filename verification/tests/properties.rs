use nalgebra::Complex;
use quantum_simulator::basis::{clear_qubit, dimension_of, qubit_is_one, set_qubit};
use quantum_simulator::{
    Arithmetic, CNOTGate, CircuitError, Coefficient, HadamardGate, PhaseGate, QuantumCircuit,
    RotationGate, TGate, XGate, YGate, ZGate, NORMALIZATION_DECIMALS,
};
use std::f64::consts::PI;

/// Double-precision complex arithmetic.
struct Floats;

impl Arithmetic for Floats {
    type Amplitude = Complex<f64>;
    type Real = f64;

    fn coefficient(&self, entry: Coefficient<f64>) -> Complex<f64> {
        let sqrt_2_inv = 1.0 / (2.0_f64.sqrt());
        match entry {
            Coefficient::Zero => Complex::new(0.0, 0.0),
            Coefficient::One => Complex::new(1.0, 0.0),
            Coefficient::MinusOne => Complex::new(-1.0, 0.0),
            Coefficient::I => Complex::new(0.0, 1.0),
            Coefficient::MinusI => Complex::new(0.0, -1.0),
            Coefficient::InvSqrt2 => Complex::new(sqrt_2_inv, 0.0),
            Coefficient::MinusInvSqrt2 => Complex::new(-sqrt_2_inv, 0.0),
            Coefficient::ExpIPi4 => Complex::new((PI / 4.0).cos(), (PI / 4.0).sin()),
            Coefficient::Cos(theta) => Complex::new(theta.cos(), 0.0),
            Coefficient::Sin(theta) => Complex::new(theta.sin(), 0.0),
            Coefficient::MinusSin(theta) => Complex::new(-theta.sin(), 0.0),
        }
    }

    fn times(&self, a: Complex<f64>, b: Complex<f64>) -> Complex<f64> {
        a * b
    }

    fn plus(&self, a: Complex<f64>, b: Complex<f64>) -> Complex<f64> {
        a + b
    }

    fn norm_sqr(&self, a: Complex<f64>) -> f64 {
        a.norm_sqr()
    }

    fn scaled_down(&self, a: Complex<f64>, norm: f64) -> Complex<f64> {
        a / Complex::new(norm, 0.0)
    }

    fn zero(&self) -> f64 {
        0.0
    }

    fn sum(&self, p: f64, q: f64) -> f64 {
        p + q
    }

    fn complement(&self, p: f64) -> f64 {
        1.0 - p
    }

    fn sqrt(&self, p: f64) -> f64 {
        p.sqrt()
    }

    fn less_than(&self, x: f64, y: f64) -> bool {
        x < y
    }

    fn is_zero(&self, p: f64) -> bool {
        p == 0.0
    }

    fn near_one(&self, p: f64, decimals: u32) -> bool {
        (p - 1.0).abs() < 10.0_f64.powi(-(decimals as i32))
    }
}

fn distance(d: Complex<f64>) -> f64 {
    d.norm_sqr().sqrt()
}

fn near(a: &[Complex<f64>], b: &[Complex<f64>], epsilon: f64) -> bool {
    a.len() == b.len()
        && a.iter().zip(b).all(|(x, y)| (x.re - y.re).abs() < epsilon && (x.im - y.im).abs() < epsilon)
}

/// Three qubits in a state with eight different amplitudes.
fn mixed_state() -> QuantumCircuit<Complex<f64>> {
    let mut c = QuantumCircuit::new(3, &Floats).unwrap();
    c.apply_gate(HadamardGate, 0, &Floats).unwrap();
    c.apply_gate(RotationGate::new(0.4), 1, &Floats).unwrap();
    c.apply_gate(RotationGate::new(1.1), 2, &Floats).unwrap();
    c.apply_gate(TGate, 0, &Floats).unwrap();
    c.apply_gate(PhaseGate, 1, &Floats).unwrap();
    c.apply_controlled_gate(HadamardGate, 2, 0, &Floats).unwrap();
    c.apply_controlled_gate(YGate, 0, 1, &Floats).unwrap();
    c
}

fn total_probability(c: &QuantumCircuit<Complex<f64>>) -> f64 {
    (0..c.get_state().len()).map(|i| c.get_probability(i, &Floats).unwrap()).sum()
}

#[test]
fn mixed_state_has_no_two_equal_amplitudes() {
    let c = mixed_state();
    let state = c.get_state();
    for i in 0..state.len() {
        for j in 0..i {
            assert!(distance(state[i] - state[j]) > 1e-6);
        }
    }
}

#[test]
fn every_operation_keeps_the_state_normalized() {
    let mut c = QuantumCircuit::new(3, &Floats).unwrap();
    assert!(c.verify_state(&Floats));
    c.apply_gate(HadamardGate, 0, &Floats).unwrap();
    assert!(c.verify_state(&Floats));
    c.apply_gate(RotationGate::new(0.4), 1, &Floats).unwrap();
    assert!(c.verify_state(&Floats));
    c.apply_gate(YGate, 2, &Floats).unwrap();
    assert!(c.verify_state(&Floats));
    c.apply_gate(TGate, 0, &Floats).unwrap();
    assert!(c.verify_state(&Floats));
    c.apply_controlled_gate(HadamardGate, 2, 0, &Floats).unwrap();
    assert!(c.verify_state(&Floats));
    c.apply_controlled_gate(XGate, 0, 1, &Floats).unwrap();
    assert!(c.verify_state(&Floats));
    assert!((total_probability(&c) - 1.0).abs() < 1e-9);
    c.measure(1, 0.37, &Floats).unwrap();
    assert!(c.verify_state(&Floats));
    c.measure(0, 0.81, &Floats).unwrap();
    assert!(c.verify_state(&Floats));
    c.measure(2, 0.05, &Floats).unwrap();
    assert!(c.verify_state(&Floats));
    assert!((total_probability(&c) - 1.0).abs() < 1e-9);
    c.reset(&Floats);
    assert!(c.verify_state(&Floats));
}

#[test]
fn probabilities_add_up_to_one() {
    let c = mixed_state();
    assert!((total_probability(&c) - 1.0).abs() < 1e-10);
    let fresh = QuantumCircuit::new(4, &Floats).unwrap();
    assert_eq!(total_probability(&fresh), 1.0);
}

#[test]
fn verify_state_uses_ten_decimal_places() {
    assert_eq!(NORMALIZATION_DECIMALS, 10);
    assert!(Floats.near_one(1.0 + 0.9e-10, NORMALIZATION_DECIMALS));
    assert!(!Floats.near_one(1.0 + 1.1e-10, NORMALIZATION_DECIMALS));
    assert!(Floats.near_one(1.0 - 0.9e-10, NORMALIZATION_DECIMALS));
    assert!(!Floats.near_one(1.0 - 1.1e-10, NORMALIZATION_DECIMALS));
}

#[test]
fn x_twice_restores_the_state() {
    for target in 0..3 {
        let mut c = mixed_state();
        let before = c.get_state().clone();
        c.apply_gate(XGate, target, &Floats).unwrap();
        assert!(!near(c.get_state(), &before, 1e-6));
        c.apply_gate(XGate, target, &Floats).unwrap();
        assert_eq!(c.get_state(), &before);
    }
}

#[test]
fn z_twice_restores_the_state() {
    for target in 0..3 {
        let mut c = mixed_state();
        let before = c.get_state().clone();
        c.apply_gate(ZGate, target, &Floats).unwrap();
        assert!(!near(c.get_state(), &before, 1e-6));
        c.apply_gate(ZGate, target, &Floats).unwrap();
        assert_eq!(c.get_state(), &before);
    }
}

#[test]
fn hadamard_twice_restores_the_state() {
    for target in 0..3 {
        let mut c = mixed_state();
        let before = c.get_state().clone();
        c.apply_gate(HadamardGate, target, &Floats).unwrap();
        assert!(!near(c.get_state(), &before, 1e-6));
        c.apply_gate(HadamardGate, target, &Floats).unwrap();
        assert!(near(c.get_state(), &before, 1e-12));
    }
}

#[test]
fn controlled_x_twice_restores_the_state() {
    let mut c = mixed_state();
    let before = c.get_state().clone();
    c.apply_controlled_gate(XGate, 2, 1, &Floats).unwrap();
    assert!(!near(c.get_state(), &before, 1e-6));
    c.apply_controlled_gate(XGate, 2, 1, &Floats).unwrap();
    assert_eq!(c.get_state(), &before);
}

#[test]
fn gate_on_a_qubit_combines_only_its_pairs() {
    // after X on qubit 1 the amplitude of index i is the former one of i ^ 2
    let mut c = mixed_state();
    let before = c.get_state().clone();
    c.apply_gate(XGate, 1, &Floats).unwrap();
    for i in 0..8usize {
        assert_eq!(c.get_state()[i], before[i ^ 2]);
    }
}

#[test]
fn controlled_gate_leaves_the_uncontrolled_half() {
    let mut c = mixed_state();
    let before = c.get_state().clone();
    c.apply_controlled_gate(HadamardGate, 1, 2, &Floats).unwrap();
    for i in 0..8usize {
        if i & 2 == 0 {
            assert_eq!(c.get_state()[i], before[i]);
        } else {
            assert!(distance(c.get_state()[i] - before[i]) > 1e-6);
        }
    }
    // the pair (2, 6) is H times the former pair
    let h = std::f64::consts::FRAC_1_SQRT_2;
    assert!(distance(c.get_state()[2] - (before[2] + before[6]) * h) < 1e-12);
    assert!(distance(c.get_state()[6] - (before[2] - before[6]) * h) < 1e-12);
}

#[test]
fn controlled_x_agrees_with_cnot_on_two_qubits() {
    for (control, target) in [(1usize, 0usize), (0, 1)] {
        let mut c = QuantumCircuit::new(2, &Floats).unwrap();
        c.apply_gate(HadamardGate, 0, &Floats).unwrap();
        c.apply_gate(RotationGate::new(0.3), 1, &Floats).unwrap();
        c.apply_gate(TGate, 1, &Floats).unwrap();
        c.apply_gate(RotationGate::new(1.2), 0, &Floats).unwrap();
        let before = c.get_state().clone();
        let mut by_cnot = before.clone();
        CNOTGate.apply_controlled(&mut by_cnot, control, target);
        c.apply_controlled_gate(XGate, control, target, &Floats).unwrap();
        assert_eq!(c.get_state(), &by_cnot);
        assert_ne!(c.get_state(), &before);
    }
}

#[test]
fn measurement_is_decided_by_the_draw_alone() {
    // the outcome one of qubit 2 has probability sin^2(1.1)
    let prob_one = (1.1_f64).sin().powi(2);
    let mut below = mixed_state();
    assert_eq!(below.measure(2, prob_one - 1e-9, &Floats), Ok(true));
    let mut above = mixed_state();
    assert_eq!(above.measure(2, prob_one + 1e-9, &Floats), Ok(false));
    for i in 0..8usize {
        if i & 4 == 0 {
            assert_eq!(below.get_state()[i], Complex::new(0.0, 0.0));
        } else {
            assert_eq!(above.get_state()[i], Complex::new(0.0, 0.0));
        }
    }
}

#[test]
fn measurement_divides_by_the_norm() {
    let prob_one = (1.1_f64).sin().powi(2);
    let mut c = mixed_state();
    let before = c.get_state().clone();
    assert_eq!(c.measure(2, 0.0, &Floats), Ok(true));
    for i in 4..8usize {
        assert!(distance(c.get_state()[i] - before[i] / prob_one.sqrt()) < 1e-12);
    }
}

#[test]
fn hadamard_gives_an_even_superposition() {
    let mut c = QuantumCircuit::new(1, &Floats).unwrap();
    c.apply_gate(HadamardGate, 0, &Floats).unwrap();
    assert!((c.get_probability(0, &Floats).unwrap() - 0.5).abs() < 1e-10);
    assert!((c.get_probability(1, &Floats).unwrap() - 0.5).abs() < 1e-10);
}

#[test]
fn every_rejected_call_leaves_the_state() {
    let mut c = mixed_state();
    let before = c.get_state().clone();
    assert_eq!(c.apply_gate(HadamardGate, 3, &Floats), Err(CircuitError::InvalidQubitIndex));
    assert_eq!(
        c.apply_controlled_gate(HadamardGate, 3, 0, &Floats),
        Err(CircuitError::InvalidQubitIndex)
    );
    assert_eq!(
        c.apply_controlled_gate(HadamardGate, 0, 0, &Floats),
        Err(CircuitError::ControlEqualsTarget)
    );
    assert_eq!(c.measure(3, 0.5, &Floats), Err(CircuitError::InvalidQubitIndex));
    assert_eq!(c.collapse(3, true, 1.0, &Floats), Err(CircuitError::InvalidQubitIndex));
    assert_eq!(c.get_probability(8, &Floats), Err(CircuitError::InvalidBasisIndex));
    assert_eq!(c.get_state(), &before);
    assert_eq!(c.n_qubits(), 3);
}

#[test]
fn bits_of_a_basis_index() {
    assert!(qubit_is_one(5, 0));
    assert!(!qubit_is_one(5, 1));
    assert!(qubit_is_one(5, 2));
    assert!(!qubit_is_one(5, 3));
    assert!(!qubit_is_one(0, 0));
    assert_eq!(set_qubit(4, 1), 6);
    assert_eq!(set_qubit(6, 1), 6);
    assert_eq!(set_qubit(0, 0), 1);
    assert_eq!(clear_qubit(7, 1), 5);
    assert_eq!(clear_qubit(5, 1), 5);
    assert_eq!(clear_qubit(1, 0), 0);
}

#[test]
fn bit_is_the_binary_digit() {
    for index in 0..64usize {
        for qubit in 0..6usize {
            assert_eq!(qubit_is_one(index, qubit), (index / (1 << qubit)) % 2 == 1);
            assert_eq!(clear_qubit(set_qubit(index, qubit), qubit), clear_qubit(index, qubit));
            assert_eq!(set_qubit(clear_qubit(index, qubit), qubit), set_qubit(index, qubit));
        }
    }
}

#[test]
fn dimension_is_a_power_of_two() {
    assert_eq!(dimension_of(0), 1);
    assert_eq!(dimension_of(1), 2);
    assert_eq!(dimension_of(3), 8);
    assert_eq!(dimension_of(10), 1024);
    assert_eq!(dimension_of(20), 1 << 20);
}

#[test]
fn rotation_by_a_full_turn_is_the_identity() {
    let mut c = mixed_state();
    let before = c.get_state().clone();
    c.apply_gate(RotationGate::new(2.0 * PI), 1, &Floats).unwrap();
    assert!(near(c.get_state(), &before, 1e-12));
}

#[test]
fn applying_a_gate_has_one_result() {
    let mut first = mixed_state();
    let mut second = mixed_state();
    assert_eq!(first.get_state(), second.get_state());
    first.apply_gate(HadamardGate, 1, &Floats).unwrap();
    second.apply_gate(HadamardGate, 1, &Floats).unwrap();
    assert_eq!(first.get_state(), second.get_state());
    first.apply_controlled_gate(TGate, 0, 2, &Floats).unwrap();
    second.apply_controlled_gate(TGate, 0, 2, &Floats).unwrap();
    assert_eq!(first.get_state(), second.get_state());
}

#[test]
fn pairs_cover_every_index_once() {
    for qubit in 0..4usize {
        let mut seen = vec![0u32; 16];
        for index in 0..16usize {
            if !qubit_is_one(index, qubit) {
                let partner = set_qubit(index, qubit);
                assert!(index < partner && partner < 16);
                assert_eq!(partner - index, dimension_of(qubit));
                seen[index] += 1;
                seen[partner] += 1;
            }
        }
        assert!(seen.iter().all(|count| *count == 1));
    }
}

#[test]
fn gates_keep_the_total_probability() {
    let mut c = mixed_state();
    let before = total_probability(&c);
    c.apply_gate(YGate, 2, &Floats).unwrap();
    assert!((total_probability(&c) - before).abs() < 1e-12);
    c.apply_controlled_gate(RotationGate::new(2.5), 1, 0, &Floats).unwrap();
    assert!((total_probability(&c) - before).abs() < 1e-12);
    c.apply_gate(XGate, 0, &Floats).unwrap();
    assert_eq!(total_probability(&c), {
        // X only exchanges amplitudes: the same numbers are added, pair by pair
        let state = c.get_state();
        (0..state.len()).map(|i| state[i].norm_sqr()).sum::<f64>()
    });
}

#[test]
fn ground_state_has_probability_one_on_index_zero() {
    let mut c = mixed_state();
    c.reset(&Floats);
    assert_eq!(c.get_probability(0, &Floats), Ok(1.0));
    for i in 1..8 {
        assert_eq!(c.get_probability(i, &Floats), Ok(0.0));
    }
    assert_eq!(total_probability(&c), 1.0);
    assert!(c.verify_state(&Floats));
}

#[test]
fn gates_on_different_qubits_commute() {
    let mut one_way = mixed_state();
    one_way.apply_gate(HadamardGate, 0, &Floats).unwrap();
    one_way.apply_gate(RotationGate::new(0.7), 2, &Floats).unwrap();
    let mut other_way = mixed_state();
    other_way.apply_gate(RotationGate::new(0.7), 2, &Floats).unwrap();
    other_way.apply_gate(HadamardGate, 0, &Floats).unwrap();
    assert!(near(one_way.get_state(), other_way.get_state(), 1e-12));

    let mut one_way = mixed_state();
    one_way.apply_gate(XGate, 1, &Floats).unwrap();
    one_way.apply_gate(XGate, 2, &Floats).unwrap();
    let mut other_way = mixed_state();
    other_way.apply_gate(XGate, 2, &Floats).unwrap();
    other_way.apply_gate(XGate, 1, &Floats).unwrap();
    assert_eq!(one_way.get_state(), other_way.get_state());
}

#[test]
fn measurement_repeated_gives_the_same_outcome() {
    for first_draw in [0.1, 0.45, 0.8] {
        let mut c = mixed_state();
        let outcome = c.measure(1, first_draw, &Floats).unwrap();
        let between = c.get_state().clone();
        for draw in [0.0, 0.3, 0.6, 0.999] {
            assert_eq!(c.measure(1, draw, &Floats), Ok(outcome));
            assert!(near(c.get_state(), &between, 1e-12));
        }
    }
}
