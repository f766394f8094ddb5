use nalgebra::Complex;
use quantum_simulator::{
    Arithmetic, CircuitError, Coefficient, HadamardGate, PhaseGate, QuantumCircuit, RotationGate,
    TGate, XGate, YGate, ZGate,
};
use rand::Rng;
use std::f64::consts::FRAC_1_SQRT_2;
use std::f64::consts::PI;

/// Double-precision complex arithmetic.
struct Floats;

impl Arithmetic for Floats {
    type Amplitude = Complex<f64>;
    type Real = f64;

    fn coefficient(&self, entry: Coefficient<f64>) -> Complex<f64> {
        let sqrt_2_inv = 1.0 / (2.0_f64.sqrt());
        match entry {
            Coefficient::Zero => Complex::new(0.0, 0.0),
            Coefficient::One => Complex::new(1.0, 0.0),
            Coefficient::MinusOne => Complex::new(-1.0, 0.0),
            Coefficient::I => Complex::new(0.0, 1.0),
            Coefficient::MinusI => Complex::new(0.0, -1.0),
            Coefficient::InvSqrt2 => Complex::new(sqrt_2_inv, 0.0),
            Coefficient::MinusInvSqrt2 => Complex::new(-sqrt_2_inv, 0.0),
            Coefficient::ExpIPi4 => Complex::new((PI / 4.0).cos(), (PI / 4.0).sin()),
            Coefficient::Cos(theta) => Complex::new(theta.cos(), 0.0),
            Coefficient::Sin(theta) => Complex::new(theta.sin(), 0.0),
            Coefficient::MinusSin(theta) => Complex::new(-theta.sin(), 0.0),
        }
    }

    fn times(&self, a: Complex<f64>, b: Complex<f64>) -> Complex<f64> {
        a * b
    }

    fn plus(&self, a: Complex<f64>, b: Complex<f64>) -> Complex<f64> {
        a + b
    }

    fn norm_sqr(&self, a: Complex<f64>) -> f64 {
        a.norm_sqr()
    }

    fn scaled_down(&self, a: Complex<f64>, norm: f64) -> Complex<f64> {
        a / Complex::new(norm, 0.0)
    }

    fn zero(&self) -> f64 {
        0.0
    }

    fn sum(&self, p: f64, q: f64) -> f64 {
        p + q
    }

    fn complement(&self, p: f64) -> f64 {
        1.0 - p
    }

    fn sqrt(&self, p: f64) -> f64 {
        p.sqrt()
    }

    fn less_than(&self, x: f64, y: f64) -> bool {
        x < y
    }

    fn is_zero(&self, p: f64) -> bool {
        p == 0.0
    }

    fn near_one(&self, p: f64, decimals: u32) -> bool {
        (p - 1.0).abs() < 10.0_f64.powi(-(decimals as i32))
    }
}

fn zero() -> Complex<f64> {
    Complex::new(0.0, 0.0)
}

fn one() -> Complex<f64> {
    Complex::new(1.0, 0.0)
}

fn close(a: Complex<f64>, b: Complex<f64>) -> bool {
    (a.re - b.re).abs() < 1e-12 && (a.im - b.im).abs() < 1e-12
}

fn circuit(n_qubits: usize) -> QuantumCircuit<Complex<f64>> {
    QuantumCircuit::new(n_qubits, &Floats).unwrap()
}

#[test]
fn test_new_circuit() {
    let circuit = QuantumCircuit::new(2, &Floats).unwrap();
    assert_eq!(circuit.get_state().len(), 4);
    assert_eq!(circuit.get_state()[0], Complex::new(1.0, 0.0));
    assert!(circuit.verify_state(&Floats));
}

#[test]
fn test_apply_x_gate() {
    let mut circuit = QuantumCircuit::new(1, &Floats).unwrap();
    circuit.apply_gate(XGate, 0, &Floats).unwrap();
    assert_eq!(circuit.get_state()[0], Complex::new(0.0, 0.0));
    assert_eq!(circuit.get_state()[1], Complex::new(1.0, 0.0));
}

#[test]
fn test_apply_hadamard() {
    let mut circuit = QuantumCircuit::new(1, &Floats).unwrap();
    circuit.apply_gate(HadamardGate, 0, &Floats).unwrap();
    let sqrt_2_inv = 1.0 / (2.0_f64.sqrt());
    assert!((circuit.get_state()[0].re - sqrt_2_inv).abs() <= 1e-10);
    assert!((circuit.get_state()[1].re - sqrt_2_inv).abs() <= 1e-10);
}

#[test]
fn test_measurement() {
    let mut circuit = QuantumCircuit::new(1, &Floats).unwrap();
    circuit.apply_gate(HadamardGate, 0, &Floats).unwrap();
    let draw: f64 = rand::thread_rng().gen();
    let result = circuit.measure(0, draw, &Floats).unwrap();
    assert!(circuit.verify_state(&Floats));
    assert!(result == true || result == false);
}

#[test]
fn test_reset() {
    let mut circuit = QuantumCircuit::new(1, &Floats).unwrap();
    circuit.apply_gate(XGate, 0, &Floats).unwrap();
    circuit.reset(&Floats);
    assert_eq!(circuit.get_state()[0], Complex::new(1.0, 0.0));
    assert_eq!(circuit.get_state()[1], Complex::new(0.0, 0.0));
}

#[test]
fn new_gives_the_ground_state() {
    for n in 1..=6usize {
        let c = circuit(n);
        assert_eq!(c.n_qubits(), n);
        assert_eq!(c.get_state().len(), 1 << n);
        assert_eq!(c.get_state()[0], one());
        assert!(c.get_state()[1..].iter().all(|a| *a == zero()));
    }
}

#[test]
fn new_rejects_zero_qubits() {
    let made = QuantumCircuit::new(0, &Floats);
    assert_eq!(made.err(), Some(CircuitError::InvalidQubitCount));
}

#[test]
fn new_rejects_more_qubits_than_a_usize_has_bits() {
    let bits = usize::BITS as usize;
    assert_eq!(QuantumCircuit::new(bits, &Floats).err(), Some(CircuitError::InvalidQubitCount));
    assert_eq!(QuantumCircuit::new(bits + 1, &Floats).err(), Some(CircuitError::InvalidQubitCount));
    assert_eq!(
        QuantumCircuit::new(usize::MAX, &Floats).err(),
        Some(CircuitError::InvalidQubitCount)
    );
}

#[test]
fn probability_of_one_adds_the_half_with_the_bit_set() {
    // amplitudes (0.6, 0.8 i) on qubit 0, and H on qubit 1
    let mut c = circuit(2);
    c.apply_gate(RotationGate::new((0.8_f64).atan2(0.6)), 0, &Floats).unwrap();
    c.apply_gate(PhaseGate, 0, &Floats).unwrap();
    c.apply_gate(HadamardGate, 1, &Floats).unwrap();
    assert!((c.probability_of_one(0, &Floats).unwrap() - 0.64).abs() < 1e-12);
    assert!((c.probability_of_one(1, &Floats).unwrap() - 0.5).abs() < 1e-12);
    assert_eq!(c.probability_of_one(2, &Floats), Err(CircuitError::InvalidQubitIndex));
    let fresh = circuit(3);
    assert_eq!(fresh.probability_of_one(0, &Floats), Ok(0.0));
    assert_eq!(fresh.probability_of_one(2, &Floats), Ok(0.0));
}

#[test]
fn apply_gate_rejects_a_target_out_of_range() {
    let mut c = circuit(2);
    c.apply_gate(HadamardGate, 1, &Floats).unwrap();
    let before = c.get_state().clone();
    assert_eq!(c.apply_gate(XGate, 2, &Floats), Err(CircuitError::InvalidQubitIndex));
    assert_eq!(c.apply_gate(XGate, usize::MAX, &Floats), Err(CircuitError::InvalidQubitIndex));
    assert_eq!(c.get_state(), &before);
    assert_eq!(c.n_qubits(), 2);
}

#[test]
fn apply_gate_acts_on_the_target_bit_only() {
    // three qubits: X on qubit 1 moves |000> to |010>, index 2
    let mut c = circuit(3);
    c.apply_gate(XGate, 1, &Floats).unwrap();
    let expected: Vec<Complex<f64>> =
        (0..8).map(|i| if i == 2 { one() } else { zero() }).collect();
    assert_eq!(c.get_state(), &expected);
    // X on qubit 2 then moves it to |110>, index 6
    c.apply_gate(XGate, 2, &Floats).unwrap();
    let expected: Vec<Complex<f64>> =
        (0..8).map(|i| if i == 6 { one() } else { zero() }).collect();
    assert_eq!(c.get_state(), &expected);
}

#[test]
fn apply_gate_transforms_every_pair() {
    // H on qubit 0, then H on qubit 1: the uniform superposition of two qubits
    let mut c = circuit(2);
    c.apply_gate(HadamardGate, 0, &Floats).unwrap();
    assert!(close(c.get_state()[0], Complex::new(FRAC_1_SQRT_2, 0.0)));
    assert!(close(c.get_state()[1], Complex::new(FRAC_1_SQRT_2, 0.0)));
    assert!(close(c.get_state()[2], zero()));
    assert!(close(c.get_state()[3], zero()));
    c.apply_gate(HadamardGate, 1, &Floats).unwrap();
    for i in 0..4 {
        assert!(close(c.get_state()[i], Complex::new(0.5, 0.0)));
    }
    // Z on qubit 1 negates the amplitudes of the indices 2 and 3
    c.apply_gate(ZGate, 1, &Floats).unwrap();
    assert!(close(c.get_state()[0], Complex::new(0.5, 0.0)));
    assert!(close(c.get_state()[1], Complex::new(0.5, 0.0)));
    assert!(close(c.get_state()[2], Complex::new(-0.5, 0.0)));
    assert!(close(c.get_state()[3], Complex::new(-0.5, 0.0)));
    // S on qubit 0 multiplies the amplitudes of the indices 1 and 3 by i
    c.apply_gate(PhaseGate, 0, &Floats).unwrap();
    assert!(close(c.get_state()[0], Complex::new(0.5, 0.0)));
    assert!(close(c.get_state()[1], Complex::new(0.0, 0.5)));
    assert!(close(c.get_state()[2], Complex::new(-0.5, 0.0)));
    assert!(close(c.get_state()[3], Complex::new(0.0, -0.5)));
}

#[test]
fn controlled_gate_leaves_control_zero_alone() {
    let mut c = circuit(2);
    c.apply_controlled_gate(XGate, 0, 1, &Floats).unwrap();
    assert_eq!(c.get_state(), &vec![one(), zero(), zero(), zero()]);
}

#[test]
fn controlled_gate_flips_where_control_is_one() {
    let mut c = circuit(2);
    c.apply_gate(XGate, 0, &Floats).unwrap();
    assert_eq!(c.get_state(), &vec![zero(), one(), zero(), zero()]);
    c.apply_controlled_gate(XGate, 0, 1, &Floats).unwrap();
    assert_eq!(c.get_state(), &vec![zero(), zero(), zero(), one()]);
}

#[test]
fn controlled_gate_on_three_qubits() {
    // |100>, index 4: control 2 is set, control 1 is not
    let mut c = circuit(3);
    c.apply_gate(XGate, 2, &Floats).unwrap();
    c.apply_controlled_gate(XGate, 1, 0, &Floats).unwrap();
    assert_eq!(c.get_state()[4], one());
    c.apply_controlled_gate(XGate, 2, 0, &Floats).unwrap();
    let expected: Vec<Complex<f64>> =
        (0..8).map(|i| if i == 5 { one() } else { zero() }).collect();
    assert_eq!(c.get_state(), &expected);
    // the target may be above the control
    c.apply_controlled_gate(XGate, 0, 1, &Floats).unwrap();
    let expected: Vec<Complex<f64>> =
        (0..8).map(|i| if i == 7 { one() } else { zero() }).collect();
    assert_eq!(c.get_state(), &expected);
}

#[test]
fn controlled_gate_makes_a_bell_state() {
    let mut c = circuit(2);
    c.apply_gate(HadamardGate, 0, &Floats).unwrap();
    c.apply_controlled_gate(XGate, 0, 1, &Floats).unwrap();
    assert!(close(c.get_state()[0], Complex::new(FRAC_1_SQRT_2, 0.0)));
    assert!(close(c.get_state()[1], zero()));
    assert!(close(c.get_state()[2], zero()));
    assert!(close(c.get_state()[3], Complex::new(FRAC_1_SQRT_2, 0.0)));
}

#[test]
fn controlled_gate_only_touches_the_controlled_half() {
    let mut c = circuit(2);
    c.apply_gate(HadamardGate, 0, &Floats).unwrap();
    c.apply_gate(HadamardGate, 1, &Floats).unwrap();
    // controlled Z, control 1, target 0: only index 3 changes sign
    c.apply_controlled_gate(ZGate, 1, 0, &Floats).unwrap();
    assert!(close(c.get_state()[0], Complex::new(0.5, 0.0)));
    assert!(close(c.get_state()[1], Complex::new(0.5, 0.0)));
    assert!(close(c.get_state()[2], Complex::new(0.5, 0.0)));
    assert!(close(c.get_state()[3], Complex::new(-0.5, 0.0)));
}

#[test]
fn controlled_gate_rejects_bad_qubits() {
    let mut c = circuit(2);
    c.apply_gate(HadamardGate, 0, &Floats).unwrap();
    let before = c.get_state().clone();
    assert_eq!(
        c.apply_controlled_gate(XGate, 2, 0, &Floats),
        Err(CircuitError::InvalidQubitIndex)
    );
    assert_eq!(
        c.apply_controlled_gate(XGate, 0, 2, &Floats),
        Err(CircuitError::InvalidQubitIndex)
    );
    assert_eq!(
        c.apply_controlled_gate(XGate, 1, 1, &Floats),
        Err(CircuitError::ControlEqualsTarget)
    );
    // out of range is reported before equality
    assert_eq!(
        c.apply_controlled_gate(XGate, 5, 5, &Floats),
        Err(CircuitError::InvalidQubitIndex)
    );
    assert_eq!(c.get_state(), &before);
}

#[test]
fn measure_of_the_ground_state_is_zero() {
    for draw in [0.0, 0.25, 0.5, 0.999_999] {
        let mut c = circuit(1);
        assert_eq!(c.measure(0, draw, &Floats), Ok(false));
        assert_eq!(c.get_state(), &vec![one(), zero()]);
    }
}

#[test]
fn measure_after_x_is_one() {
    for draw in [0.0, 0.25, 0.5, 0.999_999] {
        let mut c = circuit(1);
        c.apply_gate(XGate, 0, &Floats).unwrap();
        assert_eq!(c.measure(0, draw, &Floats), Ok(true));
        assert_eq!(c.get_state(), &vec![zero(), one()]);
    }
}

#[test]
fn measure_follows_the_draw() {
    let mut c = circuit(1);
    c.apply_gate(HadamardGate, 0, &Floats).unwrap();
    assert_eq!(c.measure(0, 0.3, &Floats), Ok(true));
    assert!(close(c.get_state()[0], zero()));
    assert!(close(c.get_state()[1], one()));

    let mut c = circuit(1);
    c.apply_gate(HadamardGate, 0, &Floats).unwrap();
    assert_eq!(c.measure(0, 0.7, &Floats), Ok(false));
    assert!(close(c.get_state()[0], one()));
    assert!(close(c.get_state()[1], zero()));
}

#[test]
fn measure_collapses_an_entangled_pair() {
    let mut c = circuit(2);
    c.apply_gate(HadamardGate, 0, &Floats).unwrap();
    c.apply_controlled_gate(XGate, 0, 1, &Floats).unwrap();
    // measuring qubit 1 as one leaves |11>
    assert_eq!(c.measure(1, 0.1, &Floats), Ok(true));
    assert!(close(c.get_state()[0], zero()));
    assert!(close(c.get_state()[1], zero()));
    assert!(close(c.get_state()[2], zero()));
    assert!(close(c.get_state()[3], one()));
    // and qubit 0 is then certainly one
    assert_eq!(c.measure(0, 0.99, &Floats), Ok(true));
}

#[test]
fn measure_rescales_by_the_root_of_the_probability() {
    // amplitudes (0.6, 0.8 i): the outcome one has probability 0.64
    let mut c = circuit(1);
    c.apply_gate(RotationGate::new((0.8_f64).atan2(0.6)), 0, &Floats).unwrap();
    c.apply_gate(PhaseGate, 0, &Floats).unwrap();
    assert!(close(c.get_state()[0], Complex::new(0.6, 0.0)));
    assert!(close(c.get_state()[1], Complex::new(0.0, 0.8)));
    assert_eq!(c.measure(0, 0.63, &Floats), Ok(true));
    assert!(close(c.get_state()[0], zero()));
    assert!(close(c.get_state()[1], Complex::new(0.0, 1.0)));
}

#[test]
fn measure_rejects_a_target_out_of_range() {
    let mut c = circuit(2);
    c.apply_gate(HadamardGate, 1, &Floats).unwrap();
    let before = c.get_state().clone();
    assert_eq!(c.measure(2, 0.5, &Floats), Err(CircuitError::InvalidQubitIndex));
    assert_eq!(c.get_state(), &before);
}

#[test]
fn measure_reports_an_outcome_of_probability_zero() {
    // qubit 0 is certainly one; a draw of 1.0 is not below that probability
    let mut c = circuit(1);
    c.apply_gate(XGate, 0, &Floats).unwrap();
    assert_eq!(c.measure(0, 1.0, &Floats), Err(CircuitError::DegenerateMeasurement));
    assert_eq!(c.get_state(), &vec![zero(), one()]);
    assert!(c.get_state().iter().all(|a| a.re.is_finite() && a.im.is_finite()));
}

#[test]
fn collapse_keeps_the_agreeing_half() {
    let mut c = circuit(2);
    c.apply_gate(HadamardGate, 0, &Floats).unwrap();
    c.apply_gate(HadamardGate, 1, &Floats).unwrap();
    c.collapse(1, false, FRAC_1_SQRT_2, &Floats).unwrap();
    assert!(close(c.get_state()[0], Complex::new(FRAC_1_SQRT_2, 0.0)));
    assert!(close(c.get_state()[1], Complex::new(FRAC_1_SQRT_2, 0.0)));
    assert_eq!(c.get_state()[2], zero());
    assert_eq!(c.get_state()[3], zero());
    c.collapse(0, true, FRAC_1_SQRT_2, &Floats).unwrap();
    assert_eq!(c.get_state()[0], zero());
    assert!(close(c.get_state()[1], one()));
    assert_eq!(c.collapse(2, true, 1.0, &Floats), Err(CircuitError::InvalidQubitIndex));
}

#[test]
fn get_probability_is_the_squared_magnitude() {
    let mut c = circuit(1);
    c.apply_gate(RotationGate::new((0.8_f64).atan2(0.6)), 0, &Floats).unwrap();
    c.apply_gate(YGate, 0, &Floats).unwrap();
    // Y * (0.6, 0.8) = (-0.8 i, 0.6 i)
    assert!(close(c.get_state()[0], Complex::new(0.0, -0.8)));
    assert!(close(c.get_state()[1], Complex::new(0.0, 0.6)));
    assert!((c.get_probability(0, &Floats).unwrap() - 0.64).abs() < 1e-12);
    assert!((c.get_probability(1, &Floats).unwrap() - 0.36).abs() < 1e-12);
}

#[test]
fn get_probability_rejects_an_index_out_of_range() {
    let c = circuit(2);
    assert_eq!(c.get_probability(3, &Floats), Ok(0.0));
    assert_eq!(c.get_probability(4, &Floats), Err(CircuitError::InvalidBasisIndex));
    assert_eq!(c.get_probability(usize::MAX, &Floats), Err(CircuitError::InvalidBasisIndex));
}

#[test]
fn verify_state_tells_a_state_that_is_not_normalized() {
    let mut c = circuit(1);
    c.apply_gate(HadamardGate, 0, &Floats).unwrap();
    assert!(c.verify_state(&Floats));
    // dividing both amplitudes by 2 leaves a total of 1/4
    c.collapse(0, false, 2.0, &Floats).unwrap();
    assert!(!c.verify_state(&Floats));
}

#[test]
fn reset_keeps_the_number_of_qubits() {
    let mut c = circuit(3);
    c.apply_gate(HadamardGate, 0, &Floats).unwrap();
    c.apply_gate(TGate, 0, &Floats).unwrap();
    c.apply_controlled_gate(XGate, 0, 2, &Floats).unwrap();
    c.reset(&Floats);
    assert_eq!(c.n_qubits(), 3);
    let expected: Vec<Complex<f64>> =
        (0..8).map(|i| if i == 0 { one() } else { zero() }).collect();
    assert_eq!(c.get_state(), &expected);
}

#[test]
fn rotation_by_pi_over_two_in_a_circuit() {
    let mut c = circuit(1);
    c.apply_gate(RotationGate::new(PI / 2.0), 0, &Floats).unwrap();
    assert!(close(c.get_state()[0], zero()));
    assert!(close(c.get_state()[1], one()));
}

#[test]
fn error_messages() {
    assert_eq!(CircuitError::InvalidQubitCount.message(), "number of qubits must be at least 1 and less than the width of usize");
    assert_eq!(CircuitError::InvalidQubitIndex.message(), "qubit index out of range");
    assert_eq!(
        CircuitError::ControlEqualsTarget.message(),
        "control and target qubits must be different"
    );
    assert_eq!(CircuitError::InvalidBasisIndex.message(), "basis state out of range");
    assert_eq!(
        CircuitError::DegenerateMeasurement.message(),
        "measured outcome has probability zero"
    );
}
