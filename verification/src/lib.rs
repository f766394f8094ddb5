//! A state-vector simulator for small quantum circuits.
//!
//! A circuit of `n` qubits holds `2^n` amplitudes, one per basis index; bit `k`
//! of an index is the value of qubit `k`. A gate rewrites the amplitudes pair by
//! pair, a controlled gate only where the control bit is set, and a measurement
//! keeps the half of the state that agrees with its outcome.
//!
//! The crate is generic in its numbers: what an amplitude is, and how two of
//! them are multiplied, is the caller's [`Arithmetic`]. What is proved here is
//! where every amplitude goes: which entries of the state each operation reads,
//! which it writes, and which operation of the arithmetic produced each new
//! value, from which arguments.
//!
//! - [`arithmetic`]: the numbers, and the exact entries of a matrix
//! - [`basis`]: basis indices, their bits and their pairs
//! - [`gates`]: the catalog of gates
//! - [`circuit`]: the circuit and its operations
//! - [`semantics`]: what each operation does to the state, as predicates
//! - [`laws`]: one result per operation; gates that undo themselves; gates on
//!   different qubits commute
//! - [`conservation`]: the total probability stays what it is; what a
//!   measurement finds
//! - [`exact`]: in arithmetic without rounding, the catalog is unitary

pub mod arithmetic;
pub mod basis;
pub mod circuit;
pub mod conservation;
pub mod error;
pub mod exact;
pub mod gates;
pub mod laws;
pub mod semantics;

pub use arithmetic::Arithmetic;
pub use arithmetic::Coefficient;
pub use circuit::QuantumCircuit;
pub use circuit::NORMALIZATION_DECIMALS;
pub use error::CircuitError;
pub use gates::CNOTGate;
pub use gates::GateMatrix;
pub use gates::HadamardGate;
pub use gates::PhaseGate;
pub use gates::QuantumGate;
pub use gates::RotationGate;
pub use gates::TGate;
pub use gates::XGate;
pub use gates::YGate;
pub use gates::ZGate;
