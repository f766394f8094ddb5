//! What a circuit reports when it declines an operation.

use vstd::prelude::*;

verus! {

/// Why an operation was declined. The circuit is unchanged whenever one of
/// these is returned.
#[derive(Clone, Copy, Debug, PartialEq, Eq, Structural)]
pub enum CircuitError {
    /// A circuit needs at least one qubit, and fewer than a `usize` has bits.
    InvalidQubitCount,
    /// A target or control qubit is not one of the circuit's qubits.
    InvalidQubitIndex,
    /// A controlled gate was given the same qubit as control and as target.
    ControlEqualsTarget,
    /// A basis index is not below the number of amplitudes.
    InvalidBasisIndex,
    /// The outcome that a measurement drew has probability zero, so the state
    /// cannot be rescaled to it.
    DegenerateMeasurement,
}

impl CircuitError {
    /// A short description of the error, for messages.
    pub fn message(&self) -> (text: &'static str)
        ensures
            text@ == match *self {
                CircuitError::InvalidQubitCount => "number of qubits must be at least 1 and less than the width of usize"@,
                CircuitError::InvalidQubitIndex => "qubit index out of range"@,
                CircuitError::ControlEqualsTarget => "control and target qubits must be different"@,
                CircuitError::InvalidBasisIndex => "basis state out of range"@,
                CircuitError::DegenerateMeasurement => "measured outcome has probability zero"@,
            },
    {
        match self {
            CircuitError::InvalidQubitCount => "number of qubits must be at least 1 and less than the width of usize",
            CircuitError::InvalidQubitIndex => "qubit index out of range",
            CircuitError::ControlEqualsTarget => "control and target qubits must be different",
            CircuitError::InvalidBasisIndex => "basis state out of range",
            CircuitError::DegenerateMeasurement => "measured outcome has probability zero",
        }
    }
}

} // verus!
