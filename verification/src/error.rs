//! Errors for the simulation engine.

use vstd::prelude::*;

verus! {

/// Error type for instrument failures inside a lifecycle hook.
#[derive(Clone, Copy, Debug, PartialEq, Eq, Structural)]
pub enum InstrumentError {
    /// Persisting an observation failed.
    IoFailure,
}

/// Error type for machine operations.
#[derive(Clone, Copy, Debug, PartialEq, Eq, Structural)]
pub enum MachineError {
    /// An instrument failed in a lifecycle hook.
    InstrumentError(InstrumentError),
}

/// Error type for program misconfiguration: every variant names the
/// parameter bound a program found violated before touching the machine.
#[derive(Clone, Copy, Debug, PartialEq, Eq, Structural)]
pub enum ProgramError {
    /// The maximum temperature must not be less than the minimum.
    TemperatureMaxLessThanMin,
    /// There should be at least one step.
    NoSteps,
    /// The temperature must be greater than zero.
    ZeroTemperature,
    /// The cooling rate must be greater than zero.
    ZeroCoolRate,
    /// The maximum field must be greater than zero.
    ZeroField,
    /// The field step must be greater than zero.
    ZeroFieldStep,
    /// The machine failed while the program drove it.
    MachineError(MachineError),
}

impl InstrumentError {
    /// A single-line description of the failure.
    pub fn message(&self) -> &'static str {
        "instrument failed to persist an observation"
    }
}

impl MachineError {
    /// A single-line description of the failure.
    pub fn message(&self) -> &'static str {
        match self {
            MachineError::InstrumentError(e) => e.message(),
        }
    }
}

impl ProgramError {
    /// A single-line description of the failure.
    pub fn message(&self) -> &'static str {
        match self {
            ProgramError::TemperatureMaxLessThanMin => {
                "maximum temperature must be greater than minimum temperature"
            },
            ProgramError::NoSteps => "there should be at least one step",
            ProgramError::ZeroTemperature => "temperature must be greater than zero",
            ProgramError::ZeroCoolRate => "cooling rate must be greater than zero",
            ProgramError::ZeroField => "maximum field must be greater than zero",
            ProgramError::ZeroFieldStep => "field step must be greater than zero",
            ProgramError::MachineError(e) => e.message(),
        }
    }
}

/// Error type for the whole engine: a program misconfiguration, a feature
/// that has no implementation, or a sample the fixed-point engine cannot
/// hold.
#[derive(Clone, Copy, Debug, PartialEq, Eq, Structural)]
pub enum VegasError {
    /// A program rejected its parameters or its machine failed.
    ProgramError(ProgramError),
    /// The requested feature has no implementation.
    NotImplementedError,
    /// The sample holds more sites than the engine admits.
    SampleTooLarge,
    /// The exchange couplings overflow the per-site energy budget.
    CouplingOutOfRange,
    /// A stage parameter lies outside the representable range.
    ParameterOutOfRange,
}

impl VegasError {
    /// A single-line description of the failure.
    pub fn message(&self) -> &'static str {
        match self {
            VegasError::ProgramError(e) => e.message(),
            VegasError::NotImplementedError => "not implemented error",
            VegasError::SampleTooLarge => "sample holds too many sites",
            VegasError::CouplingOutOfRange => {
                "exchange couplings overflow the per-site energy budget"
            },
            VegasError::ParameterOutOfRange => {
                "a stage parameter lies outside the representable range"
            },
        }
    }
}

/// Result type for the whole engine.
pub type VegasResult<T> = Result<T, VegasError>;

/// Result type for instrument operations.
pub type InstrumentResult<T> = Result<T, InstrumentError>;

/// Result type for machine operations.
pub type MachineResult<T> = Result<T, MachineError>;

/// Result type for program runs.
pub type ProgramResult<T> = Result<T, ProgramError>;

} // verus!
