//! Run-level failures of the simulation engine.

use vstd::prelude::*;

verus! {

/// Failure raised by the precomputation phase or by the exact arithmetic.
#[derive(Clone, Copy, Debug, PartialEq, Eq, Structural)]
pub enum Error {
    /// Soil layer sampling needs at least one layer.
    EmptyLayerList,
    /// Zero pivot in the tridiagonal solve: the resistance/conductance
    /// configuration is ill-posed.
    SingularSystem,
    /// g-function extrapolation requested for an exchanger spacing below
    /// 0.4 times the reference spacing: the correlation is invalid there.
    SpacingOutOfRange,
    /// An exact rational value left the representable range.
    Overflow,
    /// The sink-temperature iteration did not meet the required precision
    /// within its iteration cap.
    ConvergenceFailure,
}

impl Error {
    /// A short human-readable description of the failure.
    pub fn message(&self) -> (r: &'static str)
        ensures
            r@ =~= self.message_spec(),
    {
        match self {
            Error::EmptyLayerList => "empty soil layer list",
            Error::SingularSystem => "singular tridiagonal system",
            Error::SpacingOutOfRange => "exchanger spacing out of range",
            Error::Overflow => "rational overflow",
            Error::ConvergenceFailure => "sink temperature iteration did not converge",
        }
    }

    pub open spec fn message_spec(&self) -> Seq<char> {
        match self {
            Error::EmptyLayerList => "empty soil layer list"@,
            Error::SingularSystem => "singular tridiagonal system"@,
            Error::SpacingOutOfRange => "exchanger spacing out of range"@,
            Error::Overflow => "rational overflow"@,
            Error::ConvergenceFailure => "sink temperature iteration did not converge"@,
        }
    }
}

} // verus!
