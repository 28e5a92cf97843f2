use vstd::prelude::*;

verus! {

/// Every way the proving pipeline can fail, grouped as format, shape,
/// semantic and internal errors.
#[derive(Debug, Clone, Copy, PartialEq, Eq, Structural)]
pub enum ProveError {
    /// A section length or a trailing byte count does not fit the layout.
    MalformedFormat,
    /// The header names a format version this library does not read.
    UnsupportedVersion,
    /// The input ends before the declared content.
    TruncatedInput,
    /// A field element is not below the field modulus.
    FieldOutOfRange,
    /// A transport or point encoding could not be decoded.
    InvalidEncoding,
    /// The reference string is smaller than the circuit needs.
    InsufficientCrsDegree,
    /// The witness does not cover the wires the circuit references.
    WitnessWireMismatch,
    /// The auxiliary wires of the transpiled circuit do not fit.
    UnsupportedConstraintShape,
    /// The witness violates a constraint.
    ConstraintNotSatisfied,
    /// The external proving engine failed.
    Internal,
}

impl ProveError {
    /// True for the errors that come from malformed binary input.
    pub open spec fn is_format_error(self) -> bool {
        self is MalformedFormat || self is UnsupportedVersion || self is TruncatedInput
            || self is FieldOutOfRange || self is InvalidEncoding
    }
}

} // verus!
