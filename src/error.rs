//! The errors of this library.
use vstd::prelude::*;

verus! {

/// Why a protocol name or pattern could not be used.
#[derive(PartialEq, Eq, Structural, Clone, Copy, Debug)]
pub enum PatternProblem {
    TooFewParameters,
    UnsupportedHandshakeType,
    UnsupportedBaseType,
    UnsupportedHashType,
    UnsupportedDhType,
    UnsupportedCipherType,
    InvalidPsk,
    UnsupportedModifier,
    UnsupportedKemType,
}

/// The stage of construction that failed.
#[derive(PartialEq, Eq, Structural, Clone, Copy, Debug)]
pub enum InitStage {
    ValidateKeyLengths,
    ValidatePskLengths,
}

/// A call that the handshake's current state does not allow.
#[derive(PartialEq, Eq, Structural, Clone, Copy, Debug)]
pub enum StateProblem {
    MissingKeyMaterial,
    MissingPsk,
    NotTurnToWrite,
    NotTurnToRead,
    HandshakeAlreadyFinished,
}

/// All errors of this library.
#[derive(PartialEq, Eq, Structural, Clone, Copy, Debug)]
pub enum Error {
    Pattern(PatternProblem),
    Init(InitStage),
    State(StateProblem),
    Input,
    Dh,
    Decrypt,
}

} // verus!
