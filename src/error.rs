use vstd::prelude::*;

verus! {

/// The numeric option that an error is about.
#[derive(Debug, Clone, Copy, PartialEq, Eq, Structural)]
pub enum Field {
    IntegratedLoudness,
    LoudnessRange,
    TruePeak,
}

/// Everything that can end an invocation early.
#[derive(Debug, Clone, Copy, PartialEq, Eq, Structural)]
pub enum LoudnormError {
    /// No input path was given.
    MissingInput,
    /// A numeric target is no number in floating-point syntax, or lies outside
    /// its range.
    InvalidArgument(Field),
    /// The analysis program could not be started.
    ProcessSpawnFailed,
    /// The analysis program ended with a non-zero status (its exit code, when
    /// it had one).
    ProcessExecutionFailed(Option<i32>),
    /// The diagnostic output holds no `{`.
    NoJsonFound,
    /// The framed object is not the expected five-field report.
    MalformedJson,
}

} // verus!
