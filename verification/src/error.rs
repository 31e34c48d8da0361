//! The failures the engine reports, and the class each one belongs to.

use vstd::prelude::*;

verus! {

/// How a failure is handled: who caused it and who hears of it.
#[derive(Clone, Copy, Debug, PartialEq, Eq, Structural)]
pub enum ErrorKind {
    /// The caller asked for something that cannot be served; reported verbatim.
    Validation,
    /// The price source or the fallback source failed; the attempt is aborted.
    Upstream,
    /// The store could not be reached or did not confirm a write.
    Store,
    /// The two stored sequences of a pair do not line up.
    DataIntegrity,
}

/// Every failure the engine can report.
#[derive(Clone, Copy, Debug, PartialEq, Eq, Structural)]
pub enum EngineError {
    /// The pair identifier is not one of the supported pairs.
    PairNotFound,
    /// The requested interval is shorter than the native interval.
    IntervalTooSmall,
    /// The requested interval is not a whole multiple of the native interval.
    IntervalMisaligned,
    /// The source interval of a resampling is not a whole multiple of the target.
    InvalidIntervalRatio,
    /// There is no gap to repair.
    NoDiscrepancies,
    /// The pair has no identifier at the fallback source.
    NoFallbackName,
    /// The fallback source reported an error of its own.
    FallbackUnavailable,
    /// The fallback source answered in an unexpected shape.
    FallbackFormatError,
    /// The store could not be reached, or a write was not confirmed.
    StoreUnavailable,
    /// The pair has no stored sample yet.
    EmptySeries,
    /// The price and timestamp sequences of a pair differ in length.
    DataIntegrity,
    /// A timestamp lies outside the range of representable dates.
    TimestampOutOfRange,
}

impl EngineError {
    /// The class of this failure.
    pub open spec fn spec_kind(self) -> ErrorKind {
        match self {
            EngineError::PairNotFound
            | EngineError::IntervalTooSmall
            | EngineError::IntervalMisaligned
            | EngineError::InvalidIntervalRatio
            | EngineError::NoDiscrepancies => ErrorKind::Validation,
            EngineError::NoFallbackName
            | EngineError::FallbackUnavailable
            | EngineError::FallbackFormatError => ErrorKind::Upstream,
            EngineError::StoreUnavailable | EngineError::EmptySeries => ErrorKind::Store,
            EngineError::DataIntegrity | EngineError::TimestampOutOfRange => ErrorKind::DataIntegrity,
        }
    }

    /// The class of this failure.
    #[verifier::when_used_as_spec(spec_kind)]
    pub fn kind(self) -> (k: ErrorKind)
        ensures
            k == self.spec_kind(),
    {
        match self {
            EngineError::PairNotFound
            | EngineError::IntervalTooSmall
            | EngineError::IntervalMisaligned
            | EngineError::InvalidIntervalRatio
            | EngineError::NoDiscrepancies => ErrorKind::Validation,
            EngineError::NoFallbackName
            | EngineError::FallbackUnavailable
            | EngineError::FallbackFormatError => ErrorKind::Upstream,
            EngineError::StoreUnavailable | EngineError::EmptySeries => ErrorKind::Store,
            EngineError::DataIntegrity | EngineError::TimestampOutOfRange => ErrorKind::DataIntegrity,
        }
    }

    /// Whether a caller of the query interface is told of this failure as its own mistake.
    pub fn is_client_error(self) -> (b: bool)
        ensures
            b == (self.spec_kind() == ErrorKind::Validation),
    {
        match self.kind() {
            ErrorKind::Validation => true,
            _ => false,
        }
    }

    /// The text of this failure as a caller reads it.
    pub open spec fn spec_message(self) -> Seq<char> {
        match self {
            EngineError::PairNotFound => "invalid pair"@,
            EngineError::IntervalTooSmall => "interval smaller than collection interval"@,
            EngineError::IntervalMisaligned => "interval does not fit into collection interval"@,
            EngineError::InvalidIntervalRatio => "input interval is not a multiple of output interval"@,
            EngineError::NoDiscrepancies => "no discrepancies"@,
            EngineError::NoFallbackName => "no fallback name"@,
            EngineError::FallbackUnavailable => "fallback source reported an error"@,
            EngineError::FallbackFormatError => "fallback response format was not correct"@,
            EngineError::StoreUnavailable => "store unavailable"@,
            EngineError::EmptySeries => "series is empty"@,
            EngineError::DataIntegrity => "price and timestamp sequences differ in length"@,
            EngineError::TimestampOutOfRange => "timestamp did not convert to a date"@,
        }
    }

    /// The text of this failure as a caller reads it.
    pub fn message(self) -> (s: String)
        ensures
            s@ == self.spec_message(),
    {
        match self {
            EngineError::PairNotFound => "invalid pair".to_owned(),
            EngineError::IntervalTooSmall => "interval smaller than collection interval".to_owned(),
            EngineError::IntervalMisaligned => "interval does not fit into collection interval".to_owned(),
            EngineError::InvalidIntervalRatio => "input interval is not a multiple of output interval".to_owned(),
            EngineError::NoDiscrepancies => "no discrepancies".to_owned(),
            EngineError::NoFallbackName => "no fallback name".to_owned(),
            EngineError::FallbackUnavailable => "fallback source reported an error".to_owned(),
            EngineError::FallbackFormatError => "fallback response format was not correct".to_owned(),
            EngineError::StoreUnavailable => "store unavailable".to_owned(),
            EngineError::EmptySeries => "series is empty".to_owned(),
            EngineError::DataIntegrity => "price and timestamp sequences differ in length".to_owned(),
            EngineError::TimestampOutOfRange => "timestamp did not convert to a date".to_owned(),
        }
    }
}

} // verus!
