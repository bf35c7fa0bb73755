//! Why a bound parameter could not be turned into a value for the server.

use vstd::prelude::*;

use super::error::ConvError;
use crate::diag::SqlState;

verus! {

/// Why a bound parameter could not be turned into a value for the server.
#[derive(Debug, Clone, Copy, PartialEq, Eq, Structural)]
pub enum ParamBuildError {
    /// No conversion reads this C type.
    UnsupportedCType(i16),
    /// The value is supplied at execution and was not staged.
    DataAtExecNotStaged,
    /// The indicator asks for a default value outside a procedure call.
    InvalidUseOfDefaultParam,
    /// The indicator is negative and not a special value.
    InvalidLength(isize),
    /// The value buffer is absent where a value is needed.
    InvalidBufferLength,
    /// The parameter carries a value but its buffer is absent.
    NullValuePointer,
    /// The data is longer than declared, in more than padding.
    StringTruncation,
    /// The size cannot be declared for the SQL type.
    InvalidParameterSize(usize),
    /// The decimal digits cannot be declared for the SQL type.
    InvalidDecimalDigits(i16),
    /// The SQL type has no typed NULL here.
    UnsupportedSqlType(i16),
    /// Both types are known but nothing converts between them.
    ConversionNotImplemented,
    /// The value does not fit the SQL type.
    Value(ConvError),
}

/// What a failed conversion is reported with.
#[derive(Debug, Clone, Copy, PartialEq, Eq)]
pub struct DiagMsg {
    pub state: SqlState,
}

pub const SQLSTATE_07006: SqlState = [48, 55, 48, 48, 54];

pub const SQLSTATE_07S01: SqlState = [48, 55, 83, 48, 49];

pub const SQLSTATE_22001: SqlState = [50, 50, 48, 48, 49];

pub const SQLSTATE_22003: SqlState = [50, 50, 48, 48, 51];

pub const SQLSTATE_22018: SqlState = [50, 50, 48, 49, 56];

pub const SQLSTATE_HY009: SqlState = [72, 89, 48, 48, 57];

pub const SQLSTATE_HY090: SqlState = [72, 89, 48, 57, 48];

pub const SQLSTATE_HY104: SqlState = [72, 89, 49, 48, 52];

pub const SQLSTATE_HYC00: SqlState = [72, 89, 67, 48, 48];

/// The SQLSTATE of each error.
pub open spec fn state_of(error: ParamBuildError) -> SqlState {
    match error {
        ParamBuildError::UnsupportedCType(_) => SQLSTATE_HYC00,
        ParamBuildError::DataAtExecNotStaged => crate::diag::SQLSTATE_HY000,
        ParamBuildError::InvalidUseOfDefaultParam => SQLSTATE_07S01,
        ParamBuildError::InvalidLength(_) => SQLSTATE_HY090,
        ParamBuildError::InvalidBufferLength => SQLSTATE_HY090,
        ParamBuildError::NullValuePointer => SQLSTATE_HY009,
        ParamBuildError::StringTruncation => SQLSTATE_22001,
        ParamBuildError::InvalidParameterSize(_) => SQLSTATE_HY104,
        ParamBuildError::InvalidDecimalDigits(_) => SQLSTATE_HY104,
        ParamBuildError::UnsupportedSqlType(_) => SQLSTATE_HYC00,
        ParamBuildError::ConversionNotImplemented => SQLSTATE_HYC00,
        ParamBuildError::Value(ConvError::OutOfRange) => SQLSTATE_22003,
        ParamBuildError::Value(ConvError::InvalidCharacterValue) => SQLSTATE_22018,
        ParamBuildError::Value(ConvError::Restricted) => SQLSTATE_07006,
        ParamBuildError::Value(ConvError::NotHandledHere) => SQLSTATE_07006,
    }
}

impl ParamBuildError {
    /// What this error is reported with.
    pub fn diag(self) -> (msg: DiagMsg)
        ensures
            msg.state == state_of(self),
    {
        let state: SqlState = match self {
            ParamBuildError::UnsupportedCType(_) => SQLSTATE_HYC00,
            ParamBuildError::DataAtExecNotStaged => crate::diag::SQLSTATE_HY000,
            ParamBuildError::InvalidUseOfDefaultParam => SQLSTATE_07S01,
            ParamBuildError::InvalidLength(_) => SQLSTATE_HY090,
            ParamBuildError::InvalidBufferLength => SQLSTATE_HY090,
            ParamBuildError::NullValuePointer => SQLSTATE_HY009,
            ParamBuildError::StringTruncation => SQLSTATE_22001,
            ParamBuildError::InvalidParameterSize(_) => SQLSTATE_HY104,
            ParamBuildError::InvalidDecimalDigits(_) => SQLSTATE_HY104,
            ParamBuildError::UnsupportedSqlType(_) => SQLSTATE_HYC00,
            ParamBuildError::ConversionNotImplemented => SQLSTATE_HYC00,
            ParamBuildError::Value(ConvError::OutOfRange) => SQLSTATE_22003,
            ParamBuildError::Value(ConvError::InvalidCharacterValue) => SQLSTATE_22018,
            ParamBuildError::Value(ConvError::Restricted) => SQLSTATE_07006,
            ParamBuildError::Value(ConvError::NotHandledHere) => SQLSTATE_07006,
        };
        DiagMsg { state }
    }
}

/// Whether a state is spelled by five characters.
pub open spec fn is_spelled(state: SqlState, text: Seq<char>) -> bool {
    &&& text.len() == 5
    &&& forall|k: int| 0 <= k < 5 ==> #[trigger] state@[k] as int == text[k] as int
}

/// Each kind of failure has its SQLSTATE: a value that does not fit is out of
/// range, text that is no number is an invalid character value, data that is too
/// long is truncated, a size or a scale that cannot be declared is an invalid one,
/// a length or a buffer that cannot be read is an invalid one, and what nothing
/// converts is not implemented or restricted.
pub proof fn failures_have_their_states(c_type: i16, length: isize, size: usize, digits: i16)
    ensures
        is_spelled(state_of(ParamBuildError::Value(ConvError::OutOfRange)), "22003"@),
        is_spelled(state_of(ParamBuildError::Value(ConvError::InvalidCharacterValue)), "22018"@),
        is_spelled(state_of(ParamBuildError::Value(ConvError::Restricted)), "07006"@),
        is_spelled(state_of(ParamBuildError::Value(ConvError::NotHandledHere)), "07006"@),
        is_spelled(state_of(ParamBuildError::StringTruncation), "22001"@),
        is_spelled(state_of(ParamBuildError::InvalidParameterSize(size)), "HY104"@),
        is_spelled(state_of(ParamBuildError::InvalidDecimalDigits(digits)), "HY104"@),
        is_spelled(state_of(ParamBuildError::InvalidLength(length)), "HY090"@),
        is_spelled(state_of(ParamBuildError::InvalidBufferLength), "HY090"@),
        is_spelled(state_of(ParamBuildError::NullValuePointer), "HY009"@),
        is_spelled(state_of(ParamBuildError::InvalidUseOfDefaultParam), "07S01"@),
        is_spelled(state_of(ParamBuildError::DataAtExecNotStaged), "HY000"@),
        is_spelled(state_of(ParamBuildError::UnsupportedCType(c_type)), "HYC00"@),
        is_spelled(state_of(ParamBuildError::UnsupportedSqlType(c_type)), "HYC00"@),
        is_spelled(state_of(ParamBuildError::ConversionNotImplemented), "HYC00"@),
{
    reveal_strlit("22003");
    reveal_strlit("22018");
    reveal_strlit("07006");
    reveal_strlit("22001");
    reveal_strlit("HY104");
    reveal_strlit("HY090");
    reveal_strlit("HY009");
    reveal_strlit("07S01");
    reveal_strlit("HY000");
    reveal_strlit("HYC00");
}

} // verus!
