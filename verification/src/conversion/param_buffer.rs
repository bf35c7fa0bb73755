//! Reading application parameter buffers.
//!
//! A binding holds, beside its description, the memory its pointers lead to:
//! the bytes of the value buffer and the two lengths, each absent where the
//! pointer is null. Numbers in that memory are little-endian.

use vstd::prelude::*;
use vstd::slice::slice_subrange;

use super::datetime::{self, DateTimeParts};
use super::param_error::ParamBuildError;
use super::unicode::copy_bytes;
use crate::odbc_types::{
    SQL_C_BINARY, SQL_C_BIT, SQL_C_CHAR, SQL_C_DOUBLE, SQL_C_FLOAT, SQL_C_GUID,
    SQL_C_INTERVAL_MINUTE_TO_SECOND, SQL_C_INTERVAL_YEAR, SQL_C_LONG, SQL_C_NUMERIC, SQL_C_SBIGINT,
    SQL_C_SHORT, SQL_C_SLONG, SQL_C_SSHORT, SQL_C_SS_TIME2, SQL_C_SS_TIMESTAMPOFFSET,
    SQL_C_SS_VECTOR, SQL_C_STINYINT, SQL_C_TINYINT, SQL_C_TYPE_DATE, SQL_C_TYPE_TIME,
    SQL_C_TYPE_TIMESTAMP, SQL_C_UBIGINT, SQL_C_ULONG, SQL_C_USHORT, SQL_C_UTINYINT, SQL_C_WCHAR,
    SQL_DATA_AT_EXEC, SQL_DEFAULT_PARAM, SQL_LEN_DATA_AT_EXEC_OFFSET, SQL_NTS, SQL_NULL_DATA,
    SQL_TINYINT,
};

verus! {

/// A bound parameter with the memory it refers to.
#[derive(Debug, Clone)]
pub struct BoundParam {
    pub input_output_type: i16,
    pub c_type: i16,
    pub sql_type: i16,
    pub column_size: usize,
    pub decimal_digits: i16,
    /// The readable bytes of the value buffer.
    pub value: Option<Vec<u8>>,
    pub buffer_length: isize,
    /// The indicator, which tells NULL.
    pub indicator: Option<isize>,
    /// The length, or a data-at-execution value.
    pub octet_length: Option<isize>,
}

/// A GUID in its field layout.
#[derive(Debug, Clone, Copy, PartialEq, Eq)]
pub struct SqlGuid {
    pub data1: u32,
    pub data2: u16,
    pub data3: u16,
    pub data4: [u8; 8],
}

/// A value copied out of an application buffer.
#[derive(Debug, Clone, PartialEq, Eq)]
pub enum AppValue {
    /// Any integer C type.
    Integer(i128),
    /// The bytes of a character buffer.
    NarrowText(Vec<u8>),
    /// The little-endian UTF-16 bytes of a wide character buffer.
    WideText(Vec<u8>),
    /// The bytes of a binary buffer.
    Binary(Vec<u8>),
    Bit(bool),
    /// A single-precision number, by its bits.
    Float(u32),
    /// A double, by its bits.
    Double(u64),
    Guid(SqlGuid),
    DateTime(DateTimeParts),
}

/// What a binding's lengths say, before its buffer is read.
#[derive(Debug, Clone, Copy, PartialEq, Eq, Structural)]
pub enum Indicator {
    Null,
    /// A length, or that the buffer is NUL-terminated.
    Length(isize),
}

/// Bytes from one value of a column-wise parameter array to the next, for the
/// C types whose values have a fixed width.
pub open spec fn fixed_width(c_type: i16) -> Option<usize> {
    if c_type == SQL_C_BIT || c_type == SQL_C_TINYINT || c_type == SQL_C_UTINYINT || c_type
        == SQL_C_STINYINT {
        Some(1)
    } else if c_type == SQL_C_SHORT || c_type == SQL_C_SSHORT || c_type == SQL_C_USHORT {
        Some(2)
    } else if c_type == SQL_C_LONG || c_type == SQL_C_SLONG || c_type == SQL_C_ULONG || c_type
        == SQL_C_FLOAT {
        Some(4)
    } else if c_type == SQL_C_SBIGINT || c_type == SQL_C_UBIGINT || c_type == SQL_C_DOUBLE {
        Some(8)
    } else if c_type == SQL_C_TYPE_DATE || c_type == SQL_C_TYPE_TIME {
        Some(6)
    } else if c_type == SQL_C_TYPE_TIMESTAMP || c_type == SQL_C_GUID {
        Some(16)
    } else if c_type == SQL_C_NUMERIC {
        Some(19)
    } else if SQL_C_INTERVAL_YEAR <= c_type <= SQL_C_INTERVAL_MINUTE_TO_SECOND {
        Some(28)
    } else {
        None
    }
}

/// The C types whose array slots are as wide as the binding says.
pub open spec fn slot_is_buffer_length(c_type: i16) -> bool {
    c_type == SQL_C_CHAR || c_type == SQL_C_WCHAR || c_type == SQL_C_BINARY || c_type
        == SQL_C_SS_TIME2 || c_type == SQL_C_SS_TIMESTAMPOFFSET
}

/// Bytes from one value of a column-wise parameter array to the next. Nothing
/// for a negative width or a C type that is not a concrete one.
pub open spec fn stride_of(c_type: i16, buffer_length: isize) -> Option<usize> {
    if slot_is_buffer_length(c_type) {
        if buffer_length >= 0 {
            Some(buffer_length as usize)
        } else {
            None
        }
    } else {
        fixed_width(c_type)
    }
}

/// Bytes from one value of a column-wise parameter array to the next. Nothing
/// for a negative width or a C type that is not a concrete one.
pub fn parameter_value_stride(c_type: i16, buffer_length: isize) -> (stride: Option<usize>)
    ensures
        stride == stride_of(c_type, buffer_length),
{
    match c_type {
        SQL_C_CHAR | SQL_C_WCHAR | SQL_C_BINARY | SQL_C_SS_TIME2 | SQL_C_SS_TIMESTAMPOFFSET => {
            if buffer_length >= 0 {
                Some(buffer_length as usize)
            } else {
                None
            }
        },
        SQL_C_BIT | SQL_C_TINYINT | SQL_C_UTINYINT | SQL_C_STINYINT => Some(1),
        SQL_C_SHORT | SQL_C_SSHORT | SQL_C_USHORT => Some(2),
        SQL_C_LONG | SQL_C_SLONG | SQL_C_ULONG | SQL_C_FLOAT => Some(4),
        SQL_C_SBIGINT | SQL_C_UBIGINT | SQL_C_DOUBLE => Some(8),
        SQL_C_TYPE_DATE | SQL_C_TYPE_TIME => Some(6),
        SQL_C_TYPE_TIMESTAMP | SQL_C_GUID => Some(16),
        SQL_C_NUMERIC => Some(19),
        _ => {
            if SQL_C_INTERVAL_YEAR <= c_type && c_type <= SQL_C_INTERVAL_MINUTE_TO_SECOND {
                Some(28)
            } else {
                None
            }
        },
    }
}

/// Whether the length of a binding is one for this C type.
pub open spec fn length_counts(c_type: i16) -> bool {
    c_type == SQL_C_CHAR || c_type == SQL_C_WCHAR || c_type == SQL_C_BINARY || c_type
        == SQL_C_SS_VECTOR
}

/// Whether the length of a binding is one for this C type. Other types have
/// the width of their type.
pub fn indicator_is_a_length(c_type: i16) -> (counts: bool)
    ensures
        counts == length_counts(c_type),
{
    matches!(c_type, SQL_C_CHAR | SQL_C_WCHAR | SQL_C_BINARY | SQL_C_SS_VECTOR)
}

/// Whether a length says that the value comes at execution.
pub open spec fn data_at_exec(length: isize) -> bool {
    length == SQL_DATA_AT_EXEC || length <= SQL_LEN_DATA_AT_EXEC_OFFSET
}

/// Whether a length says that the value comes at execution.
pub fn is_data_at_exec_indicator(indicator: isize) -> (at_exec: bool)
    ensures
        at_exec == data_at_exec(indicator),
{
    indicator == SQL_DATA_AT_EXEC || indicator <= SQL_LEN_DATA_AT_EXEC_OFFSET
}

/// What a binding's lengths say. NULL is told by the indicator; everything
/// else by the length. An absent value buffer is NULL only for a length of
/// zero of a C type that has lengths.
pub open spec fn indicator_of(param: BoundParam) -> Result<Indicator, ParamBuildError> {
    if param.indicator == Some(SQL_NULL_DATA) {
        Ok(Indicator::Null)
    } else if param.octet_length == Some(SQL_DEFAULT_PARAM) {
        Err(ParamBuildError::InvalidUseOfDefaultParam)
    } else if param.octet_length is Some && data_at_exec(param.octet_length->Some_0) {
        Err(ParamBuildError::DataAtExecNotStaged)
    } else if param.octet_length is Some && length_counts(param.c_type)
        && param.octet_length->Some_0 < 0 && param.octet_length->Some_0 != SQL_NTS {
        Err(ParamBuildError::InvalidLength(param.octet_length->Some_0))
    } else if param.value is None {
        if length_counts(param.c_type) && param.octet_length == Some(0isize) {
            Ok(Indicator::Null)
        } else {
            Err(ParamBuildError::InvalidBufferLength)
        }
    } else {
        Ok(
            Indicator::Length(
                match param.octet_length {
                    Some(length) => length,
                    None => SQL_NTS,
                },
            ),
        )
    }
}

/// What a binding's lengths say, before its buffer is read.
pub fn read_indicator(param: &BoundParam) -> (result: Result<Indicator, ParamBuildError>)
    ensures
        result == indicator_of(*param),
{
    if let Some(indicator) = param.indicator {
        if indicator == SQL_NULL_DATA {
            return Ok(Indicator::Null);
        }
    }
    if let Some(length) = param.octet_length {
        if length == SQL_DEFAULT_PARAM {
            return Err(ParamBuildError::InvalidUseOfDefaultParam);
        }
        if is_data_at_exec_indicator(length) {
            return Err(ParamBuildError::DataAtExecNotStaged);
        }
        if indicator_is_a_length(param.c_type) && length < 0 && length != SQL_NTS {
            return Err(ParamBuildError::InvalidLength(length));
        }
    }
    if param.value.is_none() {
        if let Some(length) = param.octet_length {
            if indicator_is_a_length(param.c_type) && length == 0 {
                return Ok(Indicator::Null);
            }
        }
        return Err(ParamBuildError::InvalidBufferLength);
    }
    match param.octet_length {
        Some(length) => Ok(Indicator::Length(length)),
        None => Ok(Indicator::Length(SQL_NTS)),
    }
}

/// The number at `at`, in two little-endian bytes.
pub open spec fn u16_at(bytes: Seq<u8>, at: int) -> int {
    bytes[at] + 256 * bytes[at + 1]
}

/// The number at `at`, in four little-endian bytes.
pub open spec fn u32_at(bytes: Seq<u8>, at: int) -> int {
    u16_at(bytes, at) + 0x1_0000 * u16_at(bytes, at + 2)
}

/// The number at `at`, in eight little-endian bytes.
pub open spec fn u64_at(bytes: Seq<u8>, at: int) -> int {
    u32_at(bytes, at) + 0x1_0000_0000 * u32_at(bytes, at + 4)
}

/// The signed number whose two's complement in a range of `span` values is
/// `value`.
pub open spec fn signed_of(value: int, span: int) -> int {
    if value >= span / 2 {
        value - span
    } else {
        value
    }
}

/// Reads the number at `at`, in two little-endian bytes.
pub fn read_u16(bytes: &[u8], at: usize) -> (value: u16)
    requires
        at + 2 <= bytes@.len(),
    ensures
        value == u16_at(bytes@, at as int),
{
    bytes[at] as u16 + 256 * (bytes[at + 1] as u16)
}

/// Reads the number at `at`, in four little-endian bytes.
pub fn read_u32(bytes: &[u8], at: usize) -> (value: u32)
    requires
        at + 4 <= bytes@.len(),
    ensures
        value == u32_at(bytes@, at as int),
{
    assert(bytes.len() == bytes@.len());
    read_u16(bytes, at) as u32 + 0x1_0000 * (read_u16(bytes, at + 2) as u32)
}

/// Reads the number at `at`, in eight little-endian bytes.
pub fn read_u64(bytes: &[u8], at: usize) -> (value: u64)
    requires
        at + 8 <= bytes@.len(),
    ensures
        value == u64_at(bytes@, at as int),
{
    assert(bytes.len() == bytes@.len());
    read_u32(bytes, at) as u64 + 0x1_0000_0000 * (read_u32(bytes, at + 4) as u64)
}

/// Reads the signed number at `at`, in two little-endian bytes.
pub fn read_i16(bytes: &[u8], at: usize) -> (value: i16)
    requires
        at + 2 <= bytes@.len(),
    ensures
        value == signed_of(u16_at(bytes@, at as int), 0x1_0000),
{
    let raw: u16 = read_u16(bytes, at);
    if raw >= 0x8000 {
        (raw as i32 - 0x1_0000) as i16
    } else {
        raw as i16
    }
}

/// Bytes the value of a C type occupies, for the types whose width the type
/// fixes; nothing for a type that is not read.
pub open spec fn value_width(c_type: i16) -> Option<usize> {
    if c_type == SQL_C_SS_TIME2 {
        Some(12)
    } else if c_type == SQL_C_SS_TIMESTAMPOFFSET {
        Some(20)
    } else if c_type == SQL_C_NUMERIC || (SQL_C_INTERVAL_YEAR <= c_type
        <= SQL_C_INTERVAL_MINUTE_TO_SECOND) {
        None
    } else {
        fixed_width(c_type)
    }
}

/// The C type an integer is read as: a `tinyint` of unknown sign is unsigned
/// when the parameter is a `tinyint` too.
pub open spec fn effective_c_type(c_type: i16, sql_type: i16) -> i16 {
    if c_type == SQL_C_TINYINT && sql_type == SQL_TINYINT {
        SQL_C_UTINYINT
    } else {
        c_type
    }
}

/// The C type an integer is read as.
pub fn effective_param_c_type(c_type: i16, sql_type: i16) -> (effective: i16)
    ensures
        effective == effective_c_type(c_type, sql_type),
{
    if c_type == SQL_C_TINYINT && sql_type == SQL_TINYINT {
        SQL_C_UTINYINT
    } else {
        c_type
    }
}

/// The integer at the start of a buffer; nothing for a C type that is not an
/// integer.
pub open spec fn integer_of(bytes: Seq<u8>, c_type: i16) -> Option<int> {
    if c_type == SQL_C_STINYINT || c_type == SQL_C_TINYINT {
        Some(signed_of(bytes[0] as int, 0x100))
    } else if c_type == SQL_C_UTINYINT {
        Some(bytes[0] as int)
    } else if c_type == SQL_C_SSHORT || c_type == SQL_C_SHORT {
        Some(signed_of(u16_at(bytes, 0), 0x1_0000))
    } else if c_type == SQL_C_USHORT {
        Some(u16_at(bytes, 0))
    } else if c_type == SQL_C_SLONG || c_type == SQL_C_LONG {
        Some(signed_of(u32_at(bytes, 0), 0x1_0000_0000))
    } else if c_type == SQL_C_ULONG {
        Some(u32_at(bytes, 0))
    } else if c_type == SQL_C_SBIGINT {
        Some(signed_of(u64_at(bytes, 0), 0x1_0000_0000_0000_0000))
    } else if c_type == SQL_C_UBIGINT {
        Some(u64_at(bytes, 0))
    } else {
        None
    }
}

/// Reads an integer, widening it; nothing for a C type that is not an integer.
pub fn read_integer(bytes: &[u8], c_type: i16) -> (value: Option<i128>)
    requires
        integer_of(bytes@, c_type) is Some ==> bytes@.len() >= value_width(c_type)->Some_0,
    ensures
        match integer_of(bytes@, c_type) {
            Some(n) => value is Some && value->Some_0 == n,
            None => value is None,
        },
{
    match c_type {
        SQL_C_STINYINT | SQL_C_TINYINT => {
            let raw: i128 = bytes[0] as i128;
            Some(if raw >= 0x80 { raw - 0x100 } else { raw })
        },
        SQL_C_UTINYINT => Some(bytes[0] as i128),
        SQL_C_SSHORT | SQL_C_SHORT => Some(read_i16(bytes, 0) as i128),
        SQL_C_USHORT => Some(read_u16(bytes, 0) as i128),
        SQL_C_SLONG | SQL_C_LONG => {
            let raw: i128 = read_u32(bytes, 0) as i128;
            Some(if raw >= 0x8000_0000 { raw - 0x1_0000_0000 } else { raw })
        },
        SQL_C_ULONG => Some(read_u32(bytes, 0) as i128),
        SQL_C_SBIGINT => {
            let raw: i128 = read_u64(bytes, 0) as i128;
            Some(
                if raw >= 0x8000_0000_0000_0000 {
                    raw - 0x1_0000_0000_0000_0000
                } else {
                    raw
                },
            )
        },
        SQL_C_UBIGINT => Some(read_u64(bytes, 0) as i128),
        _ => None,
    }
}

/// The parts that one of the five date and time structures holds. Nothing is
/// checked here: an impossible date is taken as it is.
pub open spec fn datetime_parts_of(bytes: Seq<u8>, c_type: i16) -> DateTimeParts {
    let none = datetime::no_parts();
    if c_type == SQL_C_TYPE_DATE {
        DateTimeParts {
            year: signed_of(u16_at(bytes, 0), 0x1_0000) as i16,
            month: u16_at(bytes, 2) as u16,
            day: u16_at(bytes, 4) as u16,
            has_date: true,
            ..none
        }
    } else if c_type == SQL_C_TYPE_TIME {
        DateTimeParts {
            hour: u16_at(bytes, 0) as u16,
            minute: u16_at(bytes, 2) as u16,
            second: u16_at(bytes, 4) as u16,
            has_time: true,
            ..none
        }
    } else if c_type == SQL_C_SS_TIME2 {
        DateTimeParts {
            hour: u16_at(bytes, 0) as u16,
            minute: u16_at(bytes, 2) as u16,
            second: u16_at(bytes, 4) as u16,
            fraction_ns: u32_at(bytes, 8) as u32,
            has_time: true,
            ..none
        }
    } else {
        let timestamp = DateTimeParts {
            year: signed_of(u16_at(bytes, 0), 0x1_0000) as i16,
            month: u16_at(bytes, 2) as u16,
            day: u16_at(bytes, 4) as u16,
            hour: u16_at(bytes, 6) as u16,
            minute: u16_at(bytes, 8) as u16,
            second: u16_at(bytes, 10) as u16,
            fraction_ns: u32_at(bytes, 12) as u32,
            has_date: true,
            has_time: true,
            ..none
        };
        if c_type == SQL_C_TYPE_TIMESTAMP {
            timestamp
        } else {
            DateTimeParts {
                tz_hour: signed_of(u16_at(bytes, 16), 0x1_0000) as i16,
                tz_minute: signed_of(u16_at(bytes, 18), 0x1_0000) as i16,
                has_tz: true,
                ..timestamp
            }
        }
    }
}

/// Whether a C type is one of the five date and time structures.
pub open spec fn is_datetime_c_type(c_type: i16) -> bool {
    c_type == SQL_C_TYPE_DATE || c_type == SQL_C_TYPE_TIME || c_type == SQL_C_TYPE_TIMESTAMP
        || c_type == SQL_C_SS_TIME2 || c_type == SQL_C_SS_TIMESTAMPOFFSET
}

/// Reads one of the five date and time structures.
pub fn read_datetime_parts(bytes: &[u8], c_type: i16) -> (parts: DateTimeParts)
    requires
        is_datetime_c_type(c_type),
        bytes@.len() >= value_width(c_type)->Some_0,
    ensures
        parts == datetime_parts_of(bytes@, c_type),
{
    let mut p: DateTimeParts = DateTimeParts::default();
    match c_type {
        SQL_C_TYPE_DATE => {
            p.year = read_i16(bytes, 0);
            p.month = read_u16(bytes, 2);
            p.day = read_u16(bytes, 4);
            p.has_date = true;
        },
        SQL_C_TYPE_TIME => {
            p.hour = read_u16(bytes, 0);
            p.minute = read_u16(bytes, 2);
            p.second = read_u16(bytes, 4);
            p.has_time = true;
        },
        SQL_C_SS_TIME2 => {
            p.hour = read_u16(bytes, 0);
            p.minute = read_u16(bytes, 2);
            p.second = read_u16(bytes, 4);
            p.fraction_ns = read_u32(bytes, 8);
            p.has_time = true;
        },
        _ => {
            p.year = read_i16(bytes, 0);
            p.month = read_u16(bytes, 2);
            p.day = read_u16(bytes, 4);
            p.hour = read_u16(bytes, 6);
            p.minute = read_u16(bytes, 8);
            p.second = read_u16(bytes, 10);
            p.fraction_ns = read_u32(bytes, 12);
            p.has_date = true;
            p.has_time = true;
            if c_type == SQL_C_SS_TIMESTAMPOFFSET {
                p.tz_hour = read_i16(bytes, 16);
                p.tz_minute = read_i16(bytes, 18);
                p.has_tz = true;
            }
        },
    }
    p
}

/// Position of the first NUL byte, or the length without one.
pub open spec fn nul_at(bytes: Seq<u8>) -> int
    decreases bytes.len(),
{
    if bytes.len() == 0 || bytes[0] == 0 {
        0
    } else {
        1 + nul_at(bytes.drop_first())
    }
}

/// Number of the two-byte units before the first NUL unit.
pub open spec fn nul_unit_at(bytes: Seq<u8>) -> int
    decreases bytes.len(),
{
    if bytes.len() < 2 || bytes[0] == 0 && bytes[1] == 0 {
        0
    } else {
        1 + nul_unit_at(bytes.skip(2))
    }
}

/// The bytes of a character buffer: `length` of them, or those before the NUL.
pub open spec fn char_bytes_of(bytes: Seq<u8>, length: isize) -> Seq<u8> {
    if length == SQL_NTS {
        bytes.take(nul_at(bytes))
    } else {
        bytes.take(length as int)
    }
}

/// The bytes of a wide character buffer: the whole units among `length` bytes,
/// or those before the NUL unit.
pub open spec fn wchar_bytes_of(bytes: Seq<u8>, length: isize) -> Seq<u8> {
    if length == SQL_NTS {
        bytes.take(2 * nul_unit_at(bytes))
    } else {
        bytes.take(length as int - length as int % 2)
    }
}

/// Whether a buffer can be read for a length: it is that long, or it holds its
/// terminator.
pub open spec fn char_readable(bytes: Seq<u8>, length: isize) -> bool {
    if length == SQL_NTS {
        nul_at(bytes) < bytes.len()
    } else {
        0 <= length <= bytes.len()
    }
}

/// Whether a wide buffer can be read for a length.
pub open spec fn wchar_readable(bytes: Seq<u8>, length: isize) -> bool {
    if length == SQL_NTS {
        2 * nul_unit_at(bytes) + 2 <= bytes.len()
    } else {
        0 <= length <= bytes.len()
    }
}

/// Reads a character buffer.
pub fn read_char_bytes(bytes: &[u8], length: isize) -> (text: Vec<u8>)
    requires
        char_readable(bytes@, length),
    ensures
        text@ == char_bytes_of(bytes@, length),
{
    let end: usize = if length == SQL_NTS {
        let mut n: usize = 0;
        assert(bytes@.skip(0) =~= bytes@);
        while n < bytes.len() && bytes[n] != 0
            invariant
                n <= bytes@.len(),
                n + nul_at(bytes@.skip(n as int)) == nul_at(bytes@),
            decreases bytes@.len() - n,
        {
            assert(bytes@.skip(n as int).drop_first() =~= bytes@.skip(n + 1));
            n = n + 1;
        }
        n
    } else {
        length as usize
    };
    let part = slice_subrange(bytes, 0, end);
    assert(part@ =~= char_bytes_of(bytes@, length));
    copy_bytes(part)
}

/// Reads a wide character buffer.
pub fn read_wchar_bytes(bytes: &[u8], length: isize) -> (text: Vec<u8>)
    requires
        wchar_readable(bytes@, length),
    ensures
        text@ == wchar_bytes_of(bytes@, length),
{
    let end: usize = if length == SQL_NTS {
        let mut n: usize = 0;
        assert(bytes@.skip(0) =~= bytes@);
        while bytes.len() - n >= 2 && !(bytes[n] == 0 && bytes[n + 1] == 0)
            invariant
                n <= bytes@.len(),
                n + 2 * nul_unit_at(bytes@.skip(n as int)) == 2 * nul_unit_at(bytes@),
            decreases bytes@.len() - n,
        {
            assert(bytes@.skip(n as int).skip(2) =~= bytes@.skip(n + 2));
            n = n + 2;
        }
        n
    } else {
        let n: usize = length as usize;
        n - n % 2
    };
    let part = slice_subrange(bytes, 0, end);
    assert(part@ =~= wchar_bytes_of(bytes@, length));
    copy_bytes(part)
}

/// The length of a binary buffer: the binding's length, or its buffer length
/// where no length was given.
pub open spec fn binary_length(param: BoundParam, length: isize) -> Result<
    isize,
    ParamBuildError,
> {
    if length == SQL_NTS {
        if param.buffer_length < 0 {
            Err(ParamBuildError::InvalidLength(param.buffer_length))
        } else {
            Ok(param.buffer_length)
        }
    } else {
        Ok(length)
    }
}

/// Reads a binary buffer, which has no terminator.
pub fn read_binary_bytes(param: &BoundParam, bytes: &[u8], length: isize) -> (result: Result<
    Vec<u8>,
    ParamBuildError,
>)
    requires
        binary_length(*param, length) matches Ok(n) ==> 0 <= n <= bytes@.len(),
    ensures
        match binary_length(*param, length) {
            Ok(n) => result is Ok && result->Ok_0@ == bytes@.take(n as int),
            Err(error) => result is Err && result->Err_0 == error,
        },
{
    let n: isize = if length == SQL_NTS {
        if param.buffer_length < 0 {
            return Err(ParamBuildError::InvalidLength(param.buffer_length));
        }
        param.buffer_length
    } else {
        length
    };
    let part = slice_subrange(bytes, 0, n as usize);
    assert(part@ =~= bytes@.take(n as int));
    Ok(copy_bytes(part))
}

/// An application value as a mathematical one.
pub enum AppValueView {
    Integer(int),
    NarrowText(Seq<u8>),
    WideText(Seq<u8>),
    Binary(Seq<u8>),
    Bit(bool),
    Float(int),
    Double(int),
    Guid { data1: int, data2: int, data3: int, data4: Seq<u8> },
    DateTime(DateTimeParts),
}

impl View for AppValue {
    type V = AppValueView;

    open spec fn view(&self) -> AppValueView {
        match *self {
            AppValue::Integer(v) => AppValueView::Integer(v as int),
            AppValue::NarrowText(bytes) => AppValueView::NarrowText(bytes@),
            AppValue::WideText(bytes) => AppValueView::WideText(bytes@),
            AppValue::Binary(bytes) => AppValueView::Binary(bytes@),
            AppValue::Bit(v) => AppValueView::Bit(v),
            AppValue::Float(bits) => AppValueView::Float(bits as int),
            AppValue::Double(bits) => AppValueView::Double(bits as int),
            AppValue::Guid(guid) => AppValueView::Guid {
                data1: guid.data1 as int,
                data2: guid.data2 as int,
                data3: guid.data3 as int,
                data4: guid.data4@,
            },
            AppValue::DateTime(parts) => AppValueView::DateTime(parts),
        }
    }
}

/// Whether the value buffer of a binding is readable as its C type and the
/// length ask.
pub open spec fn value_readable(param: BoundParam, length: isize) -> bool {
    match param.value {
        None => true,
        Some(buffer) => if param.c_type == SQL_C_CHAR {
            char_readable(buffer@, length)
        } else if param.c_type == SQL_C_WCHAR {
            wchar_readable(buffer@, length)
        } else if param.c_type == SQL_C_BINARY {
            binary_length(param, length) matches Ok(n) ==> 0 <= n <= buffer@.len()
        } else {
            value_width(param.c_type) matches Some(width) ==> buffer@.len() >= width
        },
    }
}

/// The value in a binding's buffer.
pub open spec fn param_value_of(param: BoundParam, length: isize) -> Result<
    AppValueView,
    ParamBuildError,
> {
    match param.value {
        None => Err(ParamBuildError::NullValuePointer),
        Some(buffer) => {
            let b = buffer@;
            if param.c_type == SQL_C_CHAR {
                Ok(AppValueView::NarrowText(char_bytes_of(b, length)))
            } else if param.c_type == SQL_C_WCHAR {
                Ok(AppValueView::WideText(wchar_bytes_of(b, length)))
            } else if param.c_type == SQL_C_BINARY {
                match binary_length(param, length) {
                    Ok(n) => Ok(AppValueView::Binary(b.take(n as int))),
                    Err(error) => Err(error),
                }
            } else if param.c_type == SQL_C_BIT {
                Ok(AppValueView::Bit(b[0] != 0))
            } else if param.c_type == SQL_C_FLOAT {
                Ok(AppValueView::Float(u32_at(b, 0)))
            } else if param.c_type == SQL_C_DOUBLE {
                Ok(AppValueView::Double(u64_at(b, 0)))
            } else if param.c_type == SQL_C_GUID {
                Ok(
                    AppValueView::Guid {
                        data1: u32_at(b, 0),
                        data2: u16_at(b, 4),
                        data3: u16_at(b, 6),
                        data4: b.subrange(8, 16),
                    },
                )
            } else if is_datetime_c_type(param.c_type) {
                Ok(AppValueView::DateTime(datetime_parts_of(b, param.c_type)))
            } else {
                match integer_of(b, effective_c_type(param.c_type, param.sql_type)) {
                    Some(n) => Ok(AppValueView::Integer(n)),
                    None => Err(ParamBuildError::UnsupportedCType(param.c_type)),
                }
            }
        },
    }
}

/// Reads the value buffer of a binding whose lengths gave `length`.
pub fn read_param_value(param: &BoundParam, length: isize) -> (result: Result<
    AppValue,
    ParamBuildError,
>)
    requires
        value_readable(*param, length),
    ensures
        match param_value_of(*param, length) {
            Ok(view) => result is Ok && result->Ok_0@ == view,
            Err(error) => result is Err && result->Err_0 == error,
        },
{
    let buffer = match &param.value {
        Some(buffer) => buffer.as_slice(),
        None => {
            return Err(ParamBuildError::NullValuePointer);
        },
    };
    match param.c_type {
        SQL_C_CHAR => Ok(AppValue::NarrowText(read_char_bytes(buffer, length))),
        SQL_C_WCHAR => Ok(AppValue::WideText(read_wchar_bytes(buffer, length))),
        SQL_C_BINARY => match read_binary_bytes(param, buffer, length) {
            Ok(bytes) => Ok(AppValue::Binary(bytes)),
            Err(error) => Err(error),
        },
        SQL_C_BIT => Ok(AppValue::Bit(buffer[0] != 0)),
        SQL_C_FLOAT => Ok(AppValue::Float(read_u32(buffer, 0))),
        SQL_C_DOUBLE => Ok(AppValue::Double(read_u64(buffer, 0))),
        SQL_C_GUID => {
            let data4: [u8; 8] = [
                buffer[8],
                buffer[9],
                buffer[10],
                buffer[11],
                buffer[12],
                buffer[13],
                buffer[14],
                buffer[15],
            ];
            assert(data4@ =~= buffer@.subrange(8, 16));
            Ok(
                AppValue::Guid(
                    SqlGuid {
                        data1: read_u32(buffer, 0),
                        data2: read_u16(buffer, 4),
                        data3: read_u16(buffer, 6),
                        data4,
                    },
                ),
            )
        },
        SQL_C_TYPE_DATE
        | SQL_C_TYPE_TIME
        | SQL_C_TYPE_TIMESTAMP
        | SQL_C_SS_TIME2
        | SQL_C_SS_TIMESTAMPOFFSET => Ok(
            AppValue::DateTime(read_datetime_parts(buffer, param.c_type)),
        ),
        other => {
            let effective: i16 = effective_param_c_type(other, param.sql_type);
            match read_integer(buffer, effective) {
                Some(value) => Ok(AppValue::Integer(value)),
                None => Err(ParamBuildError::UnsupportedCType(other)),
            }
        },
    }
}

/// A number in `width` bytes, its lowest byte first, in two's complement.
pub open spec fn stored(value: int, width: nat) -> Seq<u8>
    decreases width,
{
    if width == 0 {
        Seq::empty()
    } else {
        seq![(value % 256) as u8] + stored(value / 256, (width - 1) as nat)
    }
}

/// Whether a number stands in `width` bytes from `at` on.
#[verifier::opaque]
pub open spec fn holds(bytes: Seq<u8>, at: int, value: int, width: nat) -> bool {
    0 <= at && at + width <= bytes.len() && bytes.subrange(at, at + width) == stored(value, width)
}

/// Two bytes hold a number up to a multiple of their span.
pub proof fn lemma_holds_2(bytes: Seq<u8>, at: int, value: int)
    requires
        holds(bytes, at, value, 2),
    ensures
        u16_at(bytes, at) == value % 0x1_0000,
{
    reveal(holds);
    reveal_with_fuel(stored, 3);
    let part = bytes.subrange(at, at + 2);
    assert(part[0] == bytes[at] && part[1] == bytes[at + 1]);
    assert(part[0] == (value % 256) as u8);
    assert(part[1] == ((value / 256) % 256) as u8);
}

/// A stored number has its width.
pub proof fn lemma_stored_length(value: int, width: nat)
    ensures
        stored(value, width).len() == width,
    decreases width,
{
    if width > 0 {
        lemma_stored_length(value / 256, (width - 1) as nat);
    }
}

/// A stored number is its lower half and then its upper half.
proof fn lemma_stored_in_halves(value: int, low: nat, high: nat, shifted: int)
    requires
        shifted == down(value, low),
    ensures
        stored(value, low + high) == stored(value, low) + stored(shifted, high),
    decreases low,
{
    if low > 0 {
        lemma_stored_in_halves(value / 256, (low - 1) as nat, high, shifted);
        assert(stored(value, low + high) =~= stored(value, low) + stored(shifted, high));
    } else {
        assert(stored(value, 0) + stored(shifted, high) =~= stored(value, high));
    }
}

/// A number without its lowest `count` bytes.
spec fn down(value: int, count: nat) -> int
    decreases count,
{
    if count == 0 {
        value
    } else {
        down(value / 256, (count - 1) as nat)
    }
}

/// A number that bytes hold stands there in two halves.
proof fn lemma_holds_halves(bytes: Seq<u8>, at: int, value: int, half: nat, high: int)
    requires
        holds(bytes, at, value, half + half),
        high == down(value, half),
    ensures
        holds(bytes, at, value, half),
        holds(bytes, at + half, high, half),
{
    reveal(holds);
    lemma_stored_in_halves(value, half, half, high);
    lemma_stored_length(value, half);
    lemma_stored_length(high, half);
    let part = bytes.subrange(at, at + half + half);
    assert(bytes.subrange(at, at + half) =~= part.subrange(0, half as int));
    assert(bytes.subrange(at + half, at + half + half) =~= part.subrange(
        half as int,
        half as int + half as int,
    ));
    assert(part.subrange(0, half as int) =~= stored(value, half));
    assert(part.subrange(half as int, half as int + half as int) =~= stored(high, half));
}

/// Four bytes hold a number up to a multiple of their span.
pub proof fn lemma_holds_4(bytes: Seq<u8>, at: int, value: int)
    requires
        holds(bytes, at, value, 4),
    ensures
        u32_at(bytes, at) == value % 0x1_0000_0000,
{
    reveal_with_fuel(down, 3);
    let high = value / 0x1_0000;
    assert(value / 256 / 256 == high);
    assert(down(value, 2) == high);
    lemma_holds_halves(bytes, at, value, 2, high);
    lemma_holds_2(bytes, at, value);
    lemma_holds_2(bytes, at + 2, high);
}

/// The two halves of a number of eight bytes.
proof fn lemma_halves_of_8(value: int)
    ensures
        value / 256 / 256 / 256 / 256 == value / 0x1_0000_0000,
        value % 0x1_0000_0000 + 0x1_0000_0000 * ((value / 0x1_0000_0000) % 0x1_0000_0000) == value
            % 0x1_0000_0000_0000_0000,
{
    let high = value / 0x1_0000_0000;
    let top = high / 0x1_0000_0000;
    assert(value == 0x1_0000_0000_0000_0000 * top + (0x1_0000_0000 * (high % 0x1_0000_0000) + value
        % 0x1_0000_0000));
}

/// Eight bytes hold a number up to a multiple of their span.
pub proof fn lemma_holds_8(bytes: Seq<u8>, at: int, value: int)
    requires
        holds(bytes, at, value, 8),
    ensures
        u64_at(bytes, at) == value % 0x1_0000_0000_0000_0000,
{
    reveal_with_fuel(down, 5);
    let high = value / 0x1_0000_0000;
    lemma_halves_of_8(value);
    assert(down(value, 4) == high);
    lemma_holds_halves(bytes, at, value, 4, high);
    lemma_holds_4(bytes, at, value);
    lemma_holds_4(bytes, at + 4, high);
}

/// The bytes that an integer takes in a buffer of a C type; nothing where the
/// type is no integer or has no room for it. The plain types are signed, as the
/// platform's are.
pub open spec fn room_for(c_type: i16, value: int) -> Option<nat> {
    if c_type == SQL_C_TINYINT || c_type == SQL_C_STINYINT {
        if -128 <= value < 128 {
            Some(1nat)
        } else {
            None
        }
    } else if c_type == SQL_C_UTINYINT {
        if 0 <= value < 256 {
            Some(1nat)
        } else {
            None
        }
    } else if c_type == SQL_C_SHORT || c_type == SQL_C_SSHORT {
        if -32_768 <= value < 32_768 {
            Some(2nat)
        } else {
            None
        }
    } else if c_type == SQL_C_USHORT {
        if 0 <= value < 65_536 {
            Some(2nat)
        } else {
            None
        }
    } else if c_type == SQL_C_LONG || c_type == SQL_C_SLONG {
        if -2_147_483_648 <= value < 2_147_483_648 {
            Some(4nat)
        } else {
            None
        }
    } else if c_type == SQL_C_ULONG {
        if 0 <= value < 4_294_967_296 {
            Some(4nat)
        } else {
            None
        }
    } else if c_type == SQL_C_SBIGINT {
        if -9_223_372_036_854_775_808 <= value < 9_223_372_036_854_775_808 {
            Some(8nat)
        } else {
            None
        }
    } else if c_type == SQL_C_UBIGINT {
        if 0 <= value < 18_446_744_073_709_551_616 {
            Some(8nat)
        } else {
            None
        }
    } else {
        None
    }
}

/// An integer that a buffer holds is read as itself, whatever stands behind it.
pub proof fn integers_are_read_as_they_are_stored(bytes: Seq<u8>, c_type: i16, value: int)
    requires
        room_for(c_type, value) matches Some(width) && holds(bytes, 0, value, width),
    ensures
        integer_of(bytes, c_type) == Some(value),
        value_width(c_type) == Some(room_for(c_type, value)->Some_0 as usize),
{
    let width = room_for(c_type, value)->Some_0;
    if width == 1 {
        reveal(holds);
        reveal_with_fuel(stored, 2);
        assert(bytes.subrange(0, 1)[0] == bytes[0]);
        assert(stored(value, 1)[0] == (value % 256) as u8);
    } else if width == 2 {
        lemma_holds_2(bytes, 0, value);
    } else if width == 4 {
        lemma_holds_4(bytes, 0, value);
    } else {
        lemma_holds_8(bytes, 0, value);
    }
}

/// A date, a time or both, as the structure of a C type holds them in memory: its
/// fields one after the other, at the places that C gives them.
pub open spec fn structure_holds(bytes: Seq<u8>, c_type: i16, parts: DateTimeParts) -> bool {
    if c_type == SQL_C_TYPE_DATE {
        &&& holds(bytes, 0, parts.year as int, 2)
        &&& holds(bytes, 2, parts.month as int, 2)
        &&& holds(bytes, 4, parts.day as int, 2)
    } else if c_type == SQL_C_TYPE_TIME || c_type == SQL_C_SS_TIME2 {
        &&& holds(bytes, 0, parts.hour as int, 2)
        &&& holds(bytes, 2, parts.minute as int, 2)
        &&& holds(bytes, 4, parts.second as int, 2)
        &&& c_type == SQL_C_SS_TIME2 ==> holds(bytes, 8, parts.fraction_ns as int, 4)
    } else {
        &&& holds(bytes, 0, parts.year as int, 2)
        &&& holds(bytes, 2, parts.month as int, 2)
        &&& holds(bytes, 4, parts.day as int, 2)
        &&& holds(bytes, 6, parts.hour as int, 2)
        &&& holds(bytes, 8, parts.minute as int, 2)
        &&& holds(bytes, 10, parts.second as int, 2)
        &&& holds(bytes, 12, parts.fraction_ns as int, 4)
        &&& c_type == SQL_C_SS_TIMESTAMPOFFSET ==> holds(bytes, 16, parts.tz_hour as int, 2)
            && holds(bytes, 18, parts.tz_minute as int, 2)
    }
}

/// A structure is read as the date and time it holds: the parts it has are there
/// as they were stored, and the parts it has not are absent.
pub proof fn structures_are_read_as_they_are_stored(
    bytes: Seq<u8>,
    c_type: i16,
    parts: DateTimeParts,
)
    requires
        is_datetime_c_type(c_type),
        structure_holds(bytes, c_type, parts),
    ensures
        ({
            let read = datetime_parts_of(bytes, c_type);
            &&& read.has_date == (c_type == SQL_C_TYPE_DATE || c_type == SQL_C_TYPE_TIMESTAMP
                || c_type == SQL_C_SS_TIMESTAMPOFFSET)
            &&& read.has_time == (c_type != SQL_C_TYPE_DATE)
            &&& read.has_tz == (c_type == SQL_C_SS_TIMESTAMPOFFSET)
            &&& read.has_date ==> (read.year, read.month, read.day) == (
                parts.year,
                parts.month,
                parts.day,
            )
            &&& read.has_time ==> (read.hour, read.minute, read.second) == (
                parts.hour,
                parts.minute,
                parts.second,
            )
            &&& read.has_time && c_type != SQL_C_TYPE_TIME ==> read.fraction_ns
                == parts.fraction_ns
            &&& read.has_tz ==> (read.tz_hour, read.tz_minute) == (parts.tz_hour, parts.tz_minute)
            &&& !read.has_date ==> read.year == 0 && read.month == 0 && read.day == 0
            &&& !read.has_time ==> read.hour == 0 && read.minute == 0 && read.second == 0
            &&& !read.has_time || c_type == SQL_C_TYPE_TIME ==> read.fraction_ns == 0
            &&& !read.has_tz ==> read.tz_hour == 0 && read.tz_minute == 0
            &&& read.scale == 0
        }),
{
    if c_type == SQL_C_TYPE_DATE {
        lemma_holds_2(bytes, 0, parts.year as int);
        lemma_holds_2(bytes, 2, parts.month as int);
        lemma_holds_2(bytes, 4, parts.day as int);
    } else if c_type == SQL_C_TYPE_TIME || c_type == SQL_C_SS_TIME2 {
        lemma_holds_2(bytes, 0, parts.hour as int);
        lemma_holds_2(bytes, 2, parts.minute as int);
        lemma_holds_2(bytes, 4, parts.second as int);
        if c_type == SQL_C_SS_TIME2 {
            lemma_holds_4(bytes, 8, parts.fraction_ns as int);
        }
    } else {
        lemma_holds_2(bytes, 0, parts.year as int);
        lemma_holds_2(bytes, 2, parts.month as int);
        lemma_holds_2(bytes, 4, parts.day as int);
        lemma_holds_2(bytes, 6, parts.hour as int);
        lemma_holds_2(bytes, 8, parts.minute as int);
        lemma_holds_2(bytes, 10, parts.second as int);
        lemma_holds_4(bytes, 12, parts.fraction_ns as int);
        if c_type == SQL_C_SS_TIMESTAMPOFFSET {
            lemma_holds_2(bytes, 16, parts.tz_hour as int);
            lemma_holds_2(bytes, 18, parts.tz_minute as int);
        }
    }
}

/// Where the first NUL of a buffer stands.
pub proof fn lemma_nul_at(bytes: Seq<u8>)
    ensures
        0 <= nul_at(bytes) <= bytes.len(),
        nul_at(bytes) < bytes.len() ==> bytes[nul_at(bytes)] == 0,
        forall|k: int| 0 <= k < nul_at(bytes) ==> #[trigger] bytes[k] != 0,
    decreases bytes.len(),
{
    if bytes.len() > 0 && bytes[0] != 0 {
        lemma_nul_at(bytes.drop_first());
        assert forall|k: int| 0 <= k < nul_at(bytes) implies #[trigger] bytes[k] != 0 by {
            if k > 0 {
                assert(bytes.drop_first()[k - 1] == bytes[k]);
            }
        }
    }
}

/// Where the first NUL unit of a wide buffer stands.
pub proof fn lemma_nul_unit_at(bytes: Seq<u8>)
    ensures
        0 <= 2 * nul_unit_at(bytes) <= bytes.len(),
        2 * nul_unit_at(bytes) + 2 <= bytes.len() ==> bytes[2 * nul_unit_at(bytes)] == 0
            && bytes[2 * nul_unit_at(bytes) + 1] == 0,
        forall|k: int|
            0 <= k < nul_unit_at(bytes) ==> !(#[trigger] bytes[2 * k] == 0 && bytes[2 * k + 1] == 0),
    decreases bytes.len(),
{
    if bytes.len() >= 2 && !(bytes[0] == 0 && bytes[1] == 0) {
        let rest = bytes.skip(2);
        lemma_nul_unit_at(rest);
        assert forall|k: int| 0 <= k < nul_unit_at(bytes) implies !(#[trigger] bytes[2 * k] == 0
            && bytes[2 * k + 1] == 0) by {
            if k > 0 {
                assert(rest[2 * (k - 1)] == bytes[2 * k]);
                assert(rest[2 * (k - 1) + 1] == bytes[2 * k + 1]);
            }
        }
    }
}

/// A text in a buffer is read without its terminator and without what stands
/// behind it: as many bytes as its length says, or up to the terminator.
pub proof fn a_text_is_read_up_to_its_end(text: Seq<u8>, rest: Seq<u8>, length: isize)
    requires
        length == text.len() || length == SQL_NTS && forall|k: int|
            0 <= k < text.len() ==> #[trigger] text[k] != 0,
    ensures
        length >= 0 ==> char_readable(text + rest, length) && char_bytes_of(text + rest, length)
            == text,
        length == SQL_NTS ==> char_readable(text.push(0) + rest, length) && char_bytes_of(
            text.push(0) + rest,
            length,
        ) == text,
{
    assert((text + rest).take(text.len() as int) =~= text);
    let ended = text.push(0) + rest;
    if length == SQL_NTS {
        lemma_nul_at(ended);
        let at = nul_at(ended);
        assert(ended[text.len() as int] == 0);
        if at < text.len() {
            assert(ended[at] == text[at]);
        }
        assert(ended.take(at) =~= text);
    }
}

/// A wide text in a buffer is read without its terminator and without what
/// stands behind it. Of an odd length the last byte is no unit and is not read.
pub proof fn a_wide_text_is_read_up_to_its_end(
    text: Seq<u8>,
    odd: Seq<u8>,
    rest: Seq<u8>,
    length: isize,
)
    requires
        text.len() % 2 == 0,
        odd.len() <= 1,
        length == text.len() + odd.len() || length == SQL_NTS && forall|k: int|
            0 <= k < text.len() / 2 ==> !(#[trigger] text[2 * k] == 0 && text[2 * k + 1] == 0),
    ensures
        length >= 0 ==> wchar_readable(text + odd + rest, length) && wchar_bytes_of(
            text + odd + rest,
            length,
        ) == text,
        length == SQL_NTS ==> wchar_readable(text + seq![0u8, 0u8] + rest, length)
            && wchar_bytes_of(text + seq![0u8, 0u8] + rest, length) == text,
{
    assert((text + odd + rest).take(text.len() as int) =~= text);
    let ended = text + seq![0u8, 0u8] + rest;
    let n = text.len() as int;
    if length == SQL_NTS {
        lemma_nul_unit_at(ended);
        let at = nul_unit_at(ended);
        assert(ended[2 * (n / 2)] == 0 && ended[2 * (n / 2) + 1] == 0);
        if 2 * at < n {
            assert(ended[2 * at] == text[2 * at] && ended[2 * at + 1] == text[2 * at + 1]);
        }
        if 2 * at > n {
            assert(ended[2 * (n / 2)] == 0);
        }
        assert(ended.take(2 * at) =~= text);
    }
}

/// What a binding's lengths say: NULL comes first, then what cannot be a length,
/// and only a value that is there has one.
pub proof fn an_indicator_says_null_or_a_length(param: BoundParam)
    ensures
        param.indicator == Some(-1isize) ==> indicator_of(param) == Ok::<Indicator, ParamBuildError>(
            Indicator::Null,
        ),
        indicator_of(param) matches Ok(Indicator::Length(length)) ==> {
            &&& param.indicator != Some(-1isize)
            &&& param.value is Some
            &&& param.octet_length == Some(length) || param.octet_length is None && length == -3
        },
        param.indicator != Some(-1isize) && param.value is Some && (param.octet_length is None
            || param.octet_length->Some_0 >= 0) ==> indicator_of(param) is Ok
            && indicator_of(param)->Ok_0 is Length,
        param.indicator != Some(-1isize) && (param.octet_length == Some(-2isize)
            || param.octet_length is Some && param.octet_length->Some_0 <= -100)
            ==> indicator_of(param) == Err::<Indicator, ParamBuildError>(
            ParamBuildError::DataAtExecNotStaged,
        ),
        param.indicator != Some(-1isize) && param.octet_length == Some(-5isize) ==> indicator_of(
            param,
        ) == Err::<Indicator, ParamBuildError>(ParamBuildError::InvalidUseOfDefaultParam),
        param.indicator != Some(-1isize) && param.value is None ==> indicator_of(param) is Err
            || param.octet_length == Some(0isize),
{
}

/// The values of an array stand as far apart as they are wide: each integer, each
/// floating-point number and each structure of C behind the one before, without a
/// gap; texts, bytes and the two structures of the server as the binding says.
pub proof fn array_values_stand_side_by_side(c_type: i16, buffer_length: isize, value: int)
    ensures
        room_for(c_type, value) is Some ==> stride_of(c_type, buffer_length) == Some(
            room_for(c_type, value)->Some_0 as usize,
        ),
        c_type == SQL_C_BIT ==> stride_of(c_type, buffer_length) == Some(1usize),
        c_type == SQL_C_FLOAT ==> stride_of(c_type, buffer_length) == Some(4usize),
        c_type == SQL_C_DOUBLE ==> stride_of(c_type, buffer_length) == Some(8usize),
        c_type == SQL_C_TYPE_DATE || c_type == SQL_C_TYPE_TIME ==> stride_of(c_type, buffer_length)
            == Some((3 * 2) as usize),
        c_type == SQL_C_TYPE_TIMESTAMP ==> stride_of(c_type, buffer_length) == Some(
            (6 * 2 + 4) as usize,
        ),
        c_type == SQL_C_GUID ==> stride_of(c_type, buffer_length) == Some((4 + 2 + 2 + 8) as usize),
        c_type == SQL_C_NUMERIC ==> stride_of(c_type, buffer_length) == Some((3 + 16) as usize),
        101 <= c_type <= 113 ==> stride_of(c_type, buffer_length) == Some((2 * 4 + 5 * 4) as usize),
        c_type == SQL_C_CHAR || c_type == SQL_C_WCHAR || c_type == SQL_C_BINARY || c_type
            == SQL_C_SS_TIME2 || c_type == SQL_C_SS_TIMESTAMPOFFSET ==> (stride_of(
            c_type,
            buffer_length,
        ) is Some <==> buffer_length >= 0) && (stride_of(c_type, buffer_length) matches Some(n)
            ==> n == buffer_length),
        stride_of(c_type, buffer_length) matches Some(n) ==> value_width(c_type) is None
            || c_type == SQL_C_SS_TIME2 || c_type == SQL_C_SS_TIMESTAMPOFFSET || value_width(
            c_type,
        ) == Some(n),
        value_width(SQL_C_SS_TIME2) == Some((3 * 2 + 2 + 4) as usize),
        value_width(SQL_C_SS_TIMESTAMPOFFSET) == Some((6 * 2 + 4 + 2 * 2) as usize),
{
}

/// A buffer is read as what its C type says it holds.
pub proof fn a_buffer_is_read_as_its_c_type(
    param: BoundParam,
    length: isize,
    value: int,
    low: int,
    high: int,
)
    requires
        param.value is Some,
    ensures
        ({
            let b = param.value->Some_0@;
            let read = param_value_of(param, length);
            &&& param.c_type == SQL_C_CHAR ==> read == Ok::<AppValueView, ParamBuildError>(
                AppValueView::NarrowText(char_bytes_of(b, length)),
            )
            &&& param.c_type == SQL_C_WCHAR ==> read == Ok::<AppValueView, ParamBuildError>(
                AppValueView::WideText(wchar_bytes_of(b, length)),
            )
            &&& param.c_type == SQL_C_BINARY && length >= 0 ==> read == Ok::<
                AppValueView,
                ParamBuildError,
            >(AppValueView::Binary(b.take(length as int)))
            &&& param.c_type == SQL_C_BINARY && length == -3 && param.buffer_length >= 0 ==> read
                == Ok::<AppValueView, ParamBuildError>(
                AppValueView::Binary(b.take(param.buffer_length as int)),
            )
            &&& param.c_type == SQL_C_BIT ==> read == Ok::<AppValueView, ParamBuildError>(
                AppValueView::Bit(b[0] != 0),
            )
            &&& param.c_type == SQL_C_FLOAT && 0 <= value < 0x1_0000_0000 && holds(b, 0, value, 4)
                ==> read == Ok::<AppValueView, ParamBuildError>(AppValueView::Float(value))
            &&& param.c_type == SQL_C_DOUBLE && 0 <= value < 0x1_0000_0000_0000_0000 && holds(
                b,
                0,
                value,
                8,
            ) ==> read == Ok::<AppValueView, ParamBuildError>(AppValueView::Double(value))
            &&& param.c_type == SQL_C_GUID && 0 <= value < 0x1_0000_0000 && 0 <= low < 0x1_0000
                && 0 <= high < 0x1_0000 && holds(b, 0, value, 4) && holds(b, 4, low, 2) && holds(
                b,
                6,
                high,
                2,
            ) ==> read == Ok::<AppValueView, ParamBuildError>(
                AppValueView::Guid {
                    data1: value,
                    data2: low,
                    data3: high,
                    data4: b.subrange(8, 16),
                },
            )
            &&& param.c_type == SQL_C_TYPE_DATE || param.c_type == SQL_C_TYPE_TIME || param.c_type
                == SQL_C_TYPE_TIMESTAMP || param.c_type == SQL_C_SS_TIME2 || param.c_type
                == SQL_C_SS_TIMESTAMPOFFSET ==> read == Ok::<AppValueView, ParamBuildError>(
                AppValueView::DateTime(datetime_parts_of(b, param.c_type)),
            )
            &&& !(param.c_type == SQL_C_TINYINT && param.sql_type == SQL_TINYINT) ==> (room_for(
                param.c_type,
                value,
            ) matches Some(width) ==> holds(b, 0, value, width) ==> read == Ok::<
                AppValueView,
                ParamBuildError,
            >(AppValueView::Integer(value)))
            &&& param.c_type == SQL_C_TINYINT && param.sql_type == SQL_TINYINT && 0 <= value < 256
                && holds(b, 0, value, 1) ==> read == Ok::<AppValueView, ParamBuildError>(
                AppValueView::Integer(value),
            )
        }),
{
    let b = param.value->Some_0@;
    if param.c_type == SQL_C_FLOAT && holds(b, 0, value, 4) {
        lemma_holds_4(b, 0, value);
    }
    if param.c_type == SQL_C_DOUBLE && holds(b, 0, value, 8) {
        lemma_holds_8(b, 0, value);
    }
    if param.c_type == SQL_C_GUID && holds(b, 0, value, 4) && holds(b, 4, low, 2) && holds(
        b,
        6,
        high,
        2,
    ) {
        lemma_holds_4(b, 0, value);
        lemma_holds_2(b, 4, low);
        lemma_holds_2(b, 6, high);
    }
    if room_for(param.c_type, value) matches Some(width) && holds(b, 0, value, width) {
        integers_are_read_as_they_are_stored(b, param.c_type, value);
    }
    if 0 <= value < 256 && holds(b, 0, value, 1) {
        integers_are_read_as_they_are_stored(b, SQL_C_UTINYINT, value);
    }
}

/// A text, bytes or a vector has the length that its binding says, which may not be
/// negative; an integer, a floating-point number or a structure has the width of its
/// type, whatever the binding says. Without a buffer the former are NULL where the
/// length is zero, and the latter never.
pub proof fn only_values_of_varying_width_have_lengths(param: BoundParam, length: isize)
    requires
        param.indicator != Some(-1isize),
        param.octet_length == Some(length),
        length != -5,
        length != -2,
        length > -100,
    ensures
        ({
            let varying = param.c_type == SQL_C_CHAR || param.c_type == SQL_C_WCHAR || param.c_type
                == SQL_C_BINARY || param.c_type == SQL_C_SS_VECTOR;
            &&& varying && length < 0 && length != -3 ==> indicator_of(param) == Err::<
                Indicator,
                ParamBuildError,
            >(ParamBuildError::InvalidLength(length))
            &&& (!varying || length >= 0 || length == -3) && param.value is Some ==> indicator_of(
                param,
            ) == Ok::<Indicator, ParamBuildError>(Indicator::Length(length))
            &&& varying && length == 0 && param.value is None ==> indicator_of(param) == Ok::<
                Indicator,
                ParamBuildError,
            >(Indicator::Null)
            &&& !varying && param.value is None ==> indicator_of(param) == Err::<
                Indicator,
                ParamBuildError,
            >(ParamBuildError::InvalidBufferLength)
            &&& (length > 0 || length == -3) && param.value is None ==> indicator_of(param) == Err::<
                Indicator,
                ParamBuildError,
            >(ParamBuildError::InvalidBufferLength)
        }),
{
}

} // verus!
