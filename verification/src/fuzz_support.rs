//! Entry points that drive the parsers and converters over arbitrary input.
//!
//! Each one takes what an application or a server could send and gives back
//! what was made of it.

use vstd::prelude::*;

use crate::byte_cursor::{self, build_column_value, ByteCursor};
use crate::conversion::calendar::CivilDate;
use crate::conversion::column_value::ColumnValues;
use crate::conversion::datetime::{
    self, parse_date_literal, parse_datetime_literal, parse_time_literal, DateTimeParts, ParsedTime,
};
use crate::conversion::error::ConvError;
use crate::conversion::numeric::{self, narrow_i128, parse_numeric_text};
use crate::conversion::param_buffer::{self, BoundParam};
use crate::conversion::param_convert::{self, bound_param_to_value, RpcTypeMetadata, SqlType};
use crate::conversion::param_error::ParamBuildError;
use crate::conversion::transcode::{self, DaeTranscode, Encoded, SqlCollation};
use crate::odbc_types::{
    SqlLen, SqlReturn, SqlSmallInt, SqlULen, SQL_BIGINT, SQL_BINARY, SQL_CHAR, SQL_C_BINARY,
    SQL_C_BIT, SQL_C_CHAR, SQL_C_DATE, SQL_C_DOUBLE, SQL_C_FLOAT, SQL_C_GUID, SQL_C_LONG,
    SQL_C_NUMERIC, SQL_C_SBIGINT, SQL_C_SHORT, SQL_C_SLONG, SQL_C_SSHORT, SQL_C_SS_TIME2,
    SQL_C_SS_TIMESTAMPOFFSET, SQL_C_STINYINT, SQL_C_TIME, SQL_C_TIMESTAMP, SQL_C_TINYINT,
    SQL_C_TYPE_DATE, SQL_C_TYPE_TIME, SQL_C_TYPE_TIMESTAMP, SQL_C_UBIGINT, SQL_C_ULONG,
    SQL_C_USHORT, SQL_C_UTINYINT, SQL_C_WCHAR, SQL_INTEGER, SQL_LONGVARBINARY, SQL_LONGVARCHAR,
    SQL_NTS, SQL_NULL_DATA, SQL_PARAM_INPUT, SQL_SMALLINT, SQL_SUCCESS, SQL_SUCCESS_WITH_INFO,
    SQL_TINYINT, SQL_VARBINARY, SQL_VARCHAR, SQL_WCHAR, SQL_WLONGVARCHAR, SQL_WVARCHAR,
};

verus! {

/// A number in the narrower types, or why it does not fit.
#[derive(Debug, Clone, Copy, PartialEq, Eq)]
pub struct NarrowedNumber {
    pub value: i128,
    pub fraction_dropped: bool,
    pub as_i64: Result<i64, ConvError>,
    pub as_i32: Result<i32, ConvError>,
    pub as_i16: Result<i16, ConvError>,
    pub as_i8: Result<i8, ConvError>,
    pub as_u8: Result<u8, ConvError>,
}

/// What a number's text was read as.
#[derive(Debug, Clone, Copy, PartialEq, Eq)]
pub struct NumericReading {
    pub negative: bool,
    pub whole: Option<NarrowedNumber>,
}

/// Whether a number in the narrower types is this number.
pub open spec fn narrowed_to(whole: NarrowedNumber, value: int, dropped: bool) -> bool {
    &&& whole.value == value
    &&& whole.fraction_dropped == dropped
    &&& whole.as_i64 == (if i64::MIN <= value <= i64::MAX {
        Ok(value as i64)
    } else {
        Err(ConvError::OutOfRange)
    })
    &&& whole.as_i32 == (if i32::MIN <= value <= i32::MAX {
        Ok(value as i32)
    } else {
        Err(ConvError::OutOfRange)
    })
    &&& whole.as_i16 == (if i16::MIN <= value <= i16::MAX {
        Ok(value as i16)
    } else {
        Err(ConvError::OutOfRange)
    })
    &&& whole.as_i8 == (if i8::MIN <= value <= i8::MAX {
        Ok(value as i8)
    } else {
        Err(ConvError::OutOfRange)
    })
    &&& whole.as_u8 == (if u8::MIN <= value <= u8::MAX {
        Ok(value as u8)
    } else {
        Err(ConvError::OutOfRange)
    })
}

/// Reads a number's text and narrows it to every integer type. `double` holds
/// the bits of the double that the number parses to, if it parses.
pub fn fuzz_numeric_text(input: &str, double: Option<u64>) -> (reading: Option<NumericReading>)
    ensures
        match numeric::numeric_of(input@, double) {
            Err(_) => reading is None,
            Ok(source) => {
                &&& reading matches Some(read)
                &&& read.negative == numeric::negative(source)
                &&& match numeric::truncation(source) {
                    Some((value, dropped)) => read.whole matches Some(whole) && narrowed_to(
                        whole,
                        value,
                        dropped,
                    ),
                    None => read.whole is None,
                }
            },
        },
{
    let source = match parse_numeric_text(input, double) {
        Ok(source) => source,
        Err(_) => {
            return None;
        },
    };
    let negative: bool = source.is_negative();
    let whole: Option<NarrowedNumber> = match source.to_i128_truncating() {
        Some((value, fraction_dropped)) => Some(
            NarrowedNumber {
                value,
                fraction_dropped,
                as_i64: narrow_i128::<i64>(value),
                as_i32: narrow_i128::<i32>(value),
                as_i16: narrow_i128::<i16>(value),
                as_i8: narrow_i128::<i8>(value),
                as_u8: narrow_i128::<u8>(value),
            },
        ),
        None => None,
    };
    Some(NumericReading { negative, whole })
}

/// Reads a text as a date, as a time and as both.
pub fn fuzz_datetime_literal(input: &str) -> (read: (
    Option<CivilDate>,
    Option<ParsedTime>,
    Option<DateTimeParts>,
))
    ensures
        read.0 == datetime::date_of(input@),
        read.1 == datetime::time_of(input@),
        read.2 == datetime::datetime_of(input@),
{
    (parse_date_literal(input), parse_time_literal(input), parse_datetime_literal(input))
}

/// The C type, SQL type and collation that a mode stands for.
pub open spec fn transcode_mode(mode: u8) -> (SqlSmallInt, SqlSmallInt, SqlCollation) {
    (
        if mode % 2 == 0 {
            SQL_C_CHAR
        } else {
            SQL_C_WCHAR
        },
        if (mode / 2) % 2 == 0 {
            SQL_VARCHAR
        } else {
            SQL_WVARCHAR
        },
        SqlCollation {
            info: if (mode / 4) % 3 == 1 {
                0x0409
            } else {
                0
            },
            lcid_language_id: 0,
            col_flags: if (mode / 4) % 3 == 0 {
                0x40
            } else {
                0
            },
            sort_id: 0,
        },
    )
}

/// Re-encodes a value that comes in one piece, and then what it ends part-way
/// through.
pub fn fuzz_transcode_dae_bytes(input: &[u8], mode: u8) -> (encoded: (Encoded, Encoded))
    ensures
        ({
            let (c_type, sql_type, collation) = transcode_mode(mode);
            let source = transcode::source_of(c_type);
            let target = transcode::target_of(sql_type, collation);
            let carried = transcode::carried_part(source, input@);
            if transcode::passes_through(DaeTranscode { source, target }) {
                &&& encoded.0@ == transcode::EncodedView::Bytes(input@)
                &&& encoded.1@ == transcode::EncodedView::Bytes(Seq::empty())
            } else {
                &&& encoded.0@ == transcode::encode_of(
                    target,
                    transcode::decode_of(source, transcode::decoded_part(source, input@)),
                )
                &&& encoded.1@ == (if carried.len() == 0 {
                    transcode::EncodedView::Bytes(Seq::empty())
                } else {
                    transcode::encode_of(target, transcode::decode_of(source, carried))
                })
            }
        }),
{
    let c_type: SqlSmallInt = if mode % 2 == 0 {
        SQL_C_CHAR
    } else {
        SQL_C_WCHAR
    };
    let sql_type: SqlSmallInt = if (mode / 2) % 2 == 0 {
        SQL_VARCHAR
    } else {
        SQL_WVARCHAR
    };
    let pick: u8 = (mode / 4) % 3;
    let collation = SqlCollation {
        info: if pick == 1 {
            0x0409
        } else {
            0
        },
        lcid_language_id: 0,
        col_flags: if pick == 0 {
            0x40
        } else {
            0
        },
        sort_id: 0,
    };
    let conversion: DaeTranscode = DaeTranscode::new(c_type, sql_type, collation);
    let mut carry: Vec<u8> = Vec::new();
    assert(carry@ + input@ =~= input@);
    let first: Encoded = conversion.push(&mut carry, input);
    let last: Encoded = conversion.finish(&mut carry);
    (first, last)
}

/// How UTF-16 units are read: by a length in units, by one in bytes, or up to
/// their terminator.
#[derive(Debug, Clone, Copy, PartialEq, Eq, Structural)]
pub enum Utf16Read {
    Short(i16),
    Long(i32),
    AttributeBytes(i32),
    Terminated,
}

impl Utf16Read {
    /// Whether a read stays within these units.
    pub open spec fn within(self, units: Seq<u16>) -> bool {
        match self {
            Utf16Read::Short(count) => 0 <= count <= units.len(),
            Utf16Read::Long(count) => 0 <= count <= units.len(),
            Utf16Read::AttributeBytes(count) => 0 <= count <= 2 * units.len(),
            Utf16Read::Terminated => units.contains(0),
        }
    }
}

/// A length, or the largest one there is.
pub open spec fn at_most(length: int, largest: int) -> int {
    if length <= largest {
        length
    } else {
        largest
    }
}

/// How units are read in a mode.
pub open spec fn read_of(units: Seq<u16>, mode: u8) -> Utf16Read {
    if mode % 4 == 0 {
        Utf16Read::Short(at_most(units.len() as int, i16::MAX as int) as i16)
    } else if mode % 4 == 1 {
        Utf16Read::Long(at_most(units.len() as int, i32::MAX as int) as i32)
    } else if mode % 4 == 2 {
        Utf16Read::AttributeBytes(at_most(2 * units.len() as int, i32::MAX as int) as i32)
    } else if units.contains(0) {
        Utf16Read::Terminated
    } else {
        Utf16Read::Short(at_most(units.len() as int, i16::MAX as int) as i16)
    }
}

/// Picks how units are read so that the read stays within them: a length is
/// never larger than theirs, and the terminator is looked for only where there
/// is one.
pub fn fuzz_read_utf16(units: &[u16], mode: u8) -> (read: Utf16Read)
    ensures
        read.within(units@),
        read == read_of(units@, mode),
{
    let count: usize = units.len();
    let short: i16 = if count <= 32767 {
        count as i16
    } else {
        32767
    };
    match mode % 4 {
        0 => Utf16Read::Short(short),
        1 => Utf16Read::Long(
            if count <= 2147483647 {
                count as i32
            } else {
                2147483647
            },
        ),
        2 => Utf16Read::AttributeBytes(
            if count <= 1073741823 {
                (2 * count) as i32
            } else {
                2147483647
            },
        ),
        _ => {
            let mut k: usize = 0;
            while k < units.len()
                invariant
                    mode % 4 == 3,
                    k <= units@.len(),
                    forall|j: int| 0 <= j < k ==> #[trigger] units@[j] != 0,
                decreases units.len() - k,
            {
                if units[k] == 0 {
                    assert(units@[k as int] == 0);
                    return Utf16Read::Terminated;
                }
                k = k + 1;
            }
            Utf16Read::Short(short)
        },
    }
}

/// The C types a fetched value may be asked for in.
pub const FETCH_TARGET_CANDIDATES: [SqlSmallInt; 24] = [
    SQL_C_STINYINT,
    SQL_C_TINYINT,
    SQL_C_UTINYINT,
    SQL_C_SSHORT,
    SQL_C_SHORT,
    SQL_C_USHORT,
    SQL_C_SLONG,
    SQL_C_LONG,
    SQL_C_ULONG,
    SQL_C_SBIGINT,
    SQL_C_UBIGINT,
    SQL_C_BIT,
    SQL_C_FLOAT,
    SQL_C_DOUBLE,
    SQL_C_GUID,
    SQL_C_TYPE_DATE,
    SQL_C_DATE,
    SQL_C_TYPE_TIME,
    SQL_C_TIME,
    SQL_C_SS_TIME2,
    SQL_C_TYPE_TIMESTAMP,
    SQL_C_TIMESTAMP,
    SQL_C_SS_TIMESTAMPOFFSET,
    SQL_C_NUMERIC,
];

/// Whether a C type is an integer, or a bit.
pub open spec fn is_integer_target(target: SqlSmallInt) -> bool {
    ||| target == SQL_C_STINYINT
    ||| target == SQL_C_TINYINT
    ||| target == SQL_C_UTINYINT
    ||| target == SQL_C_SSHORT
    ||| target == SQL_C_SHORT
    ||| target == SQL_C_USHORT
    ||| target == SQL_C_SLONG
    ||| target == SQL_C_LONG
    ||| target == SQL_C_ULONG
    ||| target == SQL_C_SBIGINT
    ||| target == SQL_C_UBIGINT
    ||| target == SQL_C_BIT
}

/// Whether a C type is a date, a time or both.
pub open spec fn is_datetime_target(target: SqlSmallInt) -> bool {
    ||| target == SQL_C_TYPE_DATE
    ||| target == SQL_C_DATE
    ||| target == SQL_C_TYPE_TIME
    ||| target == SQL_C_TIME
    ||| target == SQL_C_SS_TIME2
    ||| target == SQL_C_TYPE_TIMESTAMP
    ||| target == SQL_C_TIMESTAMP
    ||| target == SQL_C_SS_TIMESTAMPOFFSET
}

/// Whether a value is converted to a C type of fixed width.
pub open spec fn routed(target: SqlSmallInt) -> bool {
    ||| is_integer_target(target)
    ||| target == SQL_C_FLOAT
    ||| target == SQL_C_DOUBLE
    ||| target == SQL_C_GUID
    ||| is_datetime_target(target)
}

/// Whether a value is converted to a C type of fixed width.
pub fn routes_fixed_width_fetch(target: SqlSmallInt) -> (routes: bool)
    ensures
        routes == routed(target),
{
    matches!(target,
        SQL_C_STINYINT | SQL_C_TINYINT | SQL_C_UTINYINT | SQL_C_SSHORT | SQL_C_SHORT | SQL_C_USHORT
        | SQL_C_SLONG | SQL_C_LONG | SQL_C_ULONG | SQL_C_SBIGINT | SQL_C_UBIGINT | SQL_C_BIT
        | SQL_C_FLOAT | SQL_C_DOUBLE | SQL_C_GUID | SQL_C_TYPE_DATE | SQL_C_DATE | SQL_C_TYPE_TIME
        | SQL_C_TIME | SQL_C_SS_TIME2 | SQL_C_TYPE_TIMESTAMP | SQL_C_TIMESTAMP
        | SQL_C_SS_TIMESTAMPOFFSET)
}

/// The candidates that a value is converted to.
pub open spec fn routed_targets() -> Seq<SqlSmallInt> {
    FETCH_TARGET_CANDIDATES@.filter(|target: SqlSmallInt| routed(target))
}

/// The candidates that a value is converted to, in their order.
pub fn routed_fetch_targets() -> (targets: Vec<SqlSmallInt>)
    ensures
        targets@ == routed_targets(),
        targets@.len() > 0,
{
    let candidates: [SqlSmallInt; 24] = FETCH_TARGET_CANDIDATES;
    let mut targets: Vec<SqlSmallInt> = Vec::new();
    let mut k: usize = 0;
    let ghost pick = |target: SqlSmallInt| routed(target);
    proof {
        reveal_with_fuel(Seq::filter, 1);
        assert(candidates@.take(0).filter(pick) =~= Seq::<SqlSmallInt>::empty());
    }
    while k < 24
        invariant
            k <= 24,
            candidates@ == FETCH_TARGET_CANDIDATES@,
            pick == (|target: SqlSmallInt| routed(target)),
            targets@ == candidates@.take(k as int).filter(pick),
            k > 0 ==> targets@.len() > 0,
        decreases 24 - k,
    {
        proof {
            let head = candidates@.take(k + 1);
            assert(head.drop_last() =~= candidates@.take(k as int));
            assert(head.last() == candidates@[k as int]);
            reveal_with_fuel(Seq::filter, 1);
            assert(candidates@[0] == SQL_C_STINYINT);
        }
        if routes_fixed_width_fetch(candidates[k]) {
            targets.push(candidates[k]);
        }
        k = k + 1;
    }
    assert(candidates@.take(24) =~= candidates@);
    targets
}

/// The C types that a column is fetched in: those of fixed width, and those of
/// characters and bytes.
pub open spec fn getdata_targets() -> Seq<SqlSmallInt> {
    routed_targets() + seq![SQL_C_CHAR, SQL_C_WCHAR, SQL_C_BINARY]
}

/// The C types that a column is fetched in.
pub fn ffi_getdata_targets() -> (targets: Vec<SqlSmallInt>)
    ensures
        targets@ == getdata_targets(),
{
    let mut targets: Vec<SqlSmallInt> = routed_fetch_targets();
    targets.push(SQL_C_CHAR);
    targets.push(SQL_C_WCHAR);
    targets.push(SQL_C_BINARY);
    assert(targets@ =~= getdata_targets());
    targets
}

/// Picks a value and the C type it is to be converted to. A decimal is one until
/// its parser refuses it: see [`byte_cursor::with_decimal_outcome`].
pub fn fuzz_fetch_convert(data: &[u8]) -> (picked: (SqlSmallInt, ColumnValues))
    ensures
        routed_targets().len() > 0,
        picked.0 == routed_targets()[byte_cursor::byte_at(data@, 0) as int
            % routed_targets().len() as int],
        picked.1@ == byte_cursor::column_value_from(data@, 1),
{
    let mut cursor = ByteCursor::new(data);
    let targets: Vec<SqlSmallInt> = routed_fetch_targets();
    let target: SqlSmallInt = targets[cursor.u8() as usize % targets.len()];
    (target, build_column_value(&mut cursor))
}

/// The C types a parameter may be bound in.
pub const PARAM_C_TYPES: [SqlSmallInt; 14] = [
    SQL_C_CHAR,
    SQL_C_WCHAR,
    SQL_C_BINARY,
    SQL_C_STINYINT,
    SQL_C_TINYINT,
    SQL_C_UTINYINT,
    SQL_C_SSHORT,
    SQL_C_SHORT,
    SQL_C_USHORT,
    SQL_C_SLONG,
    SQL_C_LONG,
    SQL_C_ULONG,
    SQL_C_SBIGINT,
    SQL_C_UBIGINT,
];

/// The SQL types a parameter may be bound to.
pub const PARAM_SQL_TYPES: [SqlSmallInt; 13] = [
    SQL_CHAR,
    SQL_VARCHAR,
    SQL_LONGVARCHAR,
    SQL_WCHAR,
    SQL_WVARCHAR,
    SQL_WLONGVARCHAR,
    SQL_BINARY,
    SQL_VARBINARY,
    SQL_LONGVARBINARY,
    SQL_TINYINT,
    SQL_SMALLINT,
    SQL_INTEGER,
    SQL_BIGINT,
];

/// The eight bytes behind a value, which end any text and fill any integer.
pub open spec fn padding() -> Seq<u8> {
    Seq::new(8, |k: int| 0u8)
}

/// A zero byte ends a text at it or before.
proof fn lemma_nul_bound(bytes: Seq<u8>, at: int)
    requires
        0 <= at < bytes.len(),
        bytes[at] == 0,
    ensures
        0 <= param_buffer::nul_at(bytes) <= at,
    decreases at,
{
    if bytes[0] != 0 {
        lemma_nul_bound(bytes.drop_first(), at - 1);
    }
}

/// A zero unit ends a wide text at it or before.
proof fn lemma_nul_unit_bound(bytes: Seq<u8>, unit: int)
    requires
        0 <= unit,
        2 * unit + 2 <= bytes.len(),
        bytes[2 * unit] == 0,
        bytes[2 * unit + 1] == 0,
    ensures
        0 <= param_buffer::nul_unit_at(bytes) <= unit,
    decreases unit,
{
    if !(bytes[0] == 0 && bytes[1] == 0) {
        assert(bytes.skip(2)[2 * (unit - 1)] == bytes[2 * unit]);
        assert(bytes.skip(2)[2 * (unit - 1) + 1] == bytes[2 * unit + 1]);
        lemma_nul_unit_bound(bytes.skip(2), unit - 1);
    }
}

/// Whether a binding is the one that bytes make.
pub open spec fn param_from(param: BoundParam, data: Seq<u8>) -> bool {
    let value = byte_cursor::bytes_from(data, 5);
    let mode = byte_cursor::byte_at(data, 2) % 4;
    let length = if mode == 0 {
        SQL_NULL_DATA as int
    } else if mode == 1 {
        SQL_NTS as int
    } else if mode == 2 {
        value.len() as int
    } else {
        value.len() as int / 2
    };
    &&& param.input_output_type == SQL_PARAM_INPUT
    &&& param.c_type == PARAM_C_TYPES@[byte_cursor::byte_at(data, 0) as int % 14]
    &&& param.sql_type == PARAM_SQL_TYPES@[byte_cursor::byte_at(data, 1) as int % 13]
    &&& param.column_size == byte_cursor::byte_at(data, 3)
    &&& param.decimal_digits == byte_cursor::byte_at(data, 4) % 39
    &&& param.value matches Some(buffer)
    &&& buffer@ == value + padding()
    &&& param.buffer_length == value.len()
    &&& param.indicator == Some(length as SqlLen)
    &&& param.octet_length == Some(length as SqlLen)
}

/// Makes a binding whose buffer can be read whatever its types and length.
pub fn bound_param_from(data: &[u8]) -> (param: BoundParam)
    requires
        data@.len() <= isize::MAX,
    ensures
        param_from(param, data@),
        param_convert::binding_readable(param),
{
    let c_types: [SqlSmallInt; 14] = PARAM_C_TYPES;
    let sql_types: [SqlSmallInt; 13] = PARAM_SQL_TYPES;
    let mut cursor = ByteCursor::new(data);
    let c_type: SqlSmallInt = c_types[cursor.u8() as usize % 14];
    let sql_type: SqlSmallInt = sql_types[cursor.u8() as usize % 13];
    let mode: u8 = cursor.u8() % 4;
    let column_size: SqlULen = cursor.u8() as SqlULen;
    let decimal_digits: SqlSmallInt = (cursor.u8() % 39) as SqlSmallInt;
    let mut buffer: Vec<u8> = cursor.rest();
    let ghost value = buffer@;
    let count: usize = buffer.len();
    let length: SqlLen = if mode == 0 {
        SQL_NULL_DATA
    } else if mode == 1 {
        SQL_NTS
    } else if mode == 2 {
        count as SqlLen
    } else {
        (count / 2) as SqlLen
    };
    let mut k: usize = 0;
    while k < 8
        invariant
            k <= 8,
            buffer@ == value + padding().take(k as int),
        decreases 8 - k,
    {
        buffer.push(0);
        assert(buffer@ =~= value + padding().take(k + 1));
        k = k + 1;
    }
    assert(buffer@ =~= value + padding());
    proof {
        let n = value.len() as int;
        lemma_nul_bound(buffer@, n);
        lemma_nul_unit_bound(buffer@, (n + 1) / 2);
        assert(c_type == PARAM_C_TYPES@[byte_cursor::byte_at(data@, 0) as int % 14]);
    }
    BoundParam {
        input_output_type: SQL_PARAM_INPUT,
        c_type,
        sql_type,
        column_size,
        decimal_digits,
        value: Some(buffer),
        buffer_length: count as SqlLen,
        indicator: Some(length),
        octet_length: Some(length),
    }
}

/// Reads and converts the binding that bytes make. `double` holds the bits of
/// the double that the parameter's number text parses to, if it has one and it
/// parses.
pub fn fuzz_bound_param(data: &[u8], double: Option<u64>) -> (result: Result<
    (SqlType, Option<RpcTypeMetadata>),
    ParamBuildError,
>)
    requires
        data@.len() <= isize::MAX,
    ensures
        exists|param: BoundParam| #[trigger]
            param_from(param, data@) && param_convert::same_typed(
                result,
                param_convert::bound_value_of(param, double),
            ),
{
    let param: BoundParam = bound_param_from(data);
    let result = bound_param_to_value(&param, double);
    assert(param_from(param, data@));
    result
}

/// The largest response that is replayed.
pub const MAX_RESPONSE: usize = 4096;

/// The C type that columns are fetched in and the response of a server, as bytes
/// say them; nothing of no bytes or of too many.
pub open spec fn planned(data: Seq<u8>) -> Option<(SqlSmallInt, Seq<u8>)> {
    if data.len() == 0 || data.len() > MAX_RESPONSE {
        None
    } else {
        Some(
            (
                getdata_targets()[data[0] as int % getdata_targets().len() as int],
                data.skip(1),
            ),
        )
    }
}

/// Splits bytes into the C type that columns are fetched in and the response
/// that a server is to give.
pub fn fuzz_ffi_execute(data: &[u8]) -> (plan: Option<(SqlSmallInt, Vec<u8>)>)
    ensures
        match planned(data@) {
            Some((target, response)) => plan matches Some(given) && given.0 == target
                && given.1@ == response,
            None => plan is None,
        },
{
    if data.len() == 0 || data.len() > MAX_RESPONSE {
        return None;
    }
    let targets: Vec<SqlSmallInt> = ffi_getdata_targets();
    let mut cursor = ByteCursor::new(data);
    let target: SqlSmallInt = targets[cursor.u8() as usize % targets.len()];
    Some((target, cursor.rest()))
}

/// The most rows that are fetched of one result.
pub const MAX_ROWS_WALKED: u16 = 128;

/// The most columns that are read of one row.
pub const MAX_COLUMNS_WALKED: i16 = 64;

/// What is to be done next to walk over a result.
#[derive(Debug, Clone, Copy, PartialEq, Eq, Structural)]
pub enum WalkStep {
    Execute,
    CountColumns,
    Fetch,
    GetData(u16),
    Finished,
}

/// A walk over every column of every row of a result.
#[derive(Debug, Clone, Copy, PartialEq, Eq, Structural)]
pub struct ResultWalk {
    pub step: WalkStep,
    pub columns: u16,
    /// The fetches that are still to be made.
    pub rows_left: u16,
}

/// Whether a call went well, with or without a warning.
pub open spec fn went_well(rc: SqlReturn) -> bool {
    rc == SQL_SUCCESS || rc == SQL_SUCCESS_WITH_INFO
}

impl ResultWalk {
    /// Whether the walk keeps to its limits.
    pub open spec fn wf(self) -> bool {
        &&& self.columns <= MAX_COLUMNS_WALKED
        &&& self.rows_left <= MAX_ROWS_WALKED
        &&& self.step matches WalkStep::GetData(column) ==> 1 <= column <= self.columns
        &&& self.step is Fetch ==> self.rows_left > 0
    }

    /// The walk with the next fetch, or at its end.
    pub open spec fn at_next_row(self) -> ResultWalk {
        if self.rows_left > 0 {
            ResultWalk { step: WalkStep::Fetch, ..self }
        } else {
            ResultWalk { step: WalkStep::Finished, ..self }
        }
    }

    /// The walk after its step has returned `rc`, and a number of columns where
    /// it counted them.
    pub open spec fn next(self, rc: SqlReturn, columns: SqlSmallInt) -> ResultWalk {
        match self.step {
            WalkStep::Execute => if went_well(rc) {
                ResultWalk { step: WalkStep::CountColumns, ..self }
            } else {
                ResultWalk { step: WalkStep::Finished, ..self }
            },
            WalkStep::CountColumns => if rc == SQL_SUCCESS {
                ResultWalk {
                    columns: (if columns < 0 {
                        0
                    } else if columns > MAX_COLUMNS_WALKED {
                        MAX_COLUMNS_WALKED
                    } else {
                        columns
                    }) as u16,
                    ..self
                }.at_next_row()
            } else {
                ResultWalk { step: WalkStep::Finished, ..self }
            },
            WalkStep::Fetch => {
                let fetched = ResultWalk { rows_left: (self.rows_left - 1) as u16, ..self };
                if !went_well(rc) {
                    ResultWalk { step: WalkStep::Finished, ..fetched }
                } else if self.columns > 0 {
                    ResultWalk { step: WalkStep::GetData(1), ..fetched }
                } else {
                    fetched.at_next_row()
                }
            },
            WalkStep::GetData(column) => if column < self.columns {
                ResultWalk { step: WalkStep::GetData((column + 1) as u16), ..self }
            } else {
                self.at_next_row()
            },
            WalkStep::Finished => self,
        }
    }

    /// How many steps are left at most.
    pub open spec fn steps_left(self) -> int {
        match self.step {
            WalkStep::Execute => 2 + 65 * self.rows_left + 1,
            WalkStep::CountColumns => 1 + 65 * self.rows_left + 1,
            WalkStep::Fetch => 65 * self.rows_left + 1,
            WalkStep::GetData(column) => 65 * self.rows_left + 66 - column,
            WalkStep::Finished => 0,
        }
    }

    /// A walk before its first step.
    pub fn start() -> (walk: Self)
        ensures
            walk.wf(),
            walk == (ResultWalk {
                step: WalkStep::Execute,
                columns: 0,
                rows_left: MAX_ROWS_WALKED,
            }),
    {
        ResultWalk { step: WalkStep::Execute, columns: 0, rows_left: MAX_ROWS_WALKED }
    }

    /// Goes to the next fetch, or to the end.
    fn go_to_next_row(&mut self)
        ensures
            *final(self) == old(self).at_next_row(),
    {
        self.step = if self.rows_left > 0 {
            WalkStep::Fetch
        } else {
            WalkStep::Finished
        };
    }

    /// Takes what the step returned, and says what is to be done next.
    pub fn run_exec_fetch(&mut self, rc: SqlReturn, columns: SqlSmallInt) -> (step: WalkStep)
        requires
            old(self).wf(),
        ensures
            final(self).wf(),
            *final(self) == old(self).next(rc, columns),
            step == final(self).step,
    {
        let well: bool = rc == SQL_SUCCESS || rc == SQL_SUCCESS_WITH_INFO;
        match self.step {
            WalkStep::Execute => {
                self.step = if well {
                    WalkStep::CountColumns
                } else {
                    WalkStep::Finished
                };
            },
            WalkStep::CountColumns => {
                if rc == SQL_SUCCESS {
                    self.columns = if columns < 0 {
                        0
                    } else if columns > MAX_COLUMNS_WALKED {
                        MAX_COLUMNS_WALKED as u16
                    } else {
                        columns as u16
                    };
                    self.go_to_next_row();
                } else {
                    self.step = WalkStep::Finished;
                }
            },
            WalkStep::Fetch => {
                self.rows_left = self.rows_left - 1;
                if !well {
                    self.step = WalkStep::Finished;
                } else if self.columns > 0 {
                    self.step = WalkStep::GetData(1);
                } else {
                    self.go_to_next_row();
                }
            },
            WalkStep::GetData(column) => {
                if column < self.columns {
                    self.step = WalkStep::GetData(column + 1);
                } else {
                    self.go_to_next_row();
                }
            },
            WalkStep::Finished => {},
        }
        self.step
    }
}

/// Whatever the steps return, a walk ends.
pub proof fn walks_end(walk: ResultWalk, rc: SqlReturn, columns: SqlSmallInt)
    requires
        walk.wf(),
        !(walk.step is Finished),
    ensures
        walk.next(rc, columns).wf(),
        0 <= walk.next(rc, columns).steps_left() < walk.steps_left(),
{
}

/// A number in a narrower type is that number, and it is refused exactly where the
/// type does not reach to it.
pub proof fn a_narrowed_number_is_that_number(whole: NarrowedNumber, value: int, dropped: bool)
    requires
        narrowed_to(whole, value, dropped),
    ensures
        whole.value == value,
        whole.fraction_dropped == dropped,
        whole.as_i64 matches Ok(n) ==> n == value,
        whole.as_i32 matches Ok(n) ==> n == value,
        whole.as_i16 matches Ok(n) ==> n == value,
        whole.as_i8 matches Ok(n) ==> n == value,
        whole.as_u8 matches Ok(n) ==> n == value,
        whole.as_i64 is Ok <==> -0x8000_0000_0000_0000 <= value < 0x8000_0000_0000_0000,
        whole.as_i32 is Ok <==> -0x8000_0000 <= value < 0x8000_0000,
        whole.as_i16 is Ok <==> -0x8000 <= value < 0x8000,
        whole.as_i8 is Ok <==> -0x80 <= value < 0x80,
        whole.as_u8 is Ok <==> 0 <= value < 0x100,
{
}

/// The modes are the twelve combinations of two sources, two targets and three
/// collations, over and over: a mode and the twelfth behind it are the same, and
/// twelve in a row are all different.
pub proof fn modes_are_combinations(a: u8, b: u8)
    ensures
        a <= 243 ==> transcode_mode((a + 12) as u8) == transcode_mode(a),
        a < 12 && b < 12 && transcode_mode(a) == transcode_mode(b) ==> a == b,
        transcode_mode(a).0 == SQL_C_CHAR || transcode_mode(a).0 == SQL_C_WCHAR,
        transcode_mode(a).1 == SQL_VARCHAR || transcode_mode(a).1 == SQL_WVARCHAR,
        transcode_mode(0).0 == SQL_C_CHAR && transcode_mode(0).1 == SQL_VARCHAR,
        transcode_mode(3).0 == SQL_C_WCHAR && transcode_mode(3).1 == SQL_WVARCHAR,
        transcode_mode(a).2.lcid_language_id == 0 && transcode_mode(a).2.sort_id == 0,
        (a / 4) % 3 == 0 ==> transcode_mode(a).2.col_flags == 0x40 && transcode_mode(a).2.info == 0,
        (a / 4) % 3 == 1 ==> transcode_mode(a).2.col_flags == 0 && transcode_mode(a).2.info
            == 0x0409,
        (a / 4) % 3 == 2 ==> transcode_mode(a).2.col_flags == 0 && transcode_mode(a).2.info == 0,
{
    if a <= 243 {
        let c = (a + 12) as u8;
        assert(c == a + 12);
        assert(c / 4 == a / 4 + 3);
        assert(c / 2 == a / 2 + 6);
    }
}

/// A read stays within its units, and reads all of them where its length can say so
/// many: as units, or as twice as many bytes, or up to a terminator that is there.
pub proof fn a_read_reaches_to_the_end_of_the_units(units: Seq<u16>, mode: u8)
    ensures
        read_of(units, mode).within(units),
        mode % 4 == 0 && units.len() <= 32_767 ==> read_of(units, mode) == Utf16Read::Short(
            units.len() as i16,
        ),
        mode % 4 == 1 && units.len() <= 2_147_483_647 ==> read_of(units, mode) == Utf16Read::Long(
            units.len() as i32,
        ),
        mode % 4 == 2 && units.len() <= 1_073_741_823 ==> read_of(units, mode)
            == Utf16Read::AttributeBytes((2 * units.len()) as i32),
        mode % 4 == 3 && units.contains(0) ==> read_of(units, mode) is Terminated,
        mode % 4 == 3 && !units.contains(0) ==> read_of(units, mode) == read_of(units, 0),
{
}

/// What satisfies a condition throughout is all kept.
proof fn lemma_all_kept(targets: Seq<SqlSmallInt>)
    requires
        forall|k: int| 0 <= k < targets.len() ==> routed(#[trigger] targets[k]),
    ensures
        targets.filter(|target: SqlSmallInt| routed(target)) == targets,
    decreases targets.len(),
{
    reveal_with_fuel(Seq::filter, 1);
    if targets.len() > 0 {
        lemma_all_kept(targets.drop_last());
        assert(targets.drop_last().push(targets.last()) =~= targets);
    }
}

/// Every candidate but the last is converted to; the last, the exact number, is not.
/// Fetches add characters, wide characters and bytes behind them.
pub proof fn all_candidates_but_the_exact_number_are_converted_to()
    ensures
        routed_targets() == FETCH_TARGET_CANDIDATES@.take(23),
        FETCH_TARGET_CANDIDATES@[23] == SQL_C_NUMERIC,
        !routed(SQL_C_NUMERIC),
        getdata_targets().len() == 26,
        getdata_targets().take(23) == routed_targets(),
        getdata_targets()[23] == SQL_C_CHAR,
        getdata_targets()[24] == SQL_C_WCHAR,
        getdata_targets()[25] == SQL_C_BINARY,
{
    let all = FETCH_TARGET_CANDIDATES@;
    let front = all.take(23);
    assert(all.drop_last() =~= front);
    assert(all.last() == SQL_C_NUMERIC);
    assert forall|k: int| 0 <= k < front.len() implies routed(#[trigger] front[k]) by {
        assert(front[k] == all[k]);
        assert(k == 0 || k == 1 || k == 2 || k == 3 || k == 4 || k == 5 || k == 6 || k == 7 || k
            == 8 || k == 9 || k == 10 || k == 11 || k == 12 || k == 13 || k == 14 || k == 15 || k
            == 16 || k == 17 || k == 18 || k == 19 || k == 20 || k == 21 || k == 22);
    }
    lemma_all_kept(front);
    reveal_with_fuel(Seq::filter, 1);
    assert(getdata_targets().take(23) =~= routed_targets());
}

/// A binding that bytes make has the rest of them as its value, zeros behind it, and
/// says of its length that the value is null, that it ends at a zero, or how long it
/// or its half is.
pub proof fn a_binding_is_made_of_its_bytes(
    param: BoundParam,
    head: Seq<u8>,
    value: Seq<u8>,
    k: int,
)
    requires
        head.len() == 5,
        param_from(param, head + value),
        value.len() <= isize::MAX,
    ensures
        param.value is Some && param.value->0@.len() == value.len() + 8,
        param.value->0@.take(value.len() as int) == value,
        value.len() <= k < value.len() + 8 ==> param.value->0@[k] == 0,
        param.buffer_length == value.len(),
        param.column_size == head[3],
        head[4] < 39 ==> param.decimal_digits == head[4],
        param.indicator == param.octet_length,
        head[2] % 4 == 0 ==> param.indicator == Some(-1 as SqlLen),
        head[2] % 4 == 1 ==> param.indicator == Some(-3 as SqlLen),
        head[2] % 4 == 2 ==> param.indicator == Some(value.len() as SqlLen),
        head[2] % 4 == 3 ==> param.indicator == Some((value.len() / 2) as SqlLen),
        head[0] < 14 ==> param.c_type == PARAM_C_TYPES@[head[0] as int],
        head[1] < 13 ==> param.sql_type == PARAM_SQL_TYPES@[head[1] as int],
{
    let data = head + value;
    assert(data[0] == head[0] && data[1] == head[1] && data[2] == head[2] && data[3] == head[3]
        && data[4] == head[4]);
    assert(byte_cursor::bytes_from(data, 5) =~= value);
    assert(param.value->0@.take(value.len() as int) =~= value);
}

/// The first byte picks the C type of the fetches and the others are the response;
/// without a byte there is no plan, and a response that is too long is not replayed.
pub proof fn a_plan_is_a_type_and_a_response(first: u8, response: Seq<u8>)
    ensures
        planned(Seq::empty()) is None,
        response.len() < 4096 ==> planned(seq![first] + response) == Some(
            (getdata_targets()[first as int % 26], response),
        ),
        response.len() >= 4096 ==> planned(seq![first] + response) is None,
{
    all_candidates_but_the_exact_number_are_converted_to();
    assert((seq![first] + response).skip(1) =~= response);
}

/// The walk after so many steps that all went well.
pub open spec fn walked(walk: ResultWalk, steps: nat) -> ResultWalk
    decreases steps,
{
    if steps == 0 {
        walk
    } else {
        walked(walk, (steps - 1) as nat).next(SQL_SUCCESS, 0)
    }
}

/// A row is walked column by column, from the first to the last, and then comes the
/// next row, as long as rows are left.
pub proof fn a_row_is_walked_column_by_column(walk: ResultWalk, steps: nat)
    requires
        walk.wf(),
        walk.step is Fetch,
        1 <= steps <= walk.columns + 1,
    ensures
        steps <= walk.columns ==> walked(walk, steps).step == WalkStep::GetData(steps as u16),
        steps == walk.columns + 1 && walk.rows_left > 1 ==> walked(walk, steps).step is Fetch,
        steps == walk.columns + 1 && walk.rows_left == 1 ==> walked(walk, steps).step is Finished,
        walked(walk, steps).columns == walk.columns,
        walked(walk, steps).rows_left == walk.rows_left - 1,
    decreases steps,
{
    reveal_with_fuel(walked, 2);
    if steps > 1 {
        a_row_is_walked_column_by_column(walk, (steps - 1) as nat);
    }
}

/// A walk starts with the execution, counts the columns of what went well, up to 64
/// of them, and fetches up to 128 rows. What did not go well ends it, but for a column
/// that could not be read.
pub proof fn a_walk_goes_on_while_all_goes_well(
    walk: ResultWalk,
    rc: SqlReturn,
    columns: SqlSmallInt,
)
    requires
        walk.wf(),
    ensures
        walk.step is Execute && (rc == 0 || rc == 1) ==> walk.next(rc, columns).step
            is CountColumns,
        walk.step is Execute && rc != 0 && rc != 1 ==> walk.next(rc, columns).step is Finished,
        walk.step is CountColumns && rc != 0 ==> walk.next(rc, columns).step is Finished,
        walk.step is CountColumns && rc == 0 && walk.rows_left > 0 ==> walk.next(rc, columns).step
            is Fetch,
        walk.step is CountColumns && rc == 0 && 0 <= columns <= 64 ==> walk.next(
            rc,
            columns,
        ).columns == columns,
        walk.step is CountColumns && rc == 0 && columns > 64 ==> walk.next(rc, columns).columns
            == 64,
        walk.step is CountColumns && rc == 0 && columns < 0 ==> walk.next(rc, columns).columns == 0,
        walk.step is Fetch && rc != 0 && rc != 1 ==> walk.next(rc, columns).step is Finished,
        walk.step is Fetch ==> walk.next(rc, columns).rows_left == walk.rows_left - 1,
        !(walk.step is Fetch) ==> walk.next(rc, columns).rows_left == walk.rows_left,
        !(walk.step is CountColumns) ==> walk.next(rc, columns).columns == walk.columns,
        walk.step is GetData ==> walk.next(rc, columns) == walk.next(0, columns),
        walk.step is Finished ==> walk.next(rc, columns) == walk,
        MAX_ROWS_WALKED == 128,
{
}

} // verus!
