//! Conversion of bound parameters to the values sent to the server.

use vstd::prelude::*;

use super::chars;
use super::error::ConvError;
use super::numeric::{self, number_chars_of, parse_numeric_chars, NumericSource};
use super::param_buffer::{
    self, read_indicator, read_param_value, AppValue, AppValueView, BoundParam, Indicator,
};
use super::param_error::ParamBuildError;
use super::unicode::{
    self, decode_utf16le, decode_utf8_lossy, encode_units, encode_utf16le, encode_utf8_bytes,
};
use crate::odbc_types::{
    SQL_BIGINT, SQL_BINARY, SQL_BIT, SQL_CHAR, SQL_C_BINARY, SQL_C_CHAR, SQL_C_LONG, SQL_C_SBIGINT,
    SQL_C_SHORT, SQL_C_SLONG, SQL_C_SSHORT, SQL_C_STINYINT, SQL_C_TINYINT, SQL_C_UBIGINT,
    SQL_C_ULONG, SQL_C_USHORT, SQL_C_UTINYINT, SQL_C_WCHAR, SQL_DECIMAL, SQL_DOUBLE, SQL_FLOAT,
    SQL_GUID, SQL_INTEGER, SQL_LONGVARBINARY, SQL_LONGVARCHAR, SQL_NULL_DATA, SQL_NUMERIC,
    SQL_PREC_BIGCHARBINARY, SQL_PREC_NCHAR, SQL_PREC_NTEXT, SQL_PREC_NUMERIC, SQL_PREC_TEXTIMAGE,
    SQL_REAL, SQL_SMALLINT, SQL_SS_TIME2, SQL_SS_TIMESTAMPOFFSET, SQL_SS_VARIANT, SQL_SS_VECTOR,
    SQL_SS_VECTOR_ELEMENT_SIZE, SQL_SS_VECTOR_HEADER_SIZE, SQL_SS_XML, SQL_TINYINT, SQL_TYPE_DATE,
    SQL_TYPE_TIME, SQL_TYPE_TIMESTAMP, SQL_VARBINARY, SQL_VARCHAR, SQL_WCHAR, SQL_WLONGVARCHAR,
    SQL_WVARCHAR,
};

verus! {

/// How the bytes of a text are encoded.
#[derive(Debug, Clone, Copy, PartialEq, Eq, Structural)]
pub enum EncodingType {
    Utf8,
    Utf16,
}

/// A text in its encoding.
#[derive(Debug, Clone, PartialEq, Eq)]
pub struct SqlString {
    pub bytes: Vec<u8>,
    pub encoding: EncodingType,
}

/// The element type of a vector.
#[derive(Debug, Clone, Copy, PartialEq, Eq, Structural)]
pub enum VectorBaseType {
    Float32,
    Float16,
}

/// A typed value for the server, `None` being NULL. Types that carry no value
/// here stand for their NULL.
#[derive(Debug, Clone, PartialEq, Eq)]
pub enum SqlType {
    Bit,
    TinyInt(Option<u8>),
    SmallInt(Option<i16>),
    Int(Option<i32>),
    BigInt(Option<i64>),
    Real,
    Float,
    Decimal,
    Numeric,
    Char(Option<SqlString>, u16),
    Varchar(Option<SqlString>, u16),
    VarcharMax(Option<SqlString>),
    NChar(Option<SqlString>, u16),
    NVarchar(Option<SqlString>, u16),
    NVarcharMax(Option<SqlString>),
    Binary(Option<Vec<u8>>, u16),
    VarBinary(Option<Vec<u8>>, u16),
    VarBinaryMax(Option<Vec<u8>>),
    Uuid,
    Date,
    Time,
    DateTime2,
    DateTimeOffset,
    Xml,
    Variant,
    Vector(u16, VectorBaseType),
}

/// A text as a mathematical value.
pub type TextView = (Seq<u8>, EncodingType);

/// A typed value as a mathematical one.
pub enum SqlTypeView {
    Bit,
    TinyInt(Option<u8>),
    SmallInt(Option<i16>),
    Int(Option<i32>),
    BigInt(Option<i64>),
    Real,
    Float,
    Decimal,
    Numeric,
    Char(Option<TextView>, u16),
    Varchar(Option<TextView>, u16),
    VarcharMax(Option<TextView>),
    NChar(Option<TextView>, u16),
    NVarchar(Option<TextView>, u16),
    NVarcharMax(Option<TextView>),
    Binary(Option<Seq<u8>>, u16),
    VarBinary(Option<Seq<u8>>, u16),
    VarBinaryMax(Option<Seq<u8>>),
    Uuid,
    Date,
    Time,
    DateTime2,
    DateTimeOffset,
    Xml,
    Variant,
    Vector(u16, VectorBaseType),
}

/// The bytes and encoding of a text, if there is one.
pub open spec fn text_view(text: Option<SqlString>) -> Option<TextView> {
    match text {
        Some(s) => Some((s.bytes@, s.encoding)),
        None => None,
    }
}

/// The bytes of a value, if there is one.
pub open spec fn bytes_view(bytes: Option<Vec<u8>>) -> Option<Seq<u8>> {
    match bytes {
        Some(b) => Some(b@),
        None => None,
    }
}

impl View for SqlType {
    type V = SqlTypeView;

    open spec fn view(&self) -> SqlTypeView {
        match *self {
            SqlType::Bit => SqlTypeView::Bit,
            SqlType::TinyInt(v) => SqlTypeView::TinyInt(v),
            SqlType::SmallInt(v) => SqlTypeView::SmallInt(v),
            SqlType::Int(v) => SqlTypeView::Int(v),
            SqlType::BigInt(v) => SqlTypeView::BigInt(v),
            SqlType::Real => SqlTypeView::Real,
            SqlType::Float => SqlTypeView::Float,
            SqlType::Decimal => SqlTypeView::Decimal,
            SqlType::Numeric => SqlTypeView::Numeric,
            SqlType::Char(t, n) => SqlTypeView::Char(text_view(t), n),
            SqlType::Varchar(t, n) => SqlTypeView::Varchar(text_view(t), n),
            SqlType::VarcharMax(t) => SqlTypeView::VarcharMax(text_view(t)),
            SqlType::NChar(t, n) => SqlTypeView::NChar(text_view(t), n),
            SqlType::NVarchar(t, n) => SqlTypeView::NVarchar(text_view(t), n),
            SqlType::NVarcharMax(t) => SqlTypeView::NVarcharMax(text_view(t)),
            SqlType::Binary(b, n) => SqlTypeView::Binary(bytes_view(b), n),
            SqlType::VarBinary(b, n) => SqlTypeView::VarBinary(bytes_view(b), n),
            SqlType::VarBinaryMax(b) => SqlTypeView::VarBinaryMax(bytes_view(b)),
            SqlType::Uuid => SqlTypeView::Uuid,
            SqlType::Date => SqlTypeView::Date,
            SqlType::Time => SqlTypeView::Time,
            SqlType::DateTime2 => SqlTypeView::DateTime2,
            SqlType::DateTimeOffset => SqlTypeView::DateTimeOffset,
            SqlType::Xml => SqlTypeView::Xml,
            SqlType::Variant => SqlTypeView::Variant,
            SqlType::Vector(n, base) => SqlTypeView::Vector(n, base),
        }
    }
}

/// The precision and scale a parameter is declared with.
#[derive(Debug, Clone, Copy, PartialEq, Eq, Structural)]
pub struct RpcTypeMetadata {
    pub precision: Option<u8>,
    pub scale: Option<u8>,
}

/// A parameter as it is sent.
#[derive(Debug, Clone, PartialEq, Eq)]
pub struct RpcParameter {
    pub name: String,
    pub value: SqlType,
    pub metadata: Option<RpcTypeMetadata>,
}

/// The families of SQL types that values are converted to.
#[derive(Debug, Clone, Copy, PartialEq, Eq, Structural)]
pub enum SqlFamily {
    Integer,
    Character,
    Binary,
}

/// The family of a SQL type; nothing for a type no value is converted to.
pub open spec fn family_of(sql_type: i16) -> Option<SqlFamily> {
    if sql_type == SQL_TINYINT || sql_type == SQL_SMALLINT || sql_type == SQL_INTEGER || sql_type
        == SQL_BIGINT {
        Some(SqlFamily::Integer)
    } else if sql_type == SQL_CHAR || sql_type == SQL_VARCHAR || sql_type == SQL_LONGVARCHAR
        || is_wide(sql_type) {
        Some(SqlFamily::Character)
    } else if sql_type == SQL_BINARY || sql_type == SQL_VARBINARY || sql_type
        == SQL_LONGVARBINARY {
        Some(SqlFamily::Binary)
    } else {
        None
    }
}

/// Whether a SQL type holds UTF-16.
pub open spec fn is_wide(sql_type: i16) -> bool {
    sql_type == SQL_WCHAR || sql_type == SQL_WVARCHAR || sql_type == SQL_WLONGVARCHAR
}

/// Whether a SQL type holds UTF-16.
pub fn is_wide_character_sql_type(sql_type: i16) -> (wide: bool)
    ensures
        wide == is_wide(sql_type),
{
    matches!(sql_type, SQL_WCHAR | SQL_WVARCHAR | SQL_WLONGVARCHAR)
}

/// The family of a SQL type; nothing for a type no value is converted to.
pub fn sql_family(sql_type: i16) -> (family: Option<SqlFamily>)
    ensures
        family == family_of(sql_type),
{
    match sql_type {
        SQL_TINYINT | SQL_SMALLINT | SQL_INTEGER | SQL_BIGINT => Some(SqlFamily::Integer),
        SQL_CHAR
        | SQL_VARCHAR
        | SQL_LONGVARCHAR
        | SQL_WCHAR
        | SQL_WVARCHAR
        | SQL_WLONGVARCHAR => Some(SqlFamily::Character),
        SQL_BINARY | SQL_VARBINARY | SQL_LONGVARBINARY => Some(SqlFamily::Binary),
        _ => None,
    }
}

/// Whether values of a C type are converted to a SQL type: text and integers
/// to characters and integers, bytes to binary.
pub open spec fn conversion_supported(c_type: i16, sql_type: i16) -> bool {
    let family = family_of(sql_type);
    if c_type == SQL_C_CHAR || c_type == SQL_C_WCHAR || is_integer_c_type(c_type) {
        family == Some(SqlFamily::Character) || family == Some(SqlFamily::Integer)
    } else {
        c_type == SQL_C_BINARY && family == Some(SqlFamily::Binary)
    }
}

/// Whether a C type is an integer.
pub open spec fn is_integer_c_type(c_type: i16) -> bool {
    c_type == SQL_C_TINYINT || c_type == SQL_C_STINYINT || c_type == SQL_C_UTINYINT || c_type
        == SQL_C_SHORT || c_type == SQL_C_SSHORT || c_type == SQL_C_USHORT || c_type == SQL_C_LONG
        || c_type == SQL_C_SLONG || c_type == SQL_C_ULONG || c_type == SQL_C_SBIGINT || c_type
        == SQL_C_UBIGINT
}

/// Whether values of a C type are converted to a SQL type.
pub fn is_supported_conversion(c_type: i16, sql_type: i16) -> (supported: bool)
    ensures
        supported == conversion_supported(c_type, sql_type),
{
    let family = sql_family(sql_type);
    match c_type {
        SQL_C_CHAR
        | SQL_C_WCHAR
        | SQL_C_TINYINT
        | SQL_C_STINYINT
        | SQL_C_UTINYINT
        | SQL_C_SHORT
        | SQL_C_SSHORT
        | SQL_C_USHORT
        | SQL_C_LONG
        | SQL_C_SLONG
        | SQL_C_ULONG
        | SQL_C_SBIGINT
        | SQL_C_UBIGINT => matches!(family, Some(SqlFamily::Character) | Some(SqlFamily::Integer)),
        SQL_C_BINARY => matches!(family, Some(SqlFamily::Binary)),
        _ => false,
    }
}

/// The length of a fixed-width declaration: from 1 to the type's maximum.
pub open spec fn fixed_length_of(column_size: usize, max: usize) -> Result<u16, ParamBuildError> {
    if 1 <= column_size <= max && column_size <= u16::MAX {
        Ok(column_size as u16)
    } else {
        Err(ParamBuildError::InvalidParameterSize(column_size))
    }
}

/// The length of a fixed-width declaration.
pub fn fixed_length(column_size: usize, max: usize) -> (length: Result<u16, ParamBuildError>)
    ensures
        length == fixed_length_of(column_size, max),
{
    if column_size < 1 || column_size > max || column_size > 65_535 {
        Err(ParamBuildError::InvalidParameterSize(column_size))
    } else {
        Ok(column_size as u16)
    }
}

/// The length of a variable-width declaration; nothing for the `max` spelling,
/// which 0 and sizes above the maximum have.
pub open spec fn variable_length_of(column_size: usize, max: usize) -> Option<u16> {
    if column_size == 0 || column_size > max || column_size > u16::MAX {
        None
    } else {
        Some(column_size as u16)
    }
}

/// The length of a variable-width declaration; nothing for the `max` spelling.
pub fn variable_length(column_size: usize, max: usize) -> (length: Option<u16>)
    ensures
        length == variable_length_of(column_size, max),
{
    if column_size == 0 || column_size > max || column_size > 65_535 {
        None
    } else {
        Some(column_size as u16)
    }
}

/// The precision and scale of a decimal: a precision from 1 to 38 and a scale
/// up to it.
pub open spec fn decimal_metadata_of(column_size: usize, decimal_digits: i16) -> Result<
    RpcTypeMetadata,
    ParamBuildError,
> {
    if !(1 <= column_size <= SQL_PREC_NUMERIC) {
        Err(ParamBuildError::InvalidParameterSize(column_size))
    } else if !(0 <= decimal_digits <= column_size) {
        Err(ParamBuildError::InvalidDecimalDigits(decimal_digits))
    } else {
        Ok(
            RpcTypeMetadata {
                precision: Some(column_size as u8),
                scale: Some(decimal_digits as u8),
            },
        )
    }
}

/// The precision and scale of a decimal.
pub fn decimal_metadata(column_size: usize, decimal_digits: i16) -> (metadata: Result<
    RpcTypeMetadata,
    ParamBuildError,
>)
    ensures
        metadata == decimal_metadata_of(column_size, decimal_digits),
{
    if column_size < 1 || column_size > SQL_PREC_NUMERIC {
        return Err(ParamBuildError::InvalidParameterSize(column_size));
    }
    if decimal_digits < 0 || decimal_digits as usize > column_size {
        return Err(ParamBuildError::InvalidDecimalDigits(decimal_digits));
    }
    Ok(
        RpcTypeMetadata { precision: Some(column_size as u8), scale: Some(decimal_digits as u8) },
    )
}

/// The largest fractional-seconds scale.
pub const MAX_DATETIME_SCALE: u8 = 7;

/// The scale of a time type: up to 7.
pub open spec fn datetime_metadata_of(decimal_digits: i16) -> Result<
    RpcTypeMetadata,
    ParamBuildError,
> {
    if 0 <= decimal_digits <= MAX_DATETIME_SCALE {
        Ok(RpcTypeMetadata { precision: None, scale: Some(decimal_digits as u8) })
    } else {
        Err(ParamBuildError::InvalidDecimalDigits(decimal_digits))
    }
}

/// The scale of a time type.
pub fn datetime_metadata(decimal_digits: i16) -> (metadata: Result<
    RpcTypeMetadata,
    ParamBuildError,
>)
    ensures
        metadata == datetime_metadata_of(decimal_digits),
{
    if decimal_digits < 0 || decimal_digits > 7 {
        return Err(ParamBuildError::InvalidDecimalDigits(decimal_digits));
    }
    Ok(RpcTypeMetadata { precision: None, scale: Some(decimal_digits as u8) })
}

/// The dimensions and element type of a vector, from the size of its client
/// buffer: a header and four bytes for each element, whatever its type.
pub open spec fn vector_metadata_of(column_size: usize, base_type: i16) -> Result<
    (u16, VectorBaseType),
    ParamBuildError,
> {
    let payload = column_size - SQL_SS_VECTOR_HEADER_SIZE;
    if payload < 0 || payload % 4 != 0 || payload / 4 > u16::MAX {
        Err(ParamBuildError::InvalidParameterSize(column_size))
    } else if base_type == 0 {
        Ok(((payload / 4) as u16, VectorBaseType::Float32))
    } else if base_type == 1 {
        Ok(((payload / 4) as u16, VectorBaseType::Float16))
    } else {
        Err(ParamBuildError::InvalidDecimalDigits(base_type))
    }
}

/// The dimensions and element type of a vector.
pub fn vector_metadata(column_size: usize, base_type: i16) -> (metadata: Result<
    (u16, VectorBaseType),
    ParamBuildError,
>)
    ensures
        metadata == vector_metadata_of(column_size, base_type),
{
    if column_size < SQL_SS_VECTOR_HEADER_SIZE {
        return Err(ParamBuildError::InvalidParameterSize(column_size));
    }
    let payload: usize = column_size - SQL_SS_VECTOR_HEADER_SIZE;
    if payload % SQL_SS_VECTOR_ELEMENT_SIZE != 0 || payload / SQL_SS_VECTOR_ELEMENT_SIZE > 65_535 {
        return Err(ParamBuildError::InvalidParameterSize(column_size));
    }
    let dimensions: u16 = (payload / SQL_SS_VECTOR_ELEMENT_SIZE) as u16;
    match base_type {
        0 => Ok((dimensions, VectorBaseType::Float32)),
        1 => Ok((dimensions, VectorBaseType::Float16)),
        _ => Err(ParamBuildError::InvalidDecimalDigits(base_type)),
    }
}

/// A typed value with what it is declared with, or why there is none.
pub type TypedView = Result<(SqlTypeView, Option<RpcTypeMetadata>), ParamBuildError>;

/// The typed NULL of a SQL type.
pub open spec fn typed_null_of(
    sql_type: i16,
    column_size: usize,
    decimal_digits: i16,
) -> TypedView {
    let fixed_char = fixed_length_of(column_size, SQL_PREC_BIGCHARBINARY);
    let fixed_nchar = fixed_length_of(column_size, SQL_PREC_NCHAR);
    let var_char = variable_length_of(column_size, SQL_PREC_BIGCHARBINARY);
    let var_nchar = variable_length_of(column_size, SQL_PREC_NCHAR);
    let decimal = decimal_metadata_of(column_size, decimal_digits);
    let time = datetime_metadata_of(decimal_digits);
    let vector = vector_metadata_of(column_size, decimal_digits);
    if sql_type == SQL_BIT {
        Ok((SqlTypeView::Bit, None))
    } else if sql_type == SQL_TINYINT {
        Ok((SqlTypeView::TinyInt(None), None))
    } else if sql_type == SQL_SMALLINT {
        Ok((SqlTypeView::SmallInt(None), None))
    } else if sql_type == SQL_INTEGER {
        Ok((SqlTypeView::Int(None), None))
    } else if sql_type == SQL_BIGINT {
        Ok((SqlTypeView::BigInt(None), None))
    } else if sql_type == SQL_REAL {
        Ok((SqlTypeView::Real, None))
    } else if sql_type == SQL_FLOAT || sql_type == SQL_DOUBLE {
        Ok((SqlTypeView::Float, None))
    } else if sql_type == SQL_DECIMAL || sql_type == SQL_NUMERIC {
        match decimal {
            Ok(metadata) => Ok(
                (
                    if sql_type == SQL_DECIMAL {
                        SqlTypeView::Decimal
                    } else {
                        SqlTypeView::Numeric
                    },
                    Some(metadata),
                ),
            ),
            Err(error) => Err(error),
        }
    } else if sql_type == SQL_CHAR {
        match fixed_char {
            Ok(length) => Ok((SqlTypeView::Char(None, length), None)),
            Err(error) => Err(error),
        }
    } else if sql_type == SQL_VARCHAR {
        match var_char {
            Some(length) => Ok((SqlTypeView::Varchar(None, length), None)),
            None => Ok((SqlTypeView::VarcharMax(None), None)),
        }
    } else if sql_type == SQL_LONGVARCHAR {
        Ok((SqlTypeView::VarcharMax(None), None))
    } else if sql_type == SQL_WCHAR {
        match fixed_nchar {
            Ok(length) => Ok((SqlTypeView::NChar(None, length), None)),
            Err(error) => Err(error),
        }
    } else if sql_type == SQL_WVARCHAR {
        match var_nchar {
            Some(length) => Ok((SqlTypeView::NVarchar(None, length), None)),
            None => Ok((SqlTypeView::NVarcharMax(None), None)),
        }
    } else if sql_type == SQL_WLONGVARCHAR {
        Ok((SqlTypeView::NVarcharMax(None), None))
    } else if sql_type == SQL_BINARY {
        match fixed_char {
            Ok(length) => Ok((SqlTypeView::Binary(None, length), None)),
            Err(error) => Err(error),
        }
    } else if sql_type == SQL_VARBINARY {
        match var_char {
            Some(length) => Ok((SqlTypeView::VarBinary(None, length), None)),
            None => Ok((SqlTypeView::VarBinaryMax(None), None)),
        }
    } else if sql_type == SQL_LONGVARBINARY {
        Ok((SqlTypeView::VarBinaryMax(None), None))
    } else if sql_type == SQL_GUID {
        Ok((SqlTypeView::Uuid, None))
    } else if sql_type == SQL_TYPE_DATE {
        Ok((SqlTypeView::Date, None))
    } else if sql_type == SQL_TYPE_TIME || sql_type == SQL_SS_TIME2 || sql_type
        == SQL_TYPE_TIMESTAMP || sql_type == SQL_SS_TIMESTAMPOFFSET {
        match time {
            Ok(metadata) => Ok(
                (
                    if sql_type == SQL_TYPE_TIMESTAMP {
                        SqlTypeView::DateTime2
                    } else if sql_type == SQL_SS_TIMESTAMPOFFSET {
                        SqlTypeView::DateTimeOffset
                    } else {
                        SqlTypeView::Time
                    },
                    Some(metadata),
                ),
            ),
            Err(error) => Err(error),
        }
    } else if sql_type == SQL_SS_XML {
        Ok((SqlTypeView::Xml, None))
    } else if sql_type == SQL_SS_VARIANT {
        Ok((SqlTypeView::Variant, None))
    } else if sql_type == SQL_SS_VECTOR {
        match vector {
            Ok((dimensions, base)) => Ok((SqlTypeView::Vector(dimensions, base), None)),
            Err(error) => Err(error),
        }
    } else {
        Err(ParamBuildError::UnsupportedSqlType(sql_type))
    }
}

/// Whether a result is the mathematical one.
pub open spec fn same_typed(
    result: Result<(SqlType, Option<RpcTypeMetadata>), ParamBuildError>,
    view: TypedView,
) -> bool {
    match (result, view) {
        (Ok(r), Ok(v)) => r.0@ == v.0 && r.1 == v.1,
        (Err(r), Err(v)) => r == v,
        _ => false,
    }
}

/// The typed NULL of a SQL type. What a declaration is made of is checked
/// here, so that the server never sees one it cannot parse.
pub fn typed_null(sql_type: i16, column_size: usize, decimal_digits: i16) -> (result: Result<
    (SqlType, Option<RpcTypeMetadata>),
    ParamBuildError,
>)
    ensures
        same_typed(result, typed_null_of(sql_type, column_size, decimal_digits)),
{
    let value: SqlType = match sql_type {
        SQL_BIT => SqlType::Bit,
        SQL_TINYINT => SqlType::TinyInt(None),
        SQL_SMALLINT => SqlType::SmallInt(None),
        SQL_INTEGER => SqlType::Int(None),
        SQL_BIGINT => SqlType::BigInt(None),
        SQL_REAL => SqlType::Real,
        SQL_FLOAT | SQL_DOUBLE => SqlType::Float,
        SQL_DECIMAL => {
            let metadata = decimal_metadata(column_size, decimal_digits)?;
            return Ok((SqlType::Decimal, Some(metadata)));
        },
        SQL_NUMERIC => {
            let metadata = decimal_metadata(column_size, decimal_digits)?;
            return Ok((SqlType::Numeric, Some(metadata)));
        },
        SQL_CHAR => SqlType::Char(None, fixed_length(column_size, SQL_PREC_BIGCHARBINARY)?),
        SQL_VARCHAR => match variable_length(column_size, SQL_PREC_BIGCHARBINARY) {
            Some(length) => SqlType::Varchar(None, length),
            None => SqlType::VarcharMax(None),
        },
        SQL_LONGVARCHAR => SqlType::VarcharMax(None),
        SQL_WCHAR => SqlType::NChar(None, fixed_length(column_size, SQL_PREC_NCHAR)?),
        SQL_WVARCHAR => match variable_length(column_size, SQL_PREC_NCHAR) {
            Some(length) => SqlType::NVarchar(None, length),
            None => SqlType::NVarcharMax(None),
        },
        SQL_WLONGVARCHAR => SqlType::NVarcharMax(None),
        SQL_BINARY => SqlType::Binary(None, fixed_length(column_size, SQL_PREC_BIGCHARBINARY)?),
        SQL_VARBINARY => match variable_length(column_size, SQL_PREC_BIGCHARBINARY) {
            Some(length) => SqlType::VarBinary(None, length),
            None => SqlType::VarBinaryMax(None),
        },
        SQL_LONGVARBINARY => SqlType::VarBinaryMax(None),
        SQL_GUID => SqlType::Uuid,
        SQL_TYPE_DATE => SqlType::Date,
        SQL_TYPE_TIME | SQL_SS_TIME2 => {
            let metadata = datetime_metadata(decimal_digits)?;
            return Ok((SqlType::Time, Some(metadata)));
        },
        SQL_TYPE_TIMESTAMP => {
            let metadata = datetime_metadata(decimal_digits)?;
            return Ok((SqlType::DateTime2, Some(metadata)));
        },
        SQL_SS_TIMESTAMPOFFSET => {
            let metadata = datetime_metadata(decimal_digits)?;
            return Ok((SqlType::DateTimeOffset, Some(metadata)));
        },
        SQL_SS_XML => SqlType::Xml,
        SQL_SS_VARIANT => SqlType::Variant,
        SQL_SS_VECTOR => {
            let (dimensions, base_type) = vector_metadata(column_size, decimal_digits)?;
            SqlType::Vector(dimensions, base_type)
        },
        other => {
            return Err(ParamBuildError::UnsupportedSqlType(other));
        },
    };
    Ok((value, None))
}

/// Application text in the encoding of its C type.
#[derive(Debug, Clone, PartialEq, Eq)]
pub enum AppText {
    Utf8(Vec<u8>),
    /// Little-endian UTF-16 bytes.
    Utf16(Vec<u8>),
}

impl View for AppText {
    type V = TextView;

    open spec fn view(&self) -> TextView {
        match *self {
            AppText::Utf8(bytes) => (bytes@, EncodingType::Utf8),
            AppText::Utf16(bytes) => (bytes@, EncodingType::Utf16),
        }
    }
}

/// The characters of a text, with what is not text replaced by U+FFFD.
pub open spec fn decoded(text: TextView) -> Seq<char> {
    match text.1 {
        EncodingType::Utf8 => unicode::utf8_text(text.0),
        EncodingType::Utf16 => unicode::lossy_utf16(unicode::units_of(text.0)),
    }
}

/// The length of a text in UTF-16 units, in which declared lengths count
/// whatever the encoding.
pub open spec fn units_in(text: TextView) -> int {
    match text.1 {
        EncodingType::Utf8 => unicode::utf16_of(unicode::utf8_text(text.0)).len() as int,
        EncodingType::Utf16 => text.0.len() as int / 2,
    }
}

/// The text in the encoding of the target: UTF-16 for a wide one. Bytes that
/// are not text are repaired where they are decoded.
pub open spec fn transcoded(text: TextView, wide_target: bool) -> TextView {
    match (text.1, wide_target) {
        (EncodingType::Utf16, true) => text,
        (EncodingType::Utf8, false) => if vstd::utf8::valid_utf8(text.0) {
            text
        } else {
            (vstd::utf8::encode_utf8(decoded(text)), EncodingType::Utf8)
        },
        (EncodingType::Utf8, true) => (
            unicode::le_bytes(unicode::utf16_of(decoded(text))),
            EncodingType::Utf16,
        ),
        (EncodingType::Utf16, false) => (
            vstd::utf8::encode_utf8(decoded(text)),
            EncodingType::Utf8,
        ),
    }
}

impl AppText {
    /// The characters of the text.
    pub fn decode(&self) -> (text: Vec<char>)
        ensures
            text@ == decoded(self@),
    {
        match self {
            AppText::Utf8(bytes) => decode_utf8_lossy(bytes.as_slice()),
            AppText::Utf16(bytes) => decode_utf16le(bytes.as_slice()),
        }
    }

    /// The text in the encoding of the target.
    pub fn transcode(self, wide_target: bool) -> (text: AppText)
        ensures
            text@ == transcoded(self@, wide_target),
    {
        match self {
            AppText::Utf16(bytes) => if wide_target {
                AppText::Utf16(bytes)
            } else {
                let decoded_text: Vec<char> = decode_utf16le(bytes.as_slice());
                AppText::Utf8(encode_utf8_bytes(decoded_text.as_slice()))
            },
            AppText::Utf8(bytes) => {
                let decoded_text: Vec<char> = decode_utf8_lossy(bytes.as_slice());
                if wide_target {
                    AppText::Utf16(encode_utf16le(decoded_text.as_slice()))
                } else {
                    proof {
                        if vstd::utf8::valid_utf8(bytes@) {
                            unicode::valid_utf8_is_its_text(bytes@);
                            vstd::utf8::decode_utf8_encode_utf8(bytes@);
                        }
                    }
                    AppText::Utf8(encode_utf8_bytes(decoded_text.as_slice()))
                }
            },
        }
    }

    /// The text as a value for the server.
    pub fn into_sql_string(self) -> (text: SqlString)
        ensures
            (text.bytes@, text.encoding) == self@,
    {
        match self {
            AppText::Utf8(bytes) => SqlString { bytes, encoding: EncodingType::Utf8 },
            AppText::Utf16(bytes) => SqlString { bytes, encoding: EncodingType::Utf16 },
        }
    }

    /// The length of the text in UTF-16 units.
    pub fn len_in_utf16_units(&self) -> (units: usize)
        ensures
            units == units_in(self@),
            units <= self@.0.len(),
    {
        match self {
            AppText::Utf16(bytes) => bytes.len() / 2,
            AppText::Utf8(bytes) => {
                let decoded_text: Vec<char> = decode_utf8_lossy(bytes.as_slice());
                let units: Vec<u16> = encode_units(decoded_text.as_slice());
                units.len()
            },
        }
    }
}

/// Whether bytes are blanks only, in their encoding.
pub open spec fn all_blanks(bytes: Seq<u8>, encoding: EncodingType) -> bool {
    forall|k: int|
        0 <= k < bytes.len() ==> #[trigger] bytes[k] == (if encoding == EncodingType::Utf16 && k % 2
            == 1 {
            0u8
        } else {
            32u8
        })
}

/// Trims a text to `limit` UTF-16 units: an overflow of blanks is dropped, any
/// other is refused.
pub open spec fn trimmed_text(text: TextView, limit: usize) -> Result<TextView, ParamBuildError> {
    let overflow = units_in(text) - limit;
    let unit = if text.1 == EncodingType::Utf16 {
        2int
    } else {
        1
    };
    let keep = text.0.len() - overflow * unit;
    if overflow <= 0 {
        Ok(text)
    } else if all_blanks(text.0.skip(keep), text.1) {
        Ok((text.0.take(keep), text.1))
    } else {
        Err(ParamBuildError::StringTruncation)
    }
}

/// Whether the bytes from `from` on are blanks only.
fn blanks_from(bytes: &[u8], from: usize, encoding: EncodingType) -> (blanks: bool)
    requires
        from <= bytes@.len(),
    ensures
        blanks == all_blanks(bytes@.skip(from as int), encoding),
{
    let ghost tail = bytes@.skip(from as int);
    let mut k: usize = from;
    let mut second: bool = false;
    while k < bytes.len()
        invariant
            from <= k <= bytes@.len(),
            tail == bytes@.skip(from as int),
            second == ((k - from) % 2 == 1),
            forall|j: int|
                0 <= j < k - from ==> #[trigger] tail[j] == (if encoding == EncodingType::Utf16 && j
                    % 2 == 1 {
                    0u8
                } else {
                    32u8
                }),
        decreases bytes@.len() - k,
    {
        let wide: bool = match encoding {
            EncodingType::Utf16 => true,
            EncodingType::Utf8 => false,
        };
        let expected: u8 = if wide && second {
            0
        } else {
            32
        };
        assert(tail[k - from] == bytes@[k as int]);
        if bytes[k] != expected {
            return false;
        }
        k = k + 1;
        second = !second;
    }
    true
}

/// Blanks at the end of UTF-8 bytes are one UTF-16 unit each.
proof fn lemma_units_before_blanks(bytes: Seq<u8>, keep: int)
    requires
        0 <= keep <= bytes.len(),
        all_blanks(bytes.skip(keep), EncodingType::Utf8),
    ensures
        units_in((bytes, EncodingType::Utf8)) == units_in((bytes.take(keep), EncodingType::Utf8))
            + bytes.len() - keep,
    decreases bytes.len() - keep,
{
    if keep == bytes.len() {
        assert(bytes.take(keep) =~= bytes);
    } else {
        let front = bytes.drop_last();
        assert(bytes.skip(keep)[bytes.len() - keep - 1] == bytes.last());
        assert(front.skip(keep) =~= bytes.skip(keep).drop_last());
        assert(front.take(keep) =~= bytes.take(keep));
        lemma_units_before_blanks(front, keep);
        unicode::lemma_last_byte_is_a_run(bytes);
        unicode::lemma_utf8_text_splits(bytes, bytes.len() - 1);
        assert(bytes.take(bytes.len() - 1) =~= front);
        let blank = bytes.skip(bytes.len() - 1);
        assert(blank =~= seq![32u8]);
        unicode::lemma_blank_text();
        unicode::lemma_utf16_of_adds(unicode::utf8_text(front), unicode::utf8_text(blank));
    }
}

/// Trims a text to `limit` UTF-16 units, or refuses it. What is left has no more
/// units than that, and what went were blanks.
pub fn trim_blank_overflow(text: AppText, limit: usize) -> (result: Result<
    AppText,
    ParamBuildError,
>)
    ensures
        match trimmed_text(text@, limit) {
            Ok(view) => result is Ok && result->Ok_0@ == view,
            Err(error) => result is Err && result->Err_0 == error,
        },
        result matches Ok(fitted) ==> {
            let kept = fitted@.0.len();
            &&& units_in(fitted@) <= limit
            &&& fitted@.1 == text@.1
            &&& kept <= text@.0.len()
            &&& fitted@.0 == text@.0.take(kept as int)
            &&& all_blanks(text@.0.skip(kept as int), text@.1)
        },
{
    let units: usize = text.len_in_utf16_units();
    if units <= limit {
        return Ok(text);
    }
    let overflow: usize = units - limit;
    match text {
        AppText::Utf8(bytes) => {
            let keep: usize = bytes.len() - overflow;
            if !blanks_from(bytes.as_slice(), keep, EncodingType::Utf8) {
                return Err(ParamBuildError::StringTruncation);
            }
            let mut bytes: Vec<u8> = bytes;
            let ghost whole = bytes@;
            bytes.truncate(keep);
            assert(bytes@ =~= whole.take(keep as int));
            proof {
                lemma_units_before_blanks(whole, keep as int);
            }
            Ok(AppText::Utf8(bytes))
        },
        AppText::Utf16(bytes) => {
            let keep: usize = bytes.len() - overflow * 2;
            if !blanks_from(bytes.as_slice(), keep, EncodingType::Utf16) {
                return Err(ParamBuildError::StringTruncation);
            }
            let mut bytes: Vec<u8> = bytes;
            let ghost whole = bytes@;
            bytes.truncate(keep);
            assert(bytes@ =~= whole.take(keep as int));
            Ok(AppText::Utf16(bytes))
        },
    }
}

/// The declared length of a character type and the limit its values are
/// trimmed to. The long types declare none but are still limited; only the
/// `max` types are not.
pub open spec fn character_limits(sql_type: i16, column_size: usize) -> Result<
    (Option<u16>, Option<usize>),
    ParamBuildError,
> {
    let max = if is_wide(sql_type) {
        SQL_PREC_NCHAR
    } else {
        SQL_PREC_BIGCHARBINARY
    };
    if sql_type == SQL_CHAR || sql_type == SQL_WCHAR {
        match fixed_length_of(column_size, max) {
            Ok(length) => Ok((Some(length), Some(length as usize))),
            Err(error) => Err(error),
        }
    } else if sql_type == SQL_VARCHAR || sql_type == SQL_WVARCHAR {
        match variable_length_of(column_size, max) {
            Some(length) => Ok((Some(length), Some(length as usize))),
            None => Ok((None, None)),
        }
    } else if sql_type == SQL_LONGVARCHAR {
        Ok(
            (
                None,
                Some(
                    if column_size < SQL_PREC_TEXTIMAGE {
                        column_size
                    } else {
                        SQL_PREC_TEXTIMAGE
                    },
                ),
            ),
        )
    } else if sql_type == SQL_WLONGVARCHAR {
        Ok(
            (
                None,
                Some(
                    if column_size < SQL_PREC_NTEXT {
                        column_size
                    } else {
                        SQL_PREC_NTEXT
                    },
                ),
            ),
        )
    } else {
        Err(ParamBuildError::UnsupportedSqlType(sql_type))
    }
}

/// A character value of a SQL type with a declared length.
pub open spec fn character_value(sql_type: i16, declared: Option<u16>, text: TextView) -> SqlTypeView {
    if sql_type == SQL_CHAR {
        SqlTypeView::Char(Some(text), declared->Some_0)
    } else if sql_type == SQL_WCHAR {
        SqlTypeView::NChar(Some(text), declared->Some_0)
    } else if sql_type == SQL_VARCHAR && declared is Some {
        SqlTypeView::Varchar(Some(text), declared->Some_0)
    } else if sql_type == SQL_WVARCHAR && declared is Some {
        SqlTypeView::NVarchar(Some(text), declared->Some_0)
    } else if is_wide(sql_type) {
        SqlTypeView::NVarcharMax(Some(text))
    } else {
        SqlTypeView::VarcharMax(Some(text))
    }
}

/// A value for the server, or why there is none.
pub type ValueView = Result<SqlTypeView, ParamBuildError>;

/// The character value of a SQL type: the text trimmed to its limit, then put
/// in the type's encoding.
pub open spec fn character_of(sql_type: i16, column_size: usize, text: TextView) -> ValueView {
    match character_limits(sql_type, column_size) {
        Err(error) => Err(error),
        Ok((declared, limit)) => {
            let fitted = match limit {
                Some(n) => trimmed_text(text, n),
                None => Ok(text),
            };
            match fitted {
                Err(error) => Err(error),
                Ok(t) => Ok(
                    character_value(sql_type, declared, transcoded(t, is_wide(sql_type))),
                ),
            }
        },
    }
}

/// Whether a result is the mathematical one.
pub open spec fn same_result(result: Result<SqlType, ParamBuildError>, view: ValueView) -> bool {
    match (result, view) {
        (Ok(r), Ok(v)) => r@ == v,
        (Err(r), Err(v)) => r == v,
        _ => false,
    }
}

/// Makes the character value of a SQL type.
pub fn convert_character_sql(sql_type: i16, column_size: usize, text: AppText) -> (result: Result<
    SqlType,
    ParamBuildError,
>)
    ensures
        same_result(result, character_of(sql_type, column_size, text@)),
{
    let wide: bool = is_wide_character_sql_type(sql_type);
    let max_length: usize = if wide {
        SQL_PREC_NCHAR
    } else {
        SQL_PREC_BIGCHARBINARY
    };
    let (declared, limit): (Option<u16>, Option<usize>) = match sql_type {
        SQL_CHAR | SQL_WCHAR => {
            let length: u16 = fixed_length(column_size, max_length)?;
            (Some(length), Some(length as usize))
        },
        SQL_VARCHAR | SQL_WVARCHAR => match variable_length(column_size, max_length) {
            Some(length) => (Some(length), Some(length as usize)),
            None => (None, None),
        },
        SQL_LONGVARCHAR => (
            None,
            Some(if column_size < SQL_PREC_TEXTIMAGE { column_size } else { SQL_PREC_TEXTIMAGE }),
        ),
        SQL_WLONGVARCHAR => (
            None,
            Some(if column_size < SQL_PREC_NTEXT { column_size } else { SQL_PREC_NTEXT }),
        ),
        other => {
            return Err(ParamBuildError::UnsupportedSqlType(other));
        },
    };
    let fitted: AppText = match limit {
        Some(n) => trim_blank_overflow(text, n)?,
        None => text,
    };
    let value = Some(fitted.transcode(wide).into_sql_string());
    match (sql_type, declared) {
        (SQL_CHAR, Some(length)) => Ok(SqlType::Char(value, length)),
        (SQL_WCHAR, Some(length)) => Ok(SqlType::NChar(value, length)),
        (SQL_VARCHAR, Some(length)) => Ok(SqlType::Varchar(value, length)),
        (SQL_VARCHAR, None) => Ok(SqlType::VarcharMax(value)),
        (SQL_WVARCHAR, Some(length)) => Ok(SqlType::NVarchar(value, length)),
        (SQL_WVARCHAR, None) => Ok(SqlType::NVarcharMax(value)),
        (SQL_LONGVARCHAR, _) => Ok(SqlType::VarcharMax(value)),
        (SQL_WLONGVARCHAR, _) => Ok(SqlType::NVarcharMax(value)),
        (other, _) => Err(ParamBuildError::UnsupportedSqlType(other)),
    }
}

/// Whether bytes are zeros only.
pub open spec fn all_zeros(bytes: Seq<u8>) -> bool {
    forall|k: int| 0 <= k < bytes.len() ==> #[trigger] bytes[k] == 0
}

/// Trims bytes to `limit`: an overflow of zeros is dropped, any other is
/// refused.
pub open spec fn trimmed_bytes(bytes: Seq<u8>, limit: usize) -> Result<
    Seq<u8>,
    ParamBuildError,
> {
    if bytes.len() <= limit {
        Ok(bytes)
    } else if all_zeros(bytes.skip(limit as int)) {
        Ok(bytes.take(limit as int))
    } else {
        Err(ParamBuildError::StringTruncation)
    }
}

/// Whether the bytes from `from` on are zeros only.
fn zeros_from(bytes: &[u8], from: usize) -> (zeros: bool)
    requires
        from <= bytes@.len(),
    ensures
        zeros == all_zeros(bytes@.skip(from as int)),
{
    let ghost tail = bytes@.skip(from as int);
    let mut k: usize = from;
    while k < bytes.len()
        invariant
            from <= k <= bytes@.len(),
            tail == bytes@.skip(from as int),
            forall|j: int| 0 <= j < k - from ==> #[trigger] tail[j] == 0,
        decreases bytes@.len() - k,
    {
        assert(tail[k - from] == bytes@[k as int]);
        if bytes[k] != 0 {
            return false;
        }
        k = k + 1;
    }
    true
}

/// Trims bytes to `limit`, or refuses them.
pub fn trim_zero_overflow(bytes: Vec<u8>, limit: usize) -> (result: Result<
    Vec<u8>,
    ParamBuildError,
>)
    ensures
        match trimmed_bytes(bytes@, limit) {
            Ok(view) => result is Ok && result->Ok_0@ == view,
            Err(error) => result is Err && result->Err_0 == error,
        },
{
    if bytes.len() <= limit {
        return Ok(bytes);
    }
    if !zeros_from(bytes.as_slice(), limit) {
        return Err(ParamBuildError::StringTruncation);
    }
    let ghost whole = bytes@;
    let mut bytes: Vec<u8> = bytes;
    bytes.truncate(limit);
    assert(bytes@ =~= whole.take(limit as int));
    Ok(bytes)
}

/// The declared length of a binary type and the limit its values are trimmed
/// to.
pub open spec fn binary_limits(sql_type: i16, column_size: usize) -> Result<
    (Option<u16>, Option<usize>),
    ParamBuildError,
> {
    if sql_type == SQL_BINARY {
        match fixed_length_of(column_size, SQL_PREC_BIGCHARBINARY) {
            Ok(length) => Ok((Some(length), Some(length as usize))),
            Err(error) => Err(error),
        }
    } else if sql_type == SQL_VARBINARY {
        match variable_length_of(column_size, SQL_PREC_BIGCHARBINARY) {
            Some(length) => Ok((Some(length), Some(length as usize))),
            None => Ok((None, None)),
        }
    } else if sql_type == SQL_LONGVARBINARY {
        Ok(
            (
                None,
                Some(
                    if column_size < SQL_PREC_TEXTIMAGE {
                        column_size
                    } else {
                        SQL_PREC_TEXTIMAGE
                    },
                ),
            ),
        )
    } else {
        Err(ParamBuildError::UnsupportedSqlType(sql_type))
    }
}

/// The binary value of a SQL type.
pub open spec fn binary_of(sql_type: i16, column_size: usize, bytes: Seq<u8>) -> ValueView {
    match binary_limits(sql_type, column_size) {
        Err(error) => Err(error),
        Ok((declared, limit)) => {
            let fitted = match limit {
                Some(n) => trimmed_bytes(bytes, n),
                None => Ok(bytes),
            };
            match fitted {
                Err(error) => Err(error),
                Ok(b) => Ok(
                    if sql_type == SQL_BINARY {
                        SqlTypeView::Binary(Some(b), declared->Some_0)
                    } else if declared is Some {
                        SqlTypeView::VarBinary(Some(b), declared->Some_0)
                    } else {
                        SqlTypeView::VarBinaryMax(Some(b))
                    },
                ),
            }
        },
    }
}

/// Makes the binary value of a SQL type.
pub fn convert_binary_sql(sql_type: i16, column_size: usize, bytes: Vec<u8>) -> (result: Result<
    SqlType,
    ParamBuildError,
>)
    ensures
        same_result(result, binary_of(sql_type, column_size, bytes@)),
{
    let (declared, limit): (Option<u16>, Option<usize>) = match sql_type {
        SQL_BINARY => {
            let length: u16 = fixed_length(column_size, SQL_PREC_BIGCHARBINARY)?;
            (Some(length), Some(length as usize))
        },
        SQL_VARBINARY => match variable_length(column_size, SQL_PREC_BIGCHARBINARY) {
            Some(length) => (Some(length), Some(length as usize)),
            None => (None, None),
        },
        SQL_LONGVARBINARY => (
            None,
            Some(if column_size < SQL_PREC_TEXTIMAGE { column_size } else { SQL_PREC_TEXTIMAGE }),
        ),
        other => {
            return Err(ParamBuildError::UnsupportedSqlType(other));
        },
    };
    let fitted: Vec<u8> = match limit {
        Some(n) => trim_zero_overflow(bytes, n)?,
        None => bytes,
    };
    match (sql_type, declared) {
        (SQL_BINARY, Some(length)) => Ok(SqlType::Binary(Some(fitted), length)),
        (SQL_VARBINARY, Some(length)) => Ok(SqlType::VarBinary(Some(fitted), length)),
        (SQL_VARBINARY, None) => Ok(SqlType::VarBinaryMax(Some(fitted))),
        (SQL_LONGVARBINARY, _) => Ok(SqlType::VarBinaryMax(Some(fitted))),
        (other, _) => Err(ParamBuildError::UnsupportedSqlType(other)),
    }
}

/// The integer value of a SQL type; a value outside the type's range is
/// refused, never wrapped.
pub open spec fn integer_value_of(sql_type: i16, v: int) -> ValueView {
    let out_of_range = Err(ParamBuildError::Value(ConvError::OutOfRange));
    if sql_type == SQL_TINYINT {
        if 0 <= v <= 255 {
            Ok(SqlTypeView::TinyInt(Some(v as u8)))
        } else {
            out_of_range
        }
    } else if sql_type == SQL_SMALLINT {
        if i16::MIN <= v <= i16::MAX {
            Ok(SqlTypeView::SmallInt(Some(v as i16)))
        } else {
            out_of_range
        }
    } else if sql_type == SQL_INTEGER {
        if i32::MIN <= v <= i32::MAX {
            Ok(SqlTypeView::Int(Some(v as i32)))
        } else {
            out_of_range
        }
    } else if sql_type == SQL_BIGINT {
        if i64::MIN <= v <= i64::MAX {
            Ok(SqlTypeView::BigInt(Some(v as i64)))
        } else {
            out_of_range
        }
    } else {
        Err(ParamBuildError::UnsupportedSqlType(sql_type))
    }
}

/// Makes the integer value of a SQL type.
pub fn convert_integer_sql(sql_type: i16, v: i128) -> (result: Result<SqlType, ParamBuildError>)
    ensures
        same_result(result, integer_value_of(sql_type, v as int)),
{
    match sql_type {
        SQL_TINYINT => if 0 <= v && v <= 255 {
            Ok(SqlType::TinyInt(Some(v as u8)))
        } else {
            Err(ParamBuildError::Value(ConvError::OutOfRange))
        },
        SQL_SMALLINT => if -0x8000 <= v && v <= 0x7fff {
            Ok(SqlType::SmallInt(Some(v as i16)))
        } else {
            Err(ParamBuildError::Value(ConvError::OutOfRange))
        },
        SQL_INTEGER => if -0x8000_0000 <= v && v <= 0x7fff_ffff {
            Ok(SqlType::Int(Some(v as i32)))
        } else {
            Err(ParamBuildError::Value(ConvError::OutOfRange))
        },
        SQL_BIGINT => if -0x8000_0000_0000_0000 <= v && v <= 0x7fff_ffff_ffff_ffff {
            Ok(SqlType::BigInt(Some(v as i64)))
        } else {
            Err(ParamBuildError::Value(ConvError::OutOfRange))
        },
        other => Err(ParamBuildError::UnsupportedSqlType(other)),
    }
}

/// The decimal digits of a number, as ASCII, without leading zeros.
pub open spec fn decimal_digits_of(n: int) -> Seq<u8>
    decreases n,
{
    if n < 10 {
        seq![(48 + n) as u8]
    } else {
        decimal_digits_of(n / 10).push((48 + n % 10) as u8)
    }
}

/// The decimal form of an integer, as ASCII.
pub open spec fn integer_text(v: int) -> Seq<u8> {
    if v < 0 {
        seq![45u8] + decimal_digits_of(-v)
    } else {
        decimal_digits_of(v)
    }
}

/// Formats an integer for a character target.
pub fn integer_as_text(v: i128) -> (text: AppText)
    ensures
        text@ == (integer_text(v as int), EncodingType::Utf8),
{
    let mut n: u128 = if v < 0 {
        (-(v + 1)) as u128 + 1
    } else {
        v as u128
    };
    let ghost whole = n as int;
    let mut reversed: Vec<u8> = Vec::new();
    assert(decimal_digits_of(whole) =~= decimal_digits_of(n as int) + reversed@.reverse());
    while n >= 10
        invariant
            decimal_digits_of(whole) == decimal_digits_of(n as int) + reversed@.reverse(),
        decreases n,
    {
        let ghost before = reversed@;
        reversed.push(48 + (n % 10) as u8);
        proof {
            assert(reversed@.reverse() =~= seq![(48 + n % 10) as u8] + before.reverse());
            assert(decimal_digits_of(n as int) + before.reverse() =~= decimal_digits_of(
                n as int / 10,
            ) + reversed@.reverse());
        }
        n = n / 10;
    }
    let mut bytes: Vec<u8> = Vec::new();
    if v < 0 {
        bytes.push(45);
    }
    bytes.push(48 + n as u8);
    let ghost head = bytes@;
    let mut k: usize = reversed.len();
    while k > 0
        invariant
            k <= reversed@.len(),
            bytes@ == head + reversed@.skip(k as int).reverse(),
        decreases k,
    {
        k = k - 1;
        bytes.push(reversed[k]);
        assert(bytes@ =~= head + reversed@.skip(k as int).reverse());
    }
    proof {
        assert(reversed@.skip(0) =~= reversed@);
        assert(bytes@ =~= integer_text(v as int));
    }
    AppText::Utf8(bytes)
}

/// The integer value a text denotes for a SQL type, given the double its
/// number text parses to. A value out of range is refused as such even when
/// its fraction would be dropped too; a dropped fraction alone is a
/// truncation.
pub open spec fn integer_from_text_of(
    sql_type: i16,
    text: TextView,
    double: Option<u64>,
) -> ValueView {
    match numeric::numeric_of(decoded(text), double) {
        Err(error) => Err(ParamBuildError::Value(error)),
        Ok(source) => match numeric::truncation(source) {
            None => Err(ParamBuildError::Value(ConvError::OutOfRange)),
            Some((v, dropped)) => match integer_value_of(sql_type, v) {
                Err(error) => Err(error),
                Ok(value) => if dropped {
                    Err(ParamBuildError::StringTruncation)
                } else {
                    Ok(value)
                },
            },
        },
    }
}

/// Reads a text as the integer value of a SQL type.
pub fn integer_from_text(sql_type: i16, text: &AppText, double: Option<u64>) -> (result: Result<
    SqlType,
    ParamBuildError,
>)
    ensures
        same_result(result, integer_from_text_of(sql_type, text@, double)),
{
    let decoded_text: Vec<char> = text.decode();
    let source: NumericSource = match parse_numeric_chars(decoded_text.as_slice(), double) {
        Ok(source) => source,
        Err(error) => {
            return Err(ParamBuildError::Value(error));
        },
    };
    let (v, fraction_dropped): (i128, bool) = match source.to_i128_truncating() {
        Some(parts) => parts,
        None => {
            return Err(ParamBuildError::Value(ConvError::OutOfRange));
        },
    };
    let value = convert_integer_sql(sql_type, v)?;
    if fraction_dropped {
        return Err(ParamBuildError::StringTruncation);
    }
    Ok(value)
}

/// Whether a value can become a parameter of some type: integers, texts and
/// binary values can.
pub open spec fn convertible(value: AppValueView) -> bool {
    value is Integer || value is NarrowText || value is WideText || value is Binary
}

/// The value a parameter has for the server once its buffer was read.
pub open spec fn converted(
    c_type: i16,
    sql_type: i16,
    column_size: usize,
    value: AppValueView,
    double: Option<u64>,
) -> ValueView {
    if !convertible(value) {
        Err(ParamBuildError::UnsupportedCType(c_type))
    } else {
        converted_to(sql_type, column_size, value, double)
    }
}

/// The value a convertible value has for the server.
pub open spec fn converted_to(
    sql_type: i16,
    column_size: usize,
    value: AppValueView,
    double: Option<u64>,
) -> ValueView {
    match family_of(sql_type) {
        None => Err(ParamBuildError::UnsupportedSqlType(sql_type)),
        Some(SqlFamily::Integer) => match value {
            AppValueView::Integer(v) => integer_value_of(sql_type, v),
            AppValueView::NarrowText(b) => integer_from_text_of(
                sql_type,
                (b, EncodingType::Utf8),
                double,
            ),
            AppValueView::WideText(b) => integer_from_text_of(
                sql_type,
                (b, EncodingType::Utf16),
                double,
            ),
            _ => Err(ParamBuildError::ConversionNotImplemented),
        },
        Some(SqlFamily::Character) => match value {
            AppValueView::Integer(v) => character_of(
                sql_type,
                column_size,
                (integer_text(v), EncodingType::Utf8),
            ),
            AppValueView::NarrowText(b) => character_of(
                sql_type,
                column_size,
                (b, EncodingType::Utf8),
            ),
            AppValueView::WideText(b) => character_of(
                sql_type,
                column_size,
                (b, EncodingType::Utf16),
            ),
            _ => Err(ParamBuildError::ConversionNotImplemented),
        },
        Some(SqlFamily::Binary) => match value {
            AppValueView::Binary(b) => binary_of(sql_type, column_size, b),
            _ => Err(ParamBuildError::ConversionNotImplemented),
        },
    }
}

/// Converts a value read from an application buffer of type `c_type`.
pub fn convert_value(
    c_type: i16,
    sql_type: i16,
    column_size: usize,
    value: AppValue,
    double: Option<u64>,
) -> (result: Result<SqlType, ParamBuildError>)
    ensures
        same_result(result, converted(c_type, sql_type, column_size, value@, double)),
{
    match value {
        AppValue::Integer(_)
        | AppValue::NarrowText(_)
        | AppValue::WideText(_)
        | AppValue::Binary(_) => {},
        _ => {
            return Err(ParamBuildError::UnsupportedCType(c_type));
        },
    }
    let family: SqlFamily = match sql_family(sql_type) {
        Some(family) => family,
        None => {
            return Err(ParamBuildError::UnsupportedSqlType(sql_type));
        },
    };
    match (value, family) {
        (AppValue::Integer(v), SqlFamily::Integer) => convert_integer_sql(sql_type, v),
        (AppValue::NarrowText(bytes), SqlFamily::Character) => convert_character_sql(
            sql_type,
            column_size,
            AppText::Utf8(bytes),
        ),
        (AppValue::WideText(bytes), SqlFamily::Character) => convert_character_sql(
            sql_type,
            column_size,
            AppText::Utf16(bytes),
        ),
        (AppValue::Binary(bytes), SqlFamily::Binary) => convert_binary_sql(
            sql_type,
            column_size,
            bytes,
        ),
        (AppValue::Integer(v), SqlFamily::Character) => convert_character_sql(
            sql_type,
            column_size,
            integer_as_text(v),
        ),
        (AppValue::NarrowText(bytes), SqlFamily::Integer) => integer_from_text(
            sql_type,
            &AppText::Utf8(bytes),
            double,
        ),
        (AppValue::WideText(bytes), SqlFamily::Integer) => integer_from_text(
            sql_type,
            &AppText::Utf16(bytes),
            double,
        ),
        _ => Err(ParamBuildError::ConversionNotImplemented),
    }
}

/// Whether the buffer of a binding can be read as far as its lengths ask.
pub open spec fn binding_readable(param: BoundParam) -> bool {
    param_buffer::indicator_of(param) matches Ok(Indicator::Length(length))
        ==> param_buffer::value_readable(param, length)
}

/// The value a bound parameter has for the server.
pub open spec fn bound_value_of(param: BoundParam, double: Option<u64>) -> TypedView {
    match param_buffer::indicator_of(param) {
        Err(error) => Err(error),
        Ok(Indicator::Null) => typed_null_of(
            param.sql_type,
            param.column_size,
            param.decimal_digits,
        ),
        Ok(Indicator::Length(length)) => match param_buffer::param_value_of(param, length) {
            Err(error) => Err(error),
            Ok(value) => match converted(
                param.c_type,
                param.sql_type,
                param.column_size,
                value,
                double,
            ) {
                Err(error) => Err(error),
                Ok(view) => Ok((view, None)),
            },
        },
    }
}

/// Makes the value a bound parameter has for the server. `double` holds the
/// bits of the double that the parameter's number text parses to, if it has
/// one and it parses.
pub fn bound_param_to_value(param: &BoundParam, double: Option<u64>) -> (result: Result<
    (SqlType, Option<RpcTypeMetadata>),
    ParamBuildError,
>)
    requires
        binding_readable(*param),
    ensures
        same_typed(result, bound_value_of(*param, double)),
{
    let length: isize = match read_indicator(param) {
        Ok(Indicator::Null) => {
            return typed_null(param.sql_type, param.column_size, param.decimal_digits);
        },
        Ok(Indicator::Length(length)) => length,
        Err(error) => {
            return Err(error);
        },
    };
    let value: AppValue = read_param_value(param, length)?;
    match convert_value(param.c_type, param.sql_type, param.column_size, value, double) {
        Ok(converted_value) => Ok((converted_value, None)),
        Err(error) => Err(error),
    }
}

/// A parameter as it is sent, or why there is none.
pub open spec fn same_parameter(
    result: Result<RpcParameter, ParamBuildError>,
    name: Seq<char>,
    view: TypedView,
) -> bool {
    match (result, view) {
        (Ok(r), Ok(v)) => r.name@ == name && r.value@ == v.0 && r.metadata == v.1,
        (Err(r), Err(v)) => r == v,
        _ => false,
    }
}

/// Makes the named parameter a binding is sent as.
pub fn bound_param_to_rpc(name: String, param: &BoundParam, double: Option<u64>) -> (result: Result<
    RpcParameter,
    ParamBuildError,
>)
    requires
        binding_readable(*param),
    ensures
        same_parameter(result, name@, bound_value_of(*param, double)),
{
    match bound_param_to_value(param, double) {
        Ok((value, metadata)) => Ok(RpcParameter { name, value, metadata }),
        Err(error) => Err(error),
    }
}

/// The binding whose buffer is what was collected for a parameter supplied at
/// execution.
pub open spec fn collected_binding(binding: BoundParam, buffer: Vec<u8>, is_null: bool) -> BoundParam {
    let indicator = if is_null {
        SQL_NULL_DATA
    } else {
        buffer@.len() as isize
    };
    BoundParam {
        value: Some(buffer),
        buffer_length: if is_null {
            0
        } else {
            indicator
        },
        indicator: Some(indicator),
        octet_length: Some(indicator),
        ..binding
    }
}

/// Makes the parameter for a value that was collected at execution: declared
/// and converted as if it had been in the binding's buffer all along.
pub fn buffered_dae_to_rpc(
    name: String,
    binding: &BoundParam,
    buffer: Vec<u8>,
    is_null: bool,
    double: Option<u64>,
) -> (result: Result<RpcParameter, ParamBuildError>)
    requires
        binding.c_type == SQL_C_CHAR || binding.c_type == SQL_C_WCHAR || binding.c_type
            == SQL_C_BINARY,
    ensures
        same_parameter(
            result,
            name@,
            if !is_null && buffer@.len() > isize::MAX {
                Err(ParamBuildError::StringTruncation)
            } else {
                bound_value_of(collected_binding(*binding, buffer, is_null), double)
            },
        ),
{
    let indicator: isize = if is_null {
        SQL_NULL_DATA
    } else {
        if buffer.len() > isize::MAX as usize {
            return Err(ParamBuildError::StringTruncation);
        }
        buffer.len() as isize
    };
    let collected = BoundParam {
        input_output_type: binding.input_output_type,
        c_type: binding.c_type,
        sql_type: binding.sql_type,
        column_size: binding.column_size,
        decimal_digits: binding.decimal_digits,
        value: Some(buffer),
        buffer_length: if is_null { 0 } else { indicator },
        indicator: Some(indicator),
        octet_length: Some(indicator),
    };
    bound_param_to_rpc(name, &collected, double)
}

/// The number text of a bound parameter that is converted from text to an
/// integer, and whose double its conversion therefore takes.
pub open spec fn number_text_of(param: BoundParam) -> Option<Seq<char>> {
    match param_buffer::indicator_of(param) {
        Ok(Indicator::Length(length)) => match param_buffer::param_value_of(param, length) {
            Ok(AppValueView::NarrowText(b)) if family_of(param.sql_type) == Some(
                SqlFamily::Integer,
            ) => Some(numeric::number_text(decoded((b, EncodingType::Utf8)))),
            Ok(AppValueView::WideText(b)) if family_of(param.sql_type) == Some(
                SqlFamily::Integer,
            ) => Some(numeric::number_text(decoded((b, EncodingType::Utf16)))),
            _ => None,
        },
        _ => None,
    }
}

/// The number text of a bound parameter, for the one conversion that takes the
/// double it parses to.
pub fn param_number_text(param: &BoundParam) -> (text: Option<Vec<char>>)
    requires
        binding_readable(*param),
    ensures
        match number_text_of(*param) {
            Some(t) => text is Some && text->Some_0@ == t,
            None => text is None,
        },
{
    let length: isize = match read_indicator(param) {
        Ok(Indicator::Length(length)) => length,
        _ => {
            return None;
        },
    };
    match sql_family(param.sql_type) {
        Some(SqlFamily::Integer) => {},
        _ => {
            return None;
        },
    }
    let text: AppText = match read_param_value(param, length) {
        Ok(AppValue::NarrowText(bytes)) => AppText::Utf8(bytes),
        Ok(AppValue::WideText(bytes)) => AppText::Utf16(bytes),
        _ => {
            return None;
        },
    };
    let decoded_text: Vec<char> = text.decode();
    Some(number_chars_of(decoded_text.as_slice()))
}

/// Only text converted to an integer depends on a double.
pub proof fn other_conversions_ignore_the_double(
    param: BoundParam,
    double: Option<u64>,
    other: Option<u64>,
)
    requires
        number_text_of(param) is None,
    ensures
        bound_value_of(param, double) == bound_value_of(param, other),
{
}

/// The digits of a number denote that number.
pub proof fn formatted_digits_denote_the_number(n: int)
    requires
        n >= 0,
    ensures
        chars::all_digits(ascii_chars(decimal_digits_of(n))),
        chars::decimal_value(ascii_chars(decimal_digits_of(n))) == n,
        decimal_digits_of(n).len() > 0,
    decreases n,
{
    let digits = decimal_digits_of(n);
    let text = ascii_chars(digits);
    if n < 10 {
        assert(text.drop_last() =~= Seq::<char>::empty());
        assert(chars::decimal_value(text.drop_last()) == 0);
        assert(text.last() == (48 + n) as u8 as char);
    } else {
        formatted_digits_denote_the_number(n / 10);
        assert(text.drop_last() =~= ascii_chars(decimal_digits_of(n / 10)));
        assert(text.last() == (48 + n % 10) as u8 as char);
    }
    assert forall|k: int| 0 <= k < text.len() implies chars::spec_is_digit(#[trigger] text[k]) by {
        if k < text.len() - 1 {
            assert(text.drop_last()[k] == text[k]);
        }
    }
}

/// ASCII bytes as characters.
pub open spec fn ascii_chars(bytes: Seq<u8>) -> Seq<char> {
    Seq::new(bytes.len(), |k: int| bytes[k] as char)
}

/// A text as a narrow buffer holds it.
pub open spec fn narrow_text(text: Seq<char>) -> TextView {
    (vstd::utf8::encode_utf8(text), EncodingType::Utf8)
}

/// A text as a wide buffer holds it.
pub open spec fn wide_text(text: Seq<char>) -> TextView {
    (unicode::le_bytes(unicode::utf16_of(text)), EncodingType::Utf16)
}

/// Whether the last `n` characters are blanks.
pub open spec fn ends_in_blanks(text: Seq<char>, n: int) -> bool {
    n <= text.len() && forall|k: int| text.len() - n <= k < text.len() ==> #[trigger] text[k] == ' '
}

/// One more blank at the end.
proof fn lemma_ends_in_blanks(text: Seq<char>, n: int)
    requires
        0 < n,
        text.len() > 0,
    ensures
        ends_in_blanks(text, n) <==> text.last() == ' ' && ends_in_blanks(text.drop_last(), n - 1),
        ends_in_blanks(text, n) ==> text.drop_last().take(text.len() - n) == text.take(
            text.len() - n,
        ),
{
    if text.last() == ' ' && ends_in_blanks(text.drop_last(), n - 1) {
        assert forall|k: int| text.len() - n <= k < text.len() implies #[trigger] text[k] == ' ' by {
            if k < text.len() - 1 {
                assert(text.drop_last()[k] == text[k]);
            }
        }
    }
    if ends_in_blanks(text, n) {
        assert(text.drop_last().take(text.len() - n) =~= text.take(text.len() - n));
    }
}

/// No character but a blank ends in the byte, or the unit, of one.
proof fn lemma_only_a_blank_ends_as_one(c: char)
    ensures
        c != ' ' ==> vstd::utf8::encode_utf8(seq![c]).last() != 32u8,
        c != ' ' ==> unicode::utf16_of_char(c).last() != 32u16,
{
    let last = vstd::utf8::encode_utf8(seq![c]);
    unicode::lemma_char_bytes(c);
    vstd::utf8::char_is_scalar(c);
    assert(last.len() > 1 ==> vstd::utf8::is_continuation_byte(last[last.len() - 1]));
}

/// Blanks at the end of a narrow text are blanks of the text.
proof fn lemma_narrow_blanks(text: Seq<char>, n: int)
    requires
        0 <= n <= narrow_text(text).0.len(),
    ensures
        ({
            let bytes = narrow_text(text).0;
            let keep = bytes.len() - n;
            &&& all_blanks(bytes.skip(keep), EncodingType::Utf8) <==> ends_in_blanks(text, n)
            &&& ends_in_blanks(text, n) ==> bytes.take(keep) == narrow_text(
                text.take(text.len() - n),
            ).0
        }),
    decreases n,
{
    let bytes = narrow_text(text).0;
    let keep = bytes.len() - n;
    let tail = bytes.skip(keep);
    if n == 0 {
        assert(bytes.take(keep) =~= bytes);
        assert(text.take(text.len() as int) =~= text);
    } else {
        assert(text.len() > 0);
        let front = text.drop_last();
        let c = text.last();
        let last = vstd::utf8::encode_utf8(seq![c]);
        let before = narrow_text(front).0;
        assert(text =~= front + seq![c]);
        unicode::lemma_encode_utf8_adds(front, seq![c]);
        unicode::lemma_char_bytes(c);
        lemma_ends_in_blanks(text, n);
        assert(tail[n - 1] == last.last());
        if c == ' ' {
            lemma_narrow_blanks(front, n - 1);
            assert(before.skip(keep) =~= tail.drop_last());
            assert(before.take(keep) =~= bytes.take(keep));
            if all_blanks(before.skip(keep), EncodingType::Utf8) {
                assert forall|k: int| 0 <= k < tail.len() implies #[trigger] tail[k] == 32u8 by {
                    if k < n - 1 {
                        assert(tail.drop_last()[k] == tail[k]);
                    }
                }
            }
            if all_blanks(tail, EncodingType::Utf8) {
                assert forall|k: int| 0 <= k < n - 1 implies #[trigger] tail.drop_last()[k] == 32u8 by {
                    assert(tail[k] == 32u8);
                }
            }
        } else {
            lemma_only_a_blank_ends_as_one(c);
        }
    }
}

/// Blanks at the end of a wide text are blanks of the text.
proof fn lemma_wide_blanks(text: Seq<char>, n: int)
    requires
        0 <= n <= unicode::utf16_of(text).len(),
    ensures
        ({
            let bytes = wide_text(text).0;
            let keep = bytes.len() - 2 * n;
            &&& all_blanks(bytes.skip(keep), EncodingType::Utf16) <==> ends_in_blanks(text, n)
            &&& ends_in_blanks(text, n) ==> bytes.take(keep) == wide_text(
                text.take(text.len() - n),
            ).0
        }),
    decreases n,
{
    let bytes = wide_text(text).0;
    let keep = bytes.len() - 2 * n;
    let tail = bytes.skip(keep);
    if n == 0 {
        assert(bytes.take(keep) =~= bytes);
        assert(text.take(text.len() as int) =~= text);
    } else {
        assert(text.len() > 0);
        let front = text.drop_last();
        let c = text.last();
        let units = unicode::utf16_of_char(c);
        let last = unicode::le_bytes(units);
        let before = wide_text(front).0;
        assert(text =~= front + seq![c]);
        unicode::lemma_utf16_of_adds(front, seq![c]);
        unicode::lemma_char_bytes(c);
        unicode::lemma_le_bytes_adds(unicode::utf16_of(front), units);
        lemma_ends_in_blanks(text, n);
        lemma_last_bytes(units);
        assert(tail[2 * n - 2] == last[last.len() - 2]);
        assert(tail[2 * n - 1] == last[last.len() - 1]);
        assert((2 * n - 2) % 2 == 0 && (2 * n - 1) % 2 == 1);
        if c == ' ' {
            lemma_wide_blanks(front, n - 1);
            assert(before.skip(keep) =~= tail.take(2 * n - 2));
            assert(before.take(keep) =~= bytes.take(keep));
            lemma_one_more_wide_blank(tail);
        } else {
            lemma_only_a_blank_ends_as_one(c);
        }
    }
}

/// The last unit stands in the last two bytes.
proof fn lemma_last_bytes(units: Seq<u16>)
    requires
        units.len() > 0,
    ensures
        ({
            let bytes = unicode::le_bytes(units);
            let n = bytes.len();
            &&& n == 2 * units.len()
            &&& bytes[n - 2] == 32u8 && bytes[n - 1] == 0u8 <==> units.last() == 32u16
        }),
{
    let bytes = unicode::le_bytes(units);
    let m = units.len() as int;
    let u = units[m - 1];
    assert((2 * m - 2) % 2 == 0 && (2 * m - 2) / 2 == m - 1);
    assert((2 * m - 1) % 2 == 1 && (2 * m - 1) / 2 == m - 1);
    assert(bytes[2 * m - 2] == (u % 256) as u8);
    assert(bytes[2 * m - 1] == (u / 256) as u8);
    assert((u % 256) + 256 * (u / 256) == u);
}

/// Wide blanks, with one more behind them.
proof fn lemma_one_more_wide_blank(bytes: Seq<u8>)
    requires
        bytes.len() >= 2,
        bytes.len() % 2 == 0,
        bytes[bytes.len() - 2] == 32u8,
        bytes[bytes.len() - 1] == 0u8,
    ensures
        all_blanks(bytes, EncodingType::Utf16) <==> all_blanks(
            bytes.take(bytes.len() - 2),
            EncodingType::Utf16,
        ),
{
    let front = bytes.take(bytes.len() - 2);
    if all_blanks(front, EncodingType::Utf16) {
        assert forall|k: int| 0 <= k < bytes.len() implies #[trigger] bytes[k] == (if k % 2 == 1 {
            0u8
        } else {
            32u8
        }) by {
            if k < bytes.len() - 2 {
                assert(front[k] == bytes[k]);
            }
        }
    }
    if all_blanks(bytes, EncodingType::Utf16) {
        assert forall|k: int| 0 <= k < front.len() implies #[trigger] front[k] == (if k % 2 == 1 {
            0u8
        } else {
            32u8
        }) by {
            assert(front[k] == bytes[k]);
        }
    }
}

/// Narrow and wide buffers that hold the same text are measured and read alike.
pub proof fn lemma_buffers_hold_the_text(text: Seq<char>)
    ensures
        decoded(narrow_text(text)) == text,
        decoded(wide_text(text)) == text,
        units_in(narrow_text(text)) == unicode::utf16_of(text).len(),
        units_in(wide_text(text)) == unicode::utf16_of(text).len(),
        unicode::utf16_of(text).len() <= narrow_text(text).0.len(),
        vstd::utf8::valid_utf8(narrow_text(text).0),
    decreases text.len(),
{
    vstd::utf8::encode_utf8_valid_utf8(text);
    vstd::utf8::encode_utf8_decode_utf8(text);
    unicode::valid_utf8_is_its_text(narrow_text(text).0);
    unicode::le_bytes_round_trip(unicode::utf16_of(text));
    unicode::utf16_round_trips(text);
    if text.len() > 0 {
        let front = text.drop_last();
        let c = text.last();
        lemma_buffers_hold_the_text(front);
        assert(text =~= front + seq![c]);
        unicode::lemma_char_bytes(c);
        unicode::lemma_encode_utf8_adds(front, seq![c]);
        unicode::lemma_utf16_of_adds(front, seq![c]);
    }
}

/// A text becomes the same value whether its buffer is narrow or wide: the same
/// character value, with the same overflow dropped or refused, and the same
/// integer.
pub proof fn narrow_and_wide_texts_convert_alike(
    sql_type: i16,
    column_size: usize,
    text: Seq<char>,
    double: Option<u64>,
)
    ensures
        character_of(sql_type, column_size, narrow_text(text)) == character_of(
            sql_type,
            column_size,
            wide_text(text),
        ),
        integer_from_text_of(sql_type, narrow_text(text), double) == integer_from_text_of(
            sql_type,
            wide_text(text),
            double,
        ),
        units_in(narrow_text(text)) == units_in(wide_text(text)),
{
    lemma_buffers_hold_the_text(text);
    if let Ok((_, Some(limit))) = character_limits(sql_type, column_size) {
        let overflow = unicode::utf16_of(text).len() - limit;
        if overflow > 0 {
            lemma_narrow_blanks(text, overflow);
            lemma_wide_blanks(text, overflow);
            if ends_in_blanks(text, overflow) {
                lemma_buffers_hold_the_text(text.take(text.len() - overflow));
            }
        }
    }
}

/// A typed NULL never depends on the application's value buffer.
pub proof fn nulls_do_not_read_the_buffer(
    param: BoundParam,
    value: Option<Vec<u8>>,
    double: Option<u64>,
)
    requires
        param.indicator == Some(SQL_NULL_DATA),
    ensures
        bound_value_of(param, double) == bound_value_of((BoundParam { value, ..param }), double),
{
}

/// The integer that a value sends, where it sends one.
pub open spec fn sent_integer(value: SqlTypeView) -> Option<int> {
    match value {
        SqlTypeView::TinyInt(Some(v)) => Some(v as int),
        SqlTypeView::SmallInt(Some(v)) => Some(v as int),
        SqlTypeView::Int(Some(v)) => Some(v as int),
        SqlTypeView::BigInt(Some(v)) => Some(v as int),
        _ => None,
    }
}

/// The text that a value sends, where it sends one.
pub open spec fn sent_text(value: SqlTypeView) -> Option<Seq<char>> {
    match value {
        SqlTypeView::Char(Some(text), _) => Some(decoded(text)),
        SqlTypeView::Varchar(Some(text), _) => Some(decoded(text)),
        SqlTypeView::VarcharMax(Some(text)) => Some(decoded(text)),
        SqlTypeView::NChar(Some(text), _) => Some(decoded(text)),
        SqlTypeView::NVarchar(Some(text), _) => Some(decoded(text)),
        SqlTypeView::NVarcharMax(Some(text)) => Some(decoded(text)),
        _ => None,
    }
}

/// The encoding that a value's text is sent in.
pub open spec fn sent_encoding(value: SqlTypeView) -> Option<EncodingType> {
    match value {
        SqlTypeView::Char(Some(text), _) => Some(text.1),
        SqlTypeView::Varchar(Some(text), _) => Some(text.1),
        SqlTypeView::VarcharMax(Some(text)) => Some(text.1),
        SqlTypeView::NChar(Some(text), _) => Some(text.1),
        SqlTypeView::NVarchar(Some(text), _) => Some(text.1),
        SqlTypeView::NVarcharMax(Some(text)) => Some(text.1),
        _ => None,
    }
}

/// The bytes that a binary value sends.
pub open spec fn sent_bytes(value: SqlTypeView) -> Option<Seq<u8>> {
    match value {
        SqlTypeView::Binary(Some(bytes), _) => Some(bytes),
        SqlTypeView::VarBinary(Some(bytes), _) => Some(bytes),
        SqlTypeView::VarBinaryMax(Some(bytes)) => Some(bytes),
        _ => None,
    }
}

/// The length that a value is declared with, where it is declared with one.
pub open spec fn declared_length(value: SqlTypeView) -> Option<int> {
    match value {
        SqlTypeView::Char(_, n) => Some(n as int),
        SqlTypeView::Varchar(_, n) => Some(n as int),
        SqlTypeView::NChar(_, n) => Some(n as int),
        SqlTypeView::NVarchar(_, n) => Some(n as int),
        SqlTypeView::Binary(_, n) => Some(n as int),
        SqlTypeView::VarBinary(_, n) => Some(n as int),
        _ => None,
    }
}

/// Whether an integer is in the range of an integer type of the server.
pub open spec fn in_integer_range(sql_type: i16, v: int) -> bool {
    ||| sql_type == SQL_TINYINT && 0 <= v < 256
    ||| sql_type == SQL_SMALLINT && -32_768 <= v < 32_768
    ||| sql_type == SQL_INTEGER && -2_147_483_648 <= v < 2_147_483_648
    ||| sql_type == SQL_BIGINT && -9_223_372_036_854_775_808 <= v < 9_223_372_036_854_775_808
}

/// An integer is sent as itself, in the type that was asked for; and it is sent
/// exactly where it lies in the range of that type.
pub proof fn integers_are_sent_as_given(sql_type: i16, v: int)
    requires
        sql_type == SQL_TINYINT || sql_type == SQL_SMALLINT || sql_type == SQL_INTEGER || sql_type
            == SQL_BIGINT,
    ensures
        integer_value_of(sql_type, v) is Ok <==> in_integer_range(sql_type, v),
        integer_value_of(sql_type, v) matches Ok(value) ==> {
            &&& sent_integer(value) == Some(v)
            &&& value is TinyInt <==> sql_type == SQL_TINYINT
            &&& value is SmallInt <==> sql_type == SQL_SMALLINT
            &&& value is Int <==> sql_type == SQL_INTEGER
            &&& value is BigInt <==> sql_type == SQL_BIGINT
        },
        integer_value_of(sql_type, v) matches Err(error) ==> error == ParamBuildError::Value(
            ConvError::OutOfRange,
        ),
{
}

/// The UTF-16 units that a character type has room for: nothing for the types
/// without a limit. The types of fixed length refuse a length that they cannot
/// have.
pub open spec fn character_room(sql_type: i16, column_size: usize) -> Option<int> {
    if sql_type == SQL_CHAR || sql_type == SQL_WCHAR {
        Some(column_size as int)
    } else if sql_type == SQL_VARCHAR {
        if 1 <= column_size <= 8000 {
            Some(column_size as int)
        } else {
            None
        }
    } else if sql_type == SQL_WVARCHAR {
        if 1 <= column_size <= 4000 {
            Some(column_size as int)
        } else {
            None
        }
    } else if sql_type == SQL_LONGVARCHAR {
        Some(
            if column_size < 2_147_483_647 {
                column_size as int
            } else {
                2_147_483_647
            },
        )
    } else {
        Some(
            if column_size < 1_073_741_823 {
                column_size as int
            } else {
                1_073_741_823
            },
        )
    }
}

/// Whether a character or binary type can be declared with a length.
pub open spec fn declarable(sql_type: i16, column_size: usize) -> bool {
    &&& sql_type == SQL_CHAR || sql_type == SQL_BINARY ==> 1 <= column_size <= 8000
    &&& sql_type == SQL_WCHAR ==> 1 <= column_size <= 4000
}

/// Putting a text in the encoding of its target keeps the text.
pub proof fn transcoding_keeps_the_text(text: TextView, wide: bool)
    ensures
        decoded(transcoded(text, wide)) == decoded(text),
        transcoded(text, wide).1 == (if wide {
            EncodingType::Utf16
        } else {
            EncodingType::Utf8
        }),
{
    lemma_buffers_hold_the_text(decoded(text));
}

/// A text is sent as it is where it fits, without its last blanks where only
/// they do not fit, and refused otherwise. It is sent in the type that was asked
/// for, declared with the length that was asked for, and in UTF-16 exactly to a
/// wide type.
pub proof fn texts_are_sent_as_given(sql_type: i16, column_size: usize, text: Seq<char>)
    requires
        sql_type == SQL_CHAR || sql_type == SQL_VARCHAR || sql_type == SQL_LONGVARCHAR || sql_type
            == SQL_WCHAR || sql_type == SQL_WVARCHAR || sql_type == SQL_WLONGVARCHAR,
    ensures
        ({
            let result = character_of(sql_type, column_size, narrow_text(text));
            let room = character_room(sql_type, column_size);
            let over = unicode::utf16_of(text).len() - room->Some_0;
            if !declarable(sql_type, column_size) {
                result == Err::<SqlTypeView, ParamBuildError>(
                    ParamBuildError::InvalidParameterSize(column_size),
                )
            } else if room is Some && over > 0 && !ends_in_blanks(text, over) {
                result == Err::<SqlTypeView, ParamBuildError>(ParamBuildError::StringTruncation)
            } else {
                &&& result matches Ok(value)
                &&& sent_text(value) == Some(
                    if room is Some && over > 0 {
                        text.take(text.len() - over)
                    } else {
                        text
                    },
                )
                &&& sent_encoding(value) == Some(
                    if sql_type == SQL_WCHAR || sql_type == SQL_WVARCHAR || sql_type
                        == SQL_WLONGVARCHAR {
                        EncodingType::Utf16
                    } else {
                        EncodingType::Utf8
                    },
                )
                &&& declared_length(value) == (if sql_type == SQL_LONGVARCHAR || sql_type
                    == SQL_WLONGVARCHAR {
                    None
                } else {
                    room
                })
                &&& value is Char <==> sql_type == SQL_CHAR
                &&& value is NChar <==> sql_type == SQL_WCHAR
                &&& value is Varchar <==> sql_type == SQL_VARCHAR && room is Some
                &&& value is NVarchar <==> sql_type == SQL_WVARCHAR && room is Some
            }
        }),
{
    lemma_buffers_hold_the_text(text);
    let wide = is_wide(sql_type);
    transcoding_keeps_the_text(narrow_text(text), wide);
    if let Ok((_, Some(limit))) = character_limits(sql_type, column_size) {
        let over = unicode::utf16_of(text).len() - limit;
        if over > 0 {
            lemma_narrow_blanks(text, over);
            if ends_in_blanks(text, over) {
                let kept = text.take(text.len() - over);
                lemma_buffers_hold_the_text(kept);
                transcoding_keeps_the_text(narrow_text(kept), wide);
            }
        }
    }
}

/// The bytes that a binary type has room for; nothing for the type without a
/// limit.
pub open spec fn binary_room(sql_type: i16, column_size: usize) -> Option<int> {
    if sql_type == SQL_BINARY {
        Some(column_size as int)
    } else if sql_type == SQL_VARBINARY {
        if 1 <= column_size <= 8000 {
            Some(column_size as int)
        } else {
            None
        }
    } else {
        Some(
            if column_size < 2_147_483_647 {
                column_size as int
            } else {
                2_147_483_647
            },
        )
    }
}

/// Bytes are sent as they are where they fit, without their last zeros where only
/// they do not fit, and refused otherwise; declared with the length that was
/// asked for.
pub proof fn bytes_are_sent_as_given(sql_type: i16, column_size: usize, bytes: Seq<u8>)
    requires
        sql_type == SQL_BINARY || sql_type == SQL_VARBINARY || sql_type == SQL_LONGVARBINARY,
    ensures
        ({
            let result = binary_of(sql_type, column_size, bytes);
            let room = binary_room(sql_type, column_size);
            if !declarable(sql_type, column_size) {
                result == Err::<SqlTypeView, ParamBuildError>(
                    ParamBuildError::InvalidParameterSize(column_size),
                )
            } else if room is Some && (exists|k: int|
                room->Some_0 <= k < bytes.len() && #[trigger] bytes[k] != 0) {
                result == Err::<SqlTypeView, ParamBuildError>(ParamBuildError::StringTruncation)
            } else {
                &&& result matches Ok(value)
                &&& sent_bytes(value) == Some(
                    if room is Some && bytes.len() > room->Some_0 {
                        bytes.take(room->Some_0)
                    } else {
                        bytes
                    },
                )
                &&& declared_length(value) == (if sql_type == SQL_LONGVARBINARY {
                    None
                } else {
                    room
                })
                &&& value is Binary <==> sql_type == SQL_BINARY
                &&& value is VarBinary <==> sql_type == SQL_VARBINARY && room is Some
            }
        }),
{
    if let Ok((_, Some(limit))) = binary_limits(sql_type, column_size) {
        let tail = bytes.skip(limit as int);
        if bytes.len() > limit {
            if exists|k: int| limit <= k < bytes.len() && #[trigger] bytes[k] != 0 {
                let k = choose|k: int| limit <= k < bytes.len() && #[trigger] bytes[k] != 0;
                assert(tail[k - limit] == bytes[k]);
            } else {
                assert forall|k: int| 0 <= k < tail.len() implies #[trigger] tail[k] == 0 by {
                    assert(tail[k] == bytes[limit + k]);
                }
            }
        }
    }
}

/// ASCII bytes are the text of their characters.
proof fn lemma_ascii_text(bytes: Seq<u8>)
    requires
        forall|k: int| 0 <= k < bytes.len() ==> #[trigger] bytes[k] < 128,
    ensures
        decoded((bytes, EncodingType::Utf8)) == ascii_chars(bytes),
        narrow_text(ascii_chars(bytes)).0 == bytes,
{
    let text = ascii_chars(bytes);
    assert(vstd::utf8::is_ascii_chars(text));
    vstd::utf8::is_ascii_chars_encode_utf8(text);
    assert(vstd::utf8::encode_utf8(text) =~= bytes);
    lemma_buffers_hold_the_text(text);
}

/// The decimal form of an integer is ASCII: a minus below zero, and digits.
proof fn lemma_integer_text(v: int)
    ensures
        forall|k: int| 0 <= k < integer_text(v).len() ==> #[trigger] integer_text(v)[k] < 128,
        ({
            let text = ascii_chars(integer_text(v));
            let digits = numeric::unsigned_text(text);
            &&& numeric::has_minus(text) == (v < 0)
            &&& digits == ascii_chars(decimal_digits_of(if v < 0 { -v } else { v }))
            &&& text == (if v < 0 { seq!['-'] + digits } else { digits })
        }),
{
    let n = if v < 0 {
        -v
    } else {
        v
    };
    let digits = ascii_chars(decimal_digits_of(n));
    let text = ascii_chars(integer_text(v));
    formatted_digits_denote_the_number(n);
    assert forall|k: int| 0 <= k < integer_text(v).len() implies #[trigger] integer_text(v)[k]
        < 128 by {
        let at = if v < 0 {
            k - 1
        } else {
            k
        };
        if at >= 0 {
            assert(chars::spec_is_digit(digits[at]));
            assert(integer_text(v)[k] == decimal_digits_of(n)[at]);
        }
    }
    assert(chars::spec_is_digit(digits[0]));
    if v < 0 {
        assert(text =~= seq!['-'] + digits);
        assert(text.skip(1) =~= digits);
    } else {
        assert(text =~= digits);
    }
}

/// The decimal form of an integer denotes it: a minus below zero, and the digits
/// of its magnitude.
pub proof fn the_decimal_form_denotes_the_integer(v: int)
    ensures
        ({
            let text = decoded((integer_text(v), EncodingType::Utf8));
            let digits = if v < 0 {
                text.skip(1)
            } else {
                text
            };
            &&& v < 0 ==> text.len() > 0 && text[0] == '-'
            &&& digits.len() > 0
            &&& chars::all_digits(digits)
            &&& chars::decimal_value(digits) == (if v < 0 {
                -v
            } else {
                v
            })
            &&& digits.len() > 1 ==> digits[0] != '0'
        }),
{
    lemma_integer_text(v);
    lemma_ascii_text(integer_text(v));
    let n = if v < 0 {
        -v
    } else {
        v
    };
    formatted_digits_denote_the_number(n);
    lemma_no_leading_zero(n);
    if v < 0 {
        let text = ascii_chars(integer_text(v));
        assert(text.skip(1) =~= ascii_chars(decimal_digits_of(n)));
    }
}

/// The digits of a number do not start with a zero, but for zero itself.
proof fn lemma_no_leading_zero(n: int)
    requires
        n >= 0,
    ensures
        n > 0 ==> decimal_digits_of(n)[0] != 48u8,
        decimal_digits_of(n).len() >= 1,
        n < 10 ==> decimal_digits_of(n).len() == 1,
    decreases n,
{
    if n >= 10 {
        lemma_no_leading_zero(n / 10);
    }
}

/// The decimal form of an integer converts as the integer itself does, whether
/// the text is narrow or wide and whatever double it parses to.
pub proof fn integer_texts_convert_as_their_integers(sql_type: i16, v: int, double: Option<u64>)
    requires
        -0x7fff_ffff_ffff_ffff_ffff_ffff_ffff_ffff <= v
            <= 0x7fff_ffff_ffff_ffff_ffff_ffff_ffff_ffff,
    ensures
        integer_from_text_of(sql_type, (integer_text(v), EncodingType::Utf8), double)
            == integer_value_of(sql_type, v),
        integer_from_text_of(
            sql_type,
            wide_text(decoded((integer_text(v), EncodingType::Utf8))),
            double,
        ) == integer_value_of(sql_type, v),
{
    let n = if v < 0 {
        -v
    } else {
        v
    };
    let text = ascii_chars(integer_text(v));
    let digits = ascii_chars(decimal_digits_of(n));
    let sign = if v < 0 {
        seq!['-']
    } else {
        Seq::empty()
    };
    let none = Seq::<char>::empty();
    lemma_integer_text(v);
    lemma_ascii_text(integer_text(v));
    formatted_digits_denote_the_number(n);
    assert(numeric::spelled(sign, digits, false, none) =~= text);
    assert(n * 1 == n);
    assert(chars::pow10(0) == 1);
    assert(chars::decimal_value(none) == 0);
    numeric::a_plain_decimal_is_the_number_it_spells(sign, digits, false, none, double);
    lemma_buffers_hold_the_text(text);
    assert(seq!['-'] != none) by {
        assert(seq!['-'].len() == 1);
    }
}

/// A decimal number in a text converts to an integer type as its integer part
/// does; a fraction that is not zero is refused rather than dropped, unless the
/// integer part is out of range already.
pub proof fn decimal_texts_convert_as_their_integer_part(
    sql_type: i16,
    sign: Seq<char>,
    whole: Seq<char>,
    point: bool,
    fraction: Seq<char>,
    double: Option<u64>,
)
    requires
        numeric::spells_a_decimal(sign, whole, point, fraction),
        chars::decimal_value(whole) <= i128::MAX,
        point && double is Some || chars::decimal_value(whole) * chars::pow10(
            fraction.len() as int,
        ) + chars::decimal_value(fraction) <= i128::MAX,
    ensures
        ({
            let n = chars::decimal_value(whole);
            let v = if sign == seq!['-'] {
                -n
            } else {
                n
            };
            let text = numeric::spelled(sign, whole, point, fraction);
            let result = integer_from_text_of(sql_type, narrow_text(text), double);
            let as_integer = integer_value_of(sql_type, v);
            if as_integer is Ok && (exists|k: int|
                0 <= k < fraction.len() && #[trigger] fraction[k] != '0') {
                result == Err::<SqlTypeView, ParamBuildError>(ParamBuildError::StringTruncation)
            } else {
                result == as_integer
            }
        }),
{
    let text = numeric::spelled(sign, whole, point, fraction);
    numeric::a_plain_decimal_is_the_number_it_spells(sign, whole, point, fraction, double);
    lemma_buffers_hold_the_text(text);
}

/// Whether a refusal is about the pair of types rather than about the value.
pub open spec fn refuses_the_types(error: ParamBuildError) -> bool {
    ||| error is UnsupportedCType
    ||| error is UnsupportedSqlType
    ||| error is ConversionNotImplemented
}

/// A pair of types is said to be supported exactly where a value of the one
/// converts to the other, or is refused for what it is.
pub proof fn supported_pairs_are_those_that_convert(
    c_type: i16,
    sql_type: i16,
    column_size: usize,
    text: Seq<u8>,
    v: int,
    double: Option<u64>,
)
    ensures
        c_type == SQL_C_CHAR ==> (conversion_supported(c_type, sql_type) <==> !(converted(
            c_type,
            sql_type,
            column_size,
            AppValueView::NarrowText(text),
            double,
        ) matches Err(error) && refuses_the_types(error))),
        c_type == SQL_C_WCHAR ==> (conversion_supported(c_type, sql_type) <==> !(converted(
            c_type,
            sql_type,
            column_size,
            AppValueView::WideText(text),
            double,
        ) matches Err(error) && refuses_the_types(error))),
        c_type == SQL_C_BINARY ==> (conversion_supported(c_type, sql_type) <==> !(converted(
            c_type,
            sql_type,
            column_size,
            AppValueView::Binary(text),
            double,
        ) matches Err(error) && refuses_the_types(error))),
        param_buffer::room_for(c_type, v) is Some ==> (conversion_supported(c_type, sql_type)
            <==> !(converted(
            c_type,
            sql_type,
            column_size,
            AppValueView::Integer(v),
            double,
        ) matches Err(error) && refuses_the_types(error))),
        conversion_supported(c_type, sql_type) ==> (c_type == SQL_C_CHAR || c_type == SQL_C_WCHAR
            || c_type == SQL_C_BINARY || param_buffer::room_for(c_type, 0) is Some),
{
    lemma_texts_refuse_no_types(sql_type, column_size, (text, EncodingType::Utf8), double);
    lemma_texts_refuse_no_types(sql_type, column_size, (text, EncodingType::Utf16), double);
    lemma_texts_refuse_no_types(
        sql_type,
        column_size,
        (integer_text(v), EncodingType::Utf8),
        double,
    );
}

/// What a conversion of a text refuses is never the pair of types.
proof fn lemma_texts_refuse_no_types(
    sql_type: i16,
    column_size: usize,
    text: TextView,
    double: Option<u64>,
)
    ensures
        family_of(sql_type) == Some(SqlFamily::Character) ==> !(character_of(
            sql_type,
            column_size,
            text,
        ) matches Err(error) && refuses_the_types(error)),
        family_of(sql_type) == Some(SqlFamily::Integer) ==> !(integer_from_text_of(
            sql_type,
            text,
            double,
        ) matches Err(error) && refuses_the_types(error)),
{
}

/// Which families values convert to: integers and texts to integers and texts,
/// and bytes to bytes.
pub proof fn bytes_convert_to_bytes_and_the_others_to_each_other(c_type: i16, sql_type: i16)
    ensures
        conversion_supported(c_type, sql_type) <==> {
            let of_text = c_type == SQL_C_CHAR || c_type == SQL_C_WCHAR;
            let of_integer = param_buffer::room_for(c_type, 0) is Some;
            let to_text = sql_type == SQL_CHAR || sql_type == SQL_VARCHAR || sql_type
                == SQL_LONGVARCHAR || sql_type == SQL_WCHAR || sql_type == SQL_WVARCHAR || sql_type
                == SQL_WLONGVARCHAR;
            let to_integer = sql_type == SQL_TINYINT || sql_type == SQL_SMALLINT || sql_type
                == SQL_INTEGER || sql_type == SQL_BIGINT;
            let to_bytes = sql_type == SQL_BINARY || sql_type == SQL_VARBINARY || sql_type
                == SQL_LONGVARBINARY;
            ||| (of_text || of_integer) && (to_text || to_integer)
            ||| c_type == SQL_C_BINARY && to_bytes
        },
{
}

/// Whether two values are of one type of the server, declared alike.
pub open spec fn declared_alike(a: SqlTypeView, b: SqlTypeView) -> bool {
    match (a, b) {
        (SqlTypeView::TinyInt(_), SqlTypeView::TinyInt(_)) => true,
        (SqlTypeView::SmallInt(_), SqlTypeView::SmallInt(_)) => true,
        (SqlTypeView::Int(_), SqlTypeView::Int(_)) => true,
        (SqlTypeView::BigInt(_), SqlTypeView::BigInt(_)) => true,
        (SqlTypeView::Char(_, n), SqlTypeView::Char(_, m)) => n == m,
        (SqlTypeView::Varchar(_, n), SqlTypeView::Varchar(_, m)) => n == m,
        (SqlTypeView::VarcharMax(_), SqlTypeView::VarcharMax(_)) => true,
        (SqlTypeView::NChar(_, n), SqlTypeView::NChar(_, m)) => n == m,
        (SqlTypeView::NVarchar(_, n), SqlTypeView::NVarchar(_, m)) => n == m,
        (SqlTypeView::NVarcharMax(_), SqlTypeView::NVarcharMax(_)) => true,
        (SqlTypeView::Binary(_, n), SqlTypeView::Binary(_, m)) => n == m,
        (SqlTypeView::VarBinary(_, n), SqlTypeView::VarBinary(_, m)) => n == m,
        (SqlTypeView::VarBinaryMax(_), SqlTypeView::VarBinaryMax(_)) => true,
        _ => false,
    }
}

/// A NULL is declared as a value of its type is, and without a value.
pub proof fn nulls_are_declared_as_values(
    c_type: i16,
    sql_type: i16,
    column_size: usize,
    decimal_digits: i16,
    value: AppValueView,
    double: Option<u64>,
)
    ensures
        converted(c_type, sql_type, column_size, value, double) matches Ok(sent) ==> {
            &&& typed_null_of(sql_type, column_size, decimal_digits) matches Ok((null, metadata))
            &&& declared_alike(null, sent)
            &&& metadata is None
            &&& sent_integer(null) is None && sent_text(null) is None && sent_bytes(null) is None
        },
{
}

/// A NULL is of the type that was asked for, and declared with what was asked
/// for: a length as the column size, a precision as the column size with the
/// decimal digits as its scale, a scale of a time as the decimal digits, and the
/// dimensions of a vector as the column size has room for behind a header.
pub proof fn nulls_are_declared_as_asked(sql_type: i16, column_size: usize, decimal_digits: i16)
    ensures
        ({
            let result = typed_null_of(sql_type, column_size, decimal_digits);
            let plain = |view: SqlTypeView| result == Ok::<
                (SqlTypeView, Option<RpcTypeMetadata>),
                ParamBuildError,
            >((view, None));
            let of_time = |view: SqlTypeView| if 0 <= decimal_digits <= 7 {
                &&& result is Ok
                &&& result->Ok_0.0 == view
                &&& result->Ok_0.1 matches Some(metadata)
                &&& metadata.precision is None
                &&& metadata.scale == Some(decimal_digits as u8)
            } else {
                result == Err::<(SqlTypeView, Option<RpcTypeMetadata>), ParamBuildError>(
                    ParamBuildError::InvalidDecimalDigits(decimal_digits),
                )
            };
            let of_digits = |view: SqlTypeView| if !(1 <= column_size <= 38) {
                result == Err::<(SqlTypeView, Option<RpcTypeMetadata>), ParamBuildError>(
                    ParamBuildError::InvalidParameterSize(column_size),
                )
            } else if !(0 <= decimal_digits <= column_size) {
                result == Err::<(SqlTypeView, Option<RpcTypeMetadata>), ParamBuildError>(
                    ParamBuildError::InvalidDecimalDigits(decimal_digits),
                )
            } else {
                &&& result is Ok
                &&& result->Ok_0.0 == view
                &&& result->Ok_0.1 matches Some(metadata)
                &&& metadata.precision == Some(column_size as u8)
                &&& metadata.scale == Some(decimal_digits as u8)
            };
            &&& sql_type == SQL_BIT ==> plain(SqlTypeView::Bit)
            &&& sql_type == SQL_REAL ==> plain(SqlTypeView::Real)
            &&& sql_type == SQL_FLOAT || sql_type == SQL_DOUBLE ==> plain(SqlTypeView::Float)
            &&& sql_type == SQL_GUID ==> plain(SqlTypeView::Uuid)
            &&& sql_type == SQL_TYPE_DATE ==> plain(SqlTypeView::Date)
            &&& sql_type == SQL_SS_XML ==> plain(SqlTypeView::Xml)
            &&& sql_type == SQL_SS_VARIANT ==> plain(SqlTypeView::Variant)
            &&& sql_type == SQL_TINYINT ==> plain(SqlTypeView::TinyInt(None))
            &&& sql_type == SQL_SMALLINT ==> plain(SqlTypeView::SmallInt(None))
            &&& sql_type == SQL_INTEGER ==> plain(SqlTypeView::Int(None))
            &&& sql_type == SQL_BIGINT ==> plain(SqlTypeView::BigInt(None))
            &&& sql_type == SQL_TYPE_TIME || sql_type == SQL_SS_TIME2 ==> of_time(SqlTypeView::Time)
            &&& sql_type == SQL_TYPE_TIMESTAMP ==> of_time(SqlTypeView::DateTime2)
            &&& sql_type == SQL_SS_TIMESTAMPOFFSET ==> of_time(SqlTypeView::DateTimeOffset)
            &&& sql_type == SQL_DECIMAL ==> of_digits(SqlTypeView::Decimal)
            &&& sql_type == SQL_NUMERIC ==> of_digits(SqlTypeView::Numeric)
            &&& sql_type == SQL_CHAR && 1 <= column_size <= 8000 ==> plain(
                SqlTypeView::Char(None, column_size as u16),
            )
            &&& sql_type == SQL_WCHAR && 1 <= column_size <= 4000 ==> plain(
                SqlTypeView::NChar(None, column_size as u16),
            )
            &&& sql_type == SQL_BINARY && 1 <= column_size <= 8000 ==> plain(
                SqlTypeView::Binary(None, column_size as u16),
            )
            &&& sql_type == SQL_VARCHAR ==> plain(
                if 1 <= column_size <= 8000 {
                    SqlTypeView::Varchar(None, column_size as u16)
                } else {
                    SqlTypeView::VarcharMax(None)
                },
            )
            &&& sql_type == SQL_WVARCHAR ==> plain(
                if 1 <= column_size <= 4000 {
                    SqlTypeView::NVarchar(None, column_size as u16)
                } else {
                    SqlTypeView::NVarcharMax(None)
                },
            )
            &&& sql_type == SQL_VARBINARY ==> plain(
                if 1 <= column_size <= 8000 {
                    SqlTypeView::VarBinary(None, column_size as u16)
                } else {
                    SqlTypeView::VarBinaryMax(None)
                },
            )
            &&& sql_type == SQL_LONGVARCHAR ==> plain(SqlTypeView::VarcharMax(None))
            &&& sql_type == SQL_WLONGVARCHAR ==> plain(SqlTypeView::NVarcharMax(None))
            &&& sql_type == SQL_LONGVARBINARY ==> plain(SqlTypeView::VarBinaryMax(None))
            &&& !declarable(sql_type, column_size) ==> result == Err::<
                (SqlTypeView, Option<RpcTypeMetadata>),
                ParamBuildError,
            >(ParamBuildError::InvalidParameterSize(column_size))
            &&& sql_type == SQL_SS_VECTOR ==> match result {
                Ok((SqlTypeView::Vector(dimensions, base), metadata)) => {
                    &&& 8 + 4 * dimensions == column_size
                    &&& base is Float32 <==> decimal_digits == 0
                    &&& base is Float16 <==> decimal_digits == 1
                    &&& metadata is None
                },
                Ok(_) => false,
                Err(error) => if 8 <= column_size <= 8 + 4 * 65_535 && column_size % 4 == 0 {
                    error == ParamBuildError::InvalidDecimalDigits(decimal_digits) && !(0
                        <= decimal_digits <= 1)
                } else {
                    error == ParamBuildError::InvalidParameterSize(column_size)
                },
            }
        }),
{
}

/// Whether a binding has a value of its own, as long as its length says where it
/// says one.
pub open spec fn has_a_value(param: BoundParam) -> bool {
    &&& param.value is Some
    &&& param.indicator != Some(-1isize)
    &&& param.octet_length matches Some(length) ==> length >= 0
}

/// An integer in a buffer is sent as itself to an integer type that has room for
/// it and refused by one that has not; and to a character type its decimal form
/// is sent as any text is.
pub proof fn a_bound_integer_is_sent_as_stored(param: BoundParam, v: int, double: Option<u64>)
    requires
        has_a_value(param),
        ({
            let b = param.value->Some_0@;
            if param.c_type == SQL_C_TINYINT && param.sql_type == SQL_TINYINT {
                0 <= v < 256 && param_buffer::holds(b, 0, v, 1)
            } else {
                param_buffer::room_for(param.c_type, v) matches Some(width)
                    && param_buffer::holds(b, 0, v, width)
            }
        }),
    ensures
        ({
            let result = bound_value_of(param, double);
            let to_integer = param.sql_type == SQL_TINYINT || param.sql_type == SQL_SMALLINT
                || param.sql_type == SQL_INTEGER || param.sql_type == SQL_BIGINT;
            let to_text = param.sql_type == SQL_CHAR || param.sql_type == SQL_VARCHAR
                || param.sql_type == SQL_LONGVARCHAR || param.sql_type == SQL_WCHAR
                || param.sql_type == SQL_WVARCHAR || param.sql_type == SQL_WLONGVARCHAR;
            &&& to_integer && in_integer_range(param.sql_type, v) ==> {
                &&& result matches Ok((value, metadata))
                &&& sent_integer(value) == Some(v)
                &&& metadata is None
            }
            &&& to_integer && !in_integer_range(param.sql_type, v) ==> result == Err::<
                (SqlTypeView, Option<RpcTypeMetadata>),
                ParamBuildError,
            >(ParamBuildError::Value(ConvError::OutOfRange))
            &&& to_text ==> match character_of(
                param.sql_type,
                param.column_size,
                narrow_text(decoded((integer_text(v), EncodingType::Utf8))),
            ) {
                Ok(value) => result == Ok::<
                    (SqlTypeView, Option<RpcTypeMetadata>),
                    ParamBuildError,
                >((value, None)),
                Err(error) => result == Err::<
                    (SqlTypeView, Option<RpcTypeMetadata>),
                    ParamBuildError,
                >(error),
            }
        }),
{
    param_buffer::an_indicator_says_null_or_a_length(param);
    let length = match param.octet_length {
        Some(length) => length,
        None => -3isize,
    };
    assert(param_buffer::indicator_of(param) == Ok::<Indicator, ParamBuildError>(
        Indicator::Length(length),
    ));
    param_buffer::a_buffer_is_read_as_its_c_type(param, length, v, 0, 0);
    lemma_integer_text(v);
    lemma_ascii_text(integer_text(v));
    assert(param_buffer::param_value_of(param, length) == Ok::<AppValueView, ParamBuildError>(
        AppValueView::Integer(v),
    ));
}

/// A text in a buffer, narrow or wide, with its length or its terminator, is sent
/// as that text is: what stands behind it is not sent.
pub proof fn a_bound_text_is_sent_as_stored(
    param: BoundParam,
    text: Seq<char>,
    rest: Seq<u8>,
    double: Option<u64>,
)
    requires
        has_a_value(param),
        family_of(param.sql_type) == Some(SqlFamily::Character),
        param.c_type == SQL_C_CHAR || param.c_type == SQL_C_WCHAR,
        param.octet_length is Some,
        ({
            let held = if param.c_type == SQL_C_CHAR {
                narrow_text(text).0
            } else {
                wide_text(text).0
            };
            &&& param.value->Some_0@ == held + rest
            &&& param.octet_length->Some_0 == held.len()
        }),
    ensures
        match character_of(param.sql_type, param.column_size, narrow_text(text)) {
            Ok(value) => bound_value_of(param, double) == Ok::<
                (SqlTypeView, Option<RpcTypeMetadata>),
                ParamBuildError,
            >((value, None)),
            Err(error) => bound_value_of(param, double) == Err::<
                (SqlTypeView, Option<RpcTypeMetadata>),
                ParamBuildError,
            >(error),
        },
{
    let length = param.octet_length->Some_0;
    param_buffer::an_indicator_says_null_or_a_length(param);
    param_buffer::a_buffer_is_read_as_its_c_type(param, length, 0, 0, 0);
    narrow_and_wide_texts_convert_alike(param.sql_type, param.column_size, text, double);
    if param.c_type == SQL_C_CHAR {
        param_buffer::a_text_is_read_up_to_its_end(narrow_text(text).0, rest, length);
    } else {
        let held = wide_text(text).0;
        let none = Seq::<u8>::empty();
        assert(held + none + rest =~= held + rest);
        param_buffer::a_wide_text_is_read_up_to_its_end(held, none, rest, length);
    }
}

/// Bytes in a buffer are sent as they are: as many as the length says.
pub proof fn bound_bytes_are_sent_as_stored(
    param: BoundParam,
    bytes: Seq<u8>,
    rest: Seq<u8>,
    double: Option<u64>,
)
    requires
        has_a_value(param),
        family_of(param.sql_type) == Some(SqlFamily::Binary),
        param.c_type == SQL_C_BINARY,
        param.octet_length == Some(bytes.len() as isize),
        bytes.len() <= isize::MAX,
        param.value->Some_0@ == bytes + rest,
    ensures
        match binary_of(param.sql_type, param.column_size, bytes) {
            Ok(value) => bound_value_of(param, double) == Ok::<
                (SqlTypeView, Option<RpcTypeMetadata>),
                ParamBuildError,
            >((value, None)),
            Err(error) => bound_value_of(param, double) == Err::<
                (SqlTypeView, Option<RpcTypeMetadata>),
                ParamBuildError,
            >(error),
        },
{
    let length = param.octet_length->Some_0;
    param_buffer::an_indicator_says_null_or_a_length(param);
    param_buffer::a_buffer_is_read_as_its_c_type(param, length, 0, 0, 0);
    assert((bytes + rest).take(bytes.len() as int) =~= bytes);
}

/// A NULL is sent as the NULL of its type, whatever its buffer holds.
pub proof fn a_bound_null_is_sent_as_null(param: BoundParam, double: Option<u64>)
    requires
        param.indicator == Some(-1isize),
    ensures
        bound_value_of(param, double) == typed_null_of(
            param.sql_type,
            param.column_size,
            param.decimal_digits,
        ),
{
}

/// A value that was collected at execution converts as one that was in the
/// binding's buffer, as long as what was collected; and a NULL as a NULL.
pub proof fn a_collected_value_converts_as_a_bound_one(
    binding: BoundParam,
    bound: BoundParam,
    buffer: Vec<u8>,
    double: Option<u64>,
)
    requires
        buffer@.len() <= isize::MAX,
        bound.c_type == binding.c_type,
        bound.sql_type == binding.sql_type,
        bound.column_size == binding.column_size,
        bound.decimal_digits == binding.decimal_digits,
        bound.value == Some(buffer),
        bound.octet_length == Some(buffer@.len() as isize),
        bound.indicator != Some(-1isize),
        binding.c_type == SQL_C_CHAR || binding.c_type == SQL_C_WCHAR || binding.c_type
            == SQL_C_BINARY,
    ensures
        bound_value_of(collected_binding(binding, buffer, false), double) == bound_value_of(
            bound,
            double,
        ),
        bound_value_of(collected_binding(binding, buffer, true), double) == typed_null_of(
            binding.sql_type,
            binding.column_size,
            binding.decimal_digits,
        ),
{
    let collected = collected_binding(binding, buffer, false);
    let length = buffer@.len() as isize;
    param_buffer::an_indicator_says_null_or_a_length(collected);
    param_buffer::an_indicator_says_null_or_a_length(bound);
    assert(param_buffer::param_value_of(collected, length) == param_buffer::param_value_of(
        bound,
        length,
    ));
}

} // verus!
