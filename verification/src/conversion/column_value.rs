//! Values of columns as the server sends them.

use vstd::prelude::*;

use super::transcode::SqlCollation;

verus! {

/// A decimal number as it is spelled, with the precision and scale it is read
/// to.
#[derive(Debug, Clone, PartialEq, Eq)]
pub struct DecimalLiteral {
    pub text: Vec<char>,
    pub precision: u8,
    pub scale: u8,
}

/// How the text of a column is encoded.
#[derive(Debug, Clone, Copy, PartialEq, Eq, Structural)]
pub enum ColumnEncoding {
    Utf8,
    Utf16,
    /// The code page of a collation.
    LcidBased(SqlCollation),
}

/// A text in its encoding.
#[derive(Debug, Clone, PartialEq, Eq)]
pub struct ColumnText {
    pub bytes: Vec<u8>,
    pub encoding: ColumnEncoding,
}

/// An amount in ten-thousandths, in two halves.
#[derive(Debug, Clone, Copy, PartialEq, Eq, Structural)]
pub struct SqlMoney {
    pub lsb_part: i32,
    pub msb_part: i32,
}

/// A small amount in ten-thousandths.
#[derive(Debug, Clone, Copy, PartialEq, Eq, Structural)]
pub struct SqlSmallMoney {
    pub int_val: i32,
}

/// The days since the first of January of the year 1.
#[derive(Debug, Clone, Copy, PartialEq, Eq, Structural)]
pub struct SqlDate {
    pub days: u32,
}

/// A time of day.
#[derive(Debug, Clone, Copy, PartialEq, Eq, Structural)]
pub struct SqlTime {
    pub time_nanoseconds: u64,
    pub scale: u8,
}

/// A date and a time of day.
#[derive(Debug, Clone, Copy, PartialEq, Eq, Structural)]
pub struct SqlDateTime2 {
    pub days: u32,
    pub time: SqlTime,
}

/// A date and a time of day with its offset from UTC in minutes.
#[derive(Debug, Clone, Copy, PartialEq, Eq, Structural)]
pub struct SqlDateTimeOffset {
    pub datetime2: SqlDateTime2,
    pub offset: i16,
}

/// The days since 1900 and the 300ths of a second since midnight.
#[derive(Debug, Clone, Copy, PartialEq, Eq, Structural)]
pub struct SqlDateTime {
    pub days: i32,
    pub time: u32,
}

/// The days since 1900 and the minutes since midnight.
#[derive(Debug, Clone, Copy, PartialEq, Eq, Structural)]
pub struct SqlSmallDateTime {
    pub days: u16,
    pub time: u16,
}

/// The type of a value on the wire.
#[derive(Debug, Clone, Copy, PartialEq, Eq, Structural)]
pub struct TdsDataType {
    pub token: u8,
}

/// A value of a column. Floating-point numbers are held by their bits.
#[derive(Debug, Clone, PartialEq, Eq)]
pub enum ColumnValues {
    TinyInt(u8),
    SmallInt(i16),
    Int(i32),
    BigInt(i64),
    Real(u32),
    Float(u64),
    Bit(bool),
    Decimal(DecimalLiteral),
    Numeric(DecimalLiteral),
    Money(SqlMoney),
    SmallMoney(SqlSmallMoney),
    String(ColumnText),
    Date(SqlDate),
    Time(SqlTime),
    DateTime2(SqlDateTime2),
    DateTimeOffset(SqlDateTimeOffset),
    DateTime(SqlDateTime),
    SmallDateTime(SqlSmallDateTime),
    Bytes(Vec<u8>),
    Uuid([u8; 16]),
    Null,
}

/// A decimal number as it is spelled, as a mathematical value.
#[verifier::ext_equal]
pub struct DecimalView {
    pub text: Seq<char>,
    pub precision: u8,
    pub scale: u8,
}

/// A value of a column, as a mathematical value.
#[verifier::ext_equal]
pub enum ColumnView {
    TinyInt(u8),
    SmallInt(i16),
    Int(i32),
    BigInt(i64),
    Real(u32),
    Float(u64),
    Bit(bool),
    Decimal(DecimalView),
    Numeric(DecimalView),
    Money(SqlMoney),
    SmallMoney(SqlSmallMoney),
    String(Seq<u8>, ColumnEncoding),
    Date(SqlDate),
    Time(SqlTime),
    DateTime2(SqlDateTime2),
    DateTimeOffset(SqlDateTimeOffset),
    DateTime(SqlDateTime),
    SmallDateTime(SqlSmallDateTime),
    Bytes(Seq<u8>),
    Uuid(Seq<u8>),
    Null,
}

impl View for DecimalLiteral {
    type V = DecimalView;

    open spec fn view(&self) -> DecimalView {
        DecimalView { text: self.text@, precision: self.precision, scale: self.scale }
    }
}

impl View for ColumnValues {
    type V = ColumnView;

    open spec fn view(&self) -> ColumnView {
        match *self {
            ColumnValues::TinyInt(v) => ColumnView::TinyInt(v),
            ColumnValues::SmallInt(v) => ColumnView::SmallInt(v),
            ColumnValues::Int(v) => ColumnView::Int(v),
            ColumnValues::BigInt(v) => ColumnView::BigInt(v),
            ColumnValues::Real(v) => ColumnView::Real(v),
            ColumnValues::Float(v) => ColumnView::Float(v),
            ColumnValues::Bit(v) => ColumnView::Bit(v),
            ColumnValues::Decimal(v) => ColumnView::Decimal(v@),
            ColumnValues::Numeric(v) => ColumnView::Numeric(v@),
            ColumnValues::Money(v) => ColumnView::Money(v),
            ColumnValues::SmallMoney(v) => ColumnView::SmallMoney(v),
            ColumnValues::String(v) => ColumnView::String(v.bytes@, v.encoding),
            ColumnValues::Date(v) => ColumnView::Date(v),
            ColumnValues::Time(v) => ColumnView::Time(v),
            ColumnValues::DateTime2(v) => ColumnView::DateTime2(v),
            ColumnValues::DateTimeOffset(v) => ColumnView::DateTimeOffset(v),
            ColumnValues::DateTime(v) => ColumnView::DateTime(v),
            ColumnValues::SmallDateTime(v) => ColumnView::SmallDateTime(v),
            ColumnValues::Bytes(v) => ColumnView::Bytes(v@),
            ColumnValues::Uuid(v) => ColumnView::Uuid(v@),
            ColumnValues::Null => ColumnView::Null,
        }
    }
}

} // verus!
