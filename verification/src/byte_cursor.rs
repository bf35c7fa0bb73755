//! Values assembled from arbitrary bytes.
//!
//! A cursor reads on after the end of its bytes, where there are zeros, so
//! that any bytes make a value.

use vstd::prelude::*;

use crate::conversion::column_value::{
    ColumnEncoding, ColumnText, ColumnValues, ColumnView, DecimalLiteral, DecimalView, SqlDate,
    SqlDateTime, SqlDateTime2, SqlDateTimeOffset, SqlMoney, SqlSmallDateTime, SqlSmallMoney,
    SqlTime,
};
use crate::conversion::param_buffer::{self, read_u16, read_u32, read_u64};
use crate::conversion::transcode::SqlCollation;

verus! {

/// The days that a date is taken modulo: one more than the last one's.
pub const DATE_SPAN: u32 = 3652059;

/// The byte at `at`, or zero behind the end.
pub open spec fn byte_at(bytes: Seq<u8>, at: int) -> u8 {
    if 0 <= at < bytes.len() {
        bytes[at]
    } else {
        0
    }
}

/// The `count` bytes from `at` on, zeros behind the end.
pub open spec fn bytes_at(bytes: Seq<u8>, at: int, count: nat) -> Seq<u8> {
    Seq::new(count, |k: int| byte_at(bytes, at + k))
}

/// What is left of bytes from `at` on.
pub open spec fn bytes_from(bytes: Seq<u8>, at: int) -> Seq<u8> {
    if at <= bytes.len() {
        bytes.skip(at)
    } else {
        Seq::empty()
    }
}

/// The number of two bytes at `at`.
pub open spec fn u16_from(bytes: Seq<u8>, at: int) -> u16 {
    param_buffer::u16_at(bytes_at(bytes, at, 2), 0) as u16
}

/// The number of four bytes at `at`.
pub open spec fn u32_from(bytes: Seq<u8>, at: int) -> u32 {
    param_buffer::u32_at(bytes_at(bytes, at, 4), 0) as u32
}

/// The number of eight bytes at `at`.
pub open spec fn u64_from(bytes: Seq<u8>, at: int) -> u64 {
    param_buffer::u64_at(bytes_at(bytes, at, 8), 0) as u64
}

/// The signed number of two bytes at `at`.
pub open spec fn i16_from(bytes: Seq<u8>, at: int) -> i16 {
    param_buffer::signed_of(u16_from(bytes, at) as int, 0x1_0000) as i16
}

/// The signed number of four bytes at `at`.
pub open spec fn i32_from(bytes: Seq<u8>, at: int) -> i32 {
    param_buffer::signed_of(u32_from(bytes, at) as int, 0x1_0000_0000) as i32
}

/// The signed number of eight bytes at `at`.
pub open spec fn i64_from(bytes: Seq<u8>, at: int) -> i64 {
    param_buffer::signed_of(u64_from(bytes, at) as int, 0x1_0000_0000_0000_0000) as i64
}

/// Reads bytes one after the other.
pub struct ByteCursor<'a> {
    data: &'a [u8],
    pos: usize,
    read: Ghost<int>,
}

impl<'a> ByteCursor<'a> {
    /// Whether the position is the number of bytes read, up to the end.
    pub closed spec fn wf(self) -> bool {
        &&& self.read@ >= 0
        &&& self.pos == (if self.read@ <= self.data@.len() {
            self.read@
        } else {
            self.data@.len() as int
        })
    }

    /// All bytes, read or not.
    pub closed spec fn bytes(self) -> Seq<u8> {
        self.data@
    }

    /// The number of bytes read, zeros behind the end among them.
    pub closed spec fn at(self) -> int {
        self.read@
    }

    /// How many of the bytes have been read.
    pub open spec fn spec_position(self) -> int {
        if self.at() <= self.bytes().len() {
            self.at()
        } else {
            self.bytes().len() as int
        }
    }

    /// Whether `after` is this cursor after reading `count` bytes.
    pub open spec fn advanced(self, after: Self, count: int) -> bool {
        after.wf() && after.bytes() == self.bytes() && after.at() == self.at() + count
    }

    /// A cursor at the start of bytes.
    pub fn new(data: &'a [u8]) -> (cursor: Self)
        ensures
            cursor.wf(),
            cursor.bytes() == data@,
            cursor.at() == 0,
    {
        ByteCursor { data, pos: 0, read: Ghost(0) }
    }

    /// How many of the bytes have been read.
    pub fn position(&self) -> (position: usize)
        requires
            self.wf(),
        ensures
            position == self.spec_position(),
    {
        self.pos
    }

    /// Reads one byte.
    pub fn u8(&mut self) -> (byte: u8)
        requires
            old(self).wf(),
        ensures
            byte == byte_at(old(self).bytes(), old(self).at()),
            old(self).advanced(*final(self), 1),
    {
        assert(self.data.len() == self.data@.len());
        self.read = Ghost(self.read@ + 1);
        if self.pos < self.data.len() {
            let byte: u8 = self.data[self.pos];
            self.pos = self.pos + 1;
            byte
        } else {
            0
        }
    }

    /// Reads `count` bytes.
    pub fn take(&mut self, count: usize) -> (bytes: Vec<u8>)
        requires
            old(self).wf(),
        ensures
            bytes@ == bytes_at(old(self).bytes(), old(self).at(), count as nat),
            old(self).advanced(*final(self), count as int),
    {
        let mut bytes: Vec<u8> = Vec::new();
        assert(bytes@ =~= bytes_at(self.bytes(), self.at(), 0));
        while bytes.len() < count
            invariant
                bytes@.len() <= count,
                bytes@ == bytes_at(old(self).bytes(), old(self).at(), bytes@.len()),
                old(self).advanced(*self, bytes@.len() as int),
            decreases count - bytes.len(),
        {
            let ghost done = bytes@.len();
            let byte: u8 = self.u8();
            bytes.push(byte);
            assert(bytes@ =~= bytes_at(old(self).bytes(), old(self).at(), done + 1));
        }
        bytes
    }

    /// Reads all that is left.
    pub fn rest(&mut self) -> (bytes: Vec<u8>)
        requires
            old(self).wf(),
        ensures
            bytes@ == bytes_from(old(self).bytes(), old(self).at()),
            old(self).advanced(*final(self), bytes@.len() as int),
    {
        assert(self.data.len() == self.data@.len());
        let count: usize = self.data.len() - self.pos;
        let bytes: Vec<u8> = self.take(count);
        assert(bytes@ =~= bytes_from(old(self).bytes(), old(self).at()));
        bytes
    }

    /// Reads a number of two bytes.
    pub fn le_u16(&mut self) -> (value: u16)
        requires
            old(self).wf(),
        ensures
            value == u16_from(old(self).bytes(), old(self).at()),
            old(self).advanced(*final(self), 2),
    {
        let bytes: Vec<u8> = self.take(2);
        read_u16(bytes.as_slice(), 0)
    }

    /// Reads a number of four bytes.
    pub fn le_u32(&mut self) -> (value: u32)
        requires
            old(self).wf(),
        ensures
            value == u32_from(old(self).bytes(), old(self).at()),
            old(self).advanced(*final(self), 4),
    {
        let bytes: Vec<u8> = self.take(4);
        read_u32(bytes.as_slice(), 0)
    }

    /// Reads a number of eight bytes.
    pub fn le_u64(&mut self) -> (value: u64)
        requires
            old(self).wf(),
        ensures
            value == u64_from(old(self).bytes(), old(self).at()),
            old(self).advanced(*final(self), 8),
    {
        let bytes: Vec<u8> = self.take(8);
        read_u64(bytes.as_slice(), 0)
    }

    /// Reads a signed number of two bytes.
    pub fn le_i16(&mut self) -> (value: i16)
        requires
            old(self).wf(),
        ensures
            value == i16_from(old(self).bytes(), old(self).at()),
            old(self).advanced(*final(self), 2),
    {
        let raw: u16 = self.le_u16();
        if raw >= 0x8000 {
            (raw as i32 - 0x1_0000) as i16
        } else {
            raw as i16
        }
    }

    /// Reads a signed number of four bytes.
    pub fn le_i32(&mut self) -> (value: i32)
        requires
            old(self).wf(),
        ensures
            value == i32_from(old(self).bytes(), old(self).at()),
            old(self).advanced(*final(self), 4),
    {
        let raw: u32 = self.le_u32();
        if raw >= 0x8000_0000 {
            (raw as i64 - 0x1_0000_0000) as i32
        } else {
            raw as i32
        }
    }

    /// Reads a signed number of eight bytes.
    pub fn le_i64(&mut self) -> (value: i64)
        requires
            old(self).wf(),
        ensures
            value == i64_from(old(self).bytes(), old(self).at()),
            old(self).advanced(*final(self), 8),
    {
        let raw: u64 = self.le_u64();
        if raw >= 0x8000_0000_0000_0000 {
            (raw as i128 - 0x1_0000_0000_0000_0000) as i64
        } else {
            raw as i64
        }
    }
}

/// The decimal number that bytes make: the number of its digits, its scale, its
/// sign, and then its digits.
pub open spec fn decimal_from(bytes: Seq<u8>, at: int) -> DecimalView {
    let count = byte_at(bytes, at) % 39 + 1;
    let digits = Seq::new(count as nat, |k: int| (48 + byte_at(bytes, at + 3 + k) % 10) as char);
    let precision = if count > 38 {
        38
    } else {
        count
    };
    let scale = (byte_at(bytes, at + 1) % 39) as int;
    DecimalView {
        text: if byte_at(bytes, at + 2) % 2 == 0 {
            seq!['-'] + digits
        } else {
            digits
        },
        precision: precision as u8,
        scale: (if scale < precision {
            scale
        } else {
            precision
        }) as u8,
    }
}

/// Makes a decimal number.
pub fn build_decimal(cursor: &mut ByteCursor) -> (decimal: DecimalLiteral)
    requires
        old(cursor).wf(),
    ensures
        decimal@ == decimal_from(old(cursor).bytes(), old(cursor).at()),
        old(cursor).advanced(
            *final(cursor),
            byte_at(old(cursor).bytes(), old(cursor).at()) % 39 + 4,
        ),
{
    let ghost start = cursor.bytes();
    let ghost at = cursor.at();
    let count: u8 = cursor.u8() % 39 + 1;
    let scale: u8 = cursor.u8() % 39;
    let minus: bool = cursor.u8() % 2 == 0;
    let mut text: Vec<char> = Vec::new();
    if minus {
        text.push('-');
    }
    let ghost sign = text@;
    let ghost digits = Seq::new(
        count as nat,
        |k: int| (48 + byte_at(start, at + 3 + k) % 10) as char,
    );
    let mut done: u8 = 0;
    assert(sign =~= sign + digits.take(0));
    while done < count
        invariant
            done <= count,
            cursor.wf(),
            cursor.bytes() == start,
            cursor.at() == at + 3 + done,
            digits == Seq::new(
                count as nat,
                |k: int| (48 + byte_at(start, at + 3 + k) % 10) as char,
            ),
            text@ == sign + digits.take(done as int),
        decreases count - done,
    {
        let digit: u8 = cursor.u8() % 10;
        text.push((48 + digit) as char);
        assert(text@ =~= sign + digits.take(done + 1));
        done = done + 1;
    }
    assert(sign + digits.take(count as int) =~= sign + digits);
    let precision: u8 = if count > 38 {
        38
    } else {
        count
    };
    let decimal = DecimalLiteral {
        text,
        precision,
        scale: if scale < precision {
            scale
        } else {
            precision
        },
    };
    assert(decimal@ =~= decimal_from(start, at));
    decimal
}

/// The encoding that bytes make.
pub open spec fn encoding_from(bytes: Seq<u8>, at: int) -> ColumnEncoding {
    if byte_at(bytes, at) % 3 == 0 {
        ColumnEncoding::Utf8
    } else if byte_at(bytes, at) % 3 == 1 {
        ColumnEncoding::Utf16
    } else {
        ColumnEncoding::LcidBased(
            SqlCollation {
                info: u32_from(bytes, at + 1),
                lcid_language_id: 0,
                col_flags: byte_at(bytes, at + 5),
                sort_id: byte_at(bytes, at + 6),
            },
        )
    }
}

/// The bytes that an encoding is made of.
pub open spec fn encoding_length(bytes: Seq<u8>, at: int) -> int {
    if byte_at(bytes, at) % 3 == 2 {
        7
    } else {
        1
    }
}

/// Makes an encoding.
pub fn build_encoding(cursor: &mut ByteCursor) -> (encoding: ColumnEncoding)
    requires
        old(cursor).wf(),
    ensures
        encoding == encoding_from(old(cursor).bytes(), old(cursor).at()),
        old(cursor).advanced(
            *final(cursor),
            encoding_length(old(cursor).bytes(), old(cursor).at()),
        ),
{
    match cursor.u8() % 3 {
        0 => ColumnEncoding::Utf8,
        1 => ColumnEncoding::Utf16,
        _ => {
            let info: u32 = cursor.le_u32();
            let col_flags: u8 = cursor.u8();
            let sort_id: u8 = cursor.u8();
            ColumnEncoding::LcidBased(
                SqlCollation { info, lcid_language_id: 0, col_flags, sort_id },
            )
        },
    }
}

/// The time of day that bytes make.
pub open spec fn time_from(bytes: Seq<u8>, at: int) -> SqlTime {
    SqlTime { time_nanoseconds: u64_from(bytes, at), scale: byte_at(bytes, at + 8) }
}

/// The date and time that bytes make.
pub open spec fn datetime2_from(bytes: Seq<u8>, at: int) -> SqlDateTime2 {
    SqlDateTime2 { days: u32_from(bytes, at), time: time_from(bytes, at + 4) }
}

/// Makes a time of day.
fn build_time(cursor: &mut ByteCursor) -> (time: SqlTime)
    requires
        old(cursor).wf(),
    ensures
        time == time_from(old(cursor).bytes(), old(cursor).at()),
        old(cursor).advanced(*final(cursor), 9),
{
    let time_nanoseconds: u64 = cursor.le_u64();
    let scale: u8 = cursor.u8();
    SqlTime { time_nanoseconds, scale }
}

/// Makes a date and time.
fn build_datetime2(cursor: &mut ByteCursor) -> (datetime2: SqlDateTime2)
    requires
        old(cursor).wf(),
    ensures
        datetime2 == datetime2_from(old(cursor).bytes(), old(cursor).at()),
        old(cursor).advanced(*final(cursor), 13),
{
    let days: u32 = cursor.le_u32();
    let time: SqlTime = build_time(cursor);
    SqlDateTime2 { days, time }
}

/// The value that bytes make: the first byte picks its type, the others are
/// its content.
pub open spec fn column_value_from(bytes: Seq<u8>, at: int) -> ColumnView {
    let pick = byte_at(bytes, at) % 21;
    if pick == 0 {
        ColumnView::TinyInt(byte_at(bytes, at + 1))
    } else if pick == 1 {
        ColumnView::SmallInt(i16_from(bytes, at + 1))
    } else if pick == 2 {
        ColumnView::Int(i32_from(bytes, at + 1))
    } else if pick == 3 {
        ColumnView::BigInt(i64_from(bytes, at + 1))
    } else if pick == 4 {
        ColumnView::Real(u32_from(bytes, at + 1))
    } else if pick == 5 {
        ColumnView::Float(u64_from(bytes, at + 1))
    } else if pick == 6 {
        ColumnView::Bit(byte_at(bytes, at + 1) % 2 == 1)
    } else if pick == 7 {
        ColumnView::Decimal(decimal_from(bytes, at + 1))
    } else if pick == 8 {
        ColumnView::Numeric(decimal_from(bytes, at + 1))
    } else if pick == 9 {
        ColumnView::Money(SqlMoney { lsb_part: i32_from(bytes, at + 1), msb_part: i32_from(bytes, at + 5) })
    } else if pick == 10 {
        ColumnView::SmallMoney(SqlSmallMoney { int_val: i32_from(bytes, at + 1) })
    } else if pick == 11 {
        ColumnView::String(
            bytes_from(bytes, at + 1 + encoding_length(bytes, at + 1)),
            encoding_from(bytes, at + 1),
        )
    } else if pick == 12 {
        ColumnView::Date(SqlDate { days: u32_from(bytes, at + 1) % DATE_SPAN })
    } else if pick == 13 {
        ColumnView::Time(time_from(bytes, at + 1))
    } else if pick == 14 {
        ColumnView::DateTime2(datetime2_from(bytes, at + 1))
    } else if pick == 15 {
        ColumnView::DateTimeOffset(
            SqlDateTimeOffset { datetime2: datetime2_from(bytes, at + 1), offset: i16_from(bytes, at + 14) },
        )
    } else if pick == 16 {
        ColumnView::DateTime(SqlDateTime { days: i32_from(bytes, at + 1), time: u32_from(bytes, at + 5) })
    } else if pick == 17 {
        ColumnView::SmallDateTime(
            SqlSmallDateTime { days: u16_from(bytes, at + 1), time: u16_from(bytes, at + 3) },
        )
    } else if pick == 18 {
        ColumnView::Bytes(bytes_from(bytes, at + 1))
    } else if pick == 19 {
        ColumnView::Uuid(bytes_at(bytes, at + 1, 16))
    } else {
        ColumnView::Null
    }
}

/// How many bytes the value takes, its first byte among them.
pub open spec fn column_value_length(bytes: Seq<u8>, at: int) -> int {
    let pick = byte_at(bytes, at) % 21;
    1 + if pick == 0 || pick == 6 {
        1
    } else if pick == 1 {
        2
    } else if pick == 2 || pick == 4 || pick == 10 || pick == 12 || pick == 17 {
        4
    } else if pick == 3 || pick == 5 || pick == 9 || pick == 16 {
        8
    } else if pick == 7 || pick == 8 {
        byte_at(bytes, at + 1) % 39 + 4
    } else if pick == 11 {
        let encoding = encoding_length(bytes, at + 1);
        encoding + bytes_from(bytes, at + 1 + encoding).len()
    } else if pick == 13 {
        9
    } else if pick == 14 {
        13
    } else if pick == 15 {
        15
    } else if pick == 18 {
        bytes_from(bytes, at + 1).len() as int
    } else if pick == 19 {
        16
    } else {
        0
    }
}

/// Makes a value of a column.
pub fn build_column_value(cursor: &mut ByteCursor) -> (value: ColumnValues)
    requires
        old(cursor).wf(),
    ensures
        value@ == column_value_from(old(cursor).bytes(), old(cursor).at()),
        old(cursor).advanced(
            *final(cursor),
            column_value_length(old(cursor).bytes(), old(cursor).at()),
        ),
{
    let pick: u8 = cursor.u8() % 21;
    match pick {
        0 => ColumnValues::TinyInt(cursor.u8()),
        1 => ColumnValues::SmallInt(cursor.le_i16()),
        2 => ColumnValues::Int(cursor.le_i32()),
        3 => ColumnValues::BigInt(cursor.le_i64()),
        4 => ColumnValues::Real(cursor.le_u32()),
        5 => ColumnValues::Float(cursor.le_u64()),
        6 => ColumnValues::Bit(cursor.u8() % 2 == 1),
        7 => ColumnValues::Decimal(build_decimal(cursor)),
        8 => ColumnValues::Numeric(build_decimal(cursor)),
        9 => {
            let lsb_part: i32 = cursor.le_i32();
            let msb_part: i32 = cursor.le_i32();
            ColumnValues::Money(SqlMoney { lsb_part, msb_part })
        },
        10 => ColumnValues::SmallMoney(SqlSmallMoney { int_val: cursor.le_i32() }),
        11 => {
            let encoding: ColumnEncoding = build_encoding(cursor);
            ColumnValues::String(ColumnText { bytes: cursor.rest(), encoding })
        },
        12 => ColumnValues::Date(SqlDate { days: cursor.le_u32() % DATE_SPAN }),
        13 => ColumnValues::Time(build_time(cursor)),
        14 => ColumnValues::DateTime2(build_datetime2(cursor)),
        15 => {
            let datetime2: SqlDateTime2 = build_datetime2(cursor);
            let offset: i16 = cursor.le_i16();
            ColumnValues::DateTimeOffset(SqlDateTimeOffset { datetime2, offset })
        },
        16 => {
            let days: i32 = cursor.le_i32();
            let time: u32 = cursor.le_u32();
            ColumnValues::DateTime(SqlDateTime { days, time })
        },
        17 => {
            let days: u16 = cursor.le_u16();
            let time: u16 = cursor.le_u16();
            ColumnValues::SmallDateTime(SqlSmallDateTime { days, time })
        },
        18 => ColumnValues::Bytes(cursor.rest()),
        19 => {
            let b: Vec<u8> = cursor.take(16);
            let uuid: [u8; 16] = [
                b[0], b[1], b[2], b[3], b[4], b[5], b[6], b[7], b[8], b[9], b[10], b[11], b[12],
                b[13], b[14], b[15],
            ];
            assert(uuid@ =~= b@);
            ColumnValues::Uuid(uuid)
        },
        _ => ColumnValues::Null,
    }
}

/// A value once it is known whether the parser of decimals accepts its literal.
pub open spec fn decimal_outcome(value: ColumnView, accepted: bool) -> ColumnView {
    if !accepted && (value is Decimal || value is Numeric) {
        ColumnView::Null
    } else {
        value
    }
}

/// A value once it is known whether the parser of decimals accepts its literal:
/// a decimal that it refuses is NULL.
pub fn with_decimal_outcome(value: ColumnValues, accepted: bool) -> (outcome: ColumnValues)
    ensures
        outcome@ == decimal_outcome(value@, accepted),
{
    if accepted {
        return value;
    }
    match value {
        ColumnValues::Decimal(_) | ColumnValues::Numeric(_) => ColumnValues::Null,
        value => value,
    }
}

/// Numbers that are stored in the bytes are the numbers that are read.
proof fn lemma_reads_back(bytes: Seq<u8>, at: int, value: int)
    ensures
        param_buffer::holds(bytes, at, value, 1) && 0 <= value < 0x100 ==> byte_at(bytes, at)
            == value,
        param_buffer::holds(bytes, at, value, 2) && 0 <= value < 0x1_0000 ==> u16_from(bytes, at)
            == value,
        param_buffer::holds(bytes, at, value, 2) && -0x8000 <= value < 0x8000 ==> i16_from(
            bytes,
            at,
        ) == value,
        param_buffer::holds(bytes, at, value, 4) && 0 <= value < 0x1_0000_0000 ==> u32_from(
            bytes,
            at,
        ) == value,
        param_buffer::holds(bytes, at, value, 4) && -0x8000_0000 <= value < 0x8000_0000
            ==> i32_from(bytes, at) == value,
        param_buffer::holds(bytes, at, value, 8) && 0 <= value < 0x1_0000_0000_0000_0000
            ==> u64_from(bytes, at) == value,
        param_buffer::holds(bytes, at, value, 8) && -0x8000_0000_0000_0000 <= value
            < 0x8000_0000_0000_0000 ==> i64_from(bytes, at) == value,
{
    reveal(param_buffer::holds);
    if param_buffer::holds(bytes, at, value, 1) {
        reveal_with_fuel(param_buffer::stored, 2);
        assert(bytes.subrange(at, at + 1)[0] == bytes[at]);
    }
    if param_buffer::holds(bytes, at, value, 2) {
        param_buffer::lemma_holds_2(bytes, at, value);
        assert(bytes_at(bytes, at, 2)[0] == bytes[at] && bytes_at(bytes, at, 2)[1] == bytes[at
            + 1]);
    }
    if param_buffer::holds(bytes, at, value, 4) {
        param_buffer::lemma_holds_4(bytes, at, value);
        let four = bytes_at(bytes, at, 4);
        assert(four[0] == bytes[at] && four[1] == bytes[at + 1] && four[2] == bytes[at + 2]
            && four[3] == bytes[at + 3]);
    }
    if param_buffer::holds(bytes, at, value, 8) {
        param_buffer::lemma_holds_8(bytes, at, value);
        let eight = bytes_at(bytes, at, 8);
        assert(eight[0] == bytes[at] && eight[1] == bytes[at + 1] && eight[2] == bytes[at + 2]
            && eight[3] == bytes[at + 3] && eight[4] == bytes[at + 4] && eight[5] == bytes[at + 5]
            && eight[6] == bytes[at + 6] && eight[7] == bytes[at + 7]);
        assert(param_buffer::u32_at(eight, 0) == param_buffer::u32_at(bytes, at));
        assert(param_buffer::u32_at(eight, 4) == param_buffer::u32_at(bytes, at + 4));
    }
}

/// A number behind the byte that picks its type is the value that is made, and
/// the value takes that byte and the number's own.
pub proof fn a_number_is_made_as_it_is_stored(bytes: Seq<u8>, at: int, value: int)
    requires
        0 <= at < bytes.len(),
    ensures
        ({
            let pick = bytes[at] % 21;
            let made = column_value_from(bytes, at);
            let length = column_value_length(bytes, at);
            &&& pick == 0 && 0 <= value < 0x100 && param_buffer::holds(bytes, at + 1, value, 1)
                ==> made == ColumnView::TinyInt(value as u8) && length == 2
            &&& pick == 1 && -0x8000 <= value < 0x8000 && param_buffer::holds(
                bytes,
                at + 1,
                value,
                2,
            ) ==> made == ColumnView::SmallInt(value as i16) && length == 3
            &&& pick == 2 && -0x8000_0000 <= value < 0x8000_0000 && param_buffer::holds(
                bytes,
                at + 1,
                value,
                4,
            ) ==> made == ColumnView::Int(value as i32) && length == 5
            &&& pick == 3 && -0x8000_0000_0000_0000 <= value < 0x8000_0000_0000_0000
                && param_buffer::holds(bytes, at + 1, value, 8) ==> made == ColumnView::BigInt(
                value as i64,
            ) && length == 9
            &&& pick == 4 && 0 <= value < 0x1_0000_0000 && param_buffer::holds(
                bytes,
                at + 1,
                value,
                4,
            ) ==> made == ColumnView::Real(value as u32) && length == 5
            &&& pick == 5 && 0 <= value < 0x1_0000_0000_0000_0000 && param_buffer::holds(
                bytes,
                at + 1,
                value,
                8,
            ) ==> made == ColumnView::Float(value as u64) && length == 9
            &&& pick == 6 && 0 <= value < 2 && param_buffer::holds(bytes, at + 1, value, 1)
                ==> made == ColumnView::Bit(value == 1) && length == 2
            &&& pick == 10 && -0x8000_0000 <= value < 0x8000_0000 && param_buffer::holds(
                bytes,
                at + 1,
                value,
                4,
            ) ==> made == ColumnView::SmallMoney(SqlSmallMoney { int_val: value as i32 }) && length
                == 5
            &&& pick == 12 && 0 <= value <= 3_652_058 && param_buffer::holds(
                bytes,
                at + 1,
                value,
                4,
            ) ==> made == ColumnView::Date(SqlDate { days: value as u32 }) && length == 5
            &&& pick == 20 ==> made is Null && length == 1
        }),
{
    lemma_reads_back(bytes, at + 1, value);
}

/// Two numbers one behind the other are the parts of an amount of money or of a
/// moment of one of the two older types.
pub proof fn a_pair_of_numbers_is_made_as_it_is_stored(
    bytes: Seq<u8>,
    at: int,
    first: int,
    second: int,
)
    requires
        0 <= at < bytes.len(),
    ensures
        ({
            let pick = bytes[at] % 21;
            let made = column_value_from(bytes, at);
            let length = column_value_length(bytes, at);
            &&& pick == 9 && -0x8000_0000 <= first < 0x8000_0000 && -0x8000_0000 <= second
                < 0x8000_0000 && param_buffer::holds(bytes, at + 1, first, 4)
                && param_buffer::holds(bytes, at + 5, second, 4) ==> made == ColumnView::Money(
                SqlMoney { lsb_part: first as i32, msb_part: second as i32 },
            ) && length == 9
            &&& pick == 16 && -0x8000_0000 <= first < 0x8000_0000 && 0 <= second < 0x1_0000_0000
                && param_buffer::holds(bytes, at + 1, first, 4) && param_buffer::holds(
                bytes,
                at + 5,
                second,
                4,
            ) ==> made == ColumnView::DateTime(
                SqlDateTime { days: first as i32, time: second as u32 },
            ) && length == 9
            &&& pick == 17 && 0 <= first < 0x1_0000 && 0 <= second < 0x1_0000
                && param_buffer::holds(bytes, at + 1, first, 2) && param_buffer::holds(
                bytes,
                at + 3,
                second,
                2,
            ) ==> made == ColumnView::SmallDateTime(
                SqlSmallDateTime { days: first as u16, time: second as u16 },
            ) && length == 5
        }),
{
    lemma_reads_back(bytes, at + 1, first);
    lemma_reads_back(bytes, at + 5, second);
    lemma_reads_back(bytes, at + 3, second);
}

/// A time of day is its count and its scale; a moment has its days before them,
/// and one with an offset the offset behind them.
pub proof fn a_moment_is_made_as_it_is_stored(
    bytes: Seq<u8>,
    at: int,
    days: u32,
    count: u64,
    scale: u8,
    offset: i16,
)
    requires
        0 <= at < bytes.len(),
    ensures
        ({
            let pick = bytes[at] % 21;
            let made = column_value_from(bytes, at);
            let length = column_value_length(bytes, at);
            let time = SqlTime { time_nanoseconds: count, scale };
            let datetime2 = SqlDateTime2 { days, time };
            &&& pick == 13 && param_buffer::holds(bytes, at + 1, count as int, 8)
                && param_buffer::holds(bytes, at + 9, scale as int, 1) ==> made
                == ColumnView::Time(time) && length == 10
            &&& pick == 14 && param_buffer::holds(bytes, at + 1, days as int, 4)
                && param_buffer::holds(bytes, at + 5, count as int, 8) && param_buffer::holds(
                bytes,
                at + 13,
                scale as int,
                1,
            ) ==> made == ColumnView::DateTime2(datetime2) && length == 14
            &&& pick == 15 && param_buffer::holds(bytes, at + 1, days as int, 4)
                && param_buffer::holds(bytes, at + 5, count as int, 8) && param_buffer::holds(
                bytes,
                at + 13,
                scale as int,
                1,
            ) && param_buffer::holds(bytes, at + 14, offset as int, 2) ==> made
                == ColumnView::DateTimeOffset(SqlDateTimeOffset { datetime2, offset }) && length
                == 16
        }),
{
    lemma_reads_back(bytes, at + 1, count as int);
    lemma_reads_back(bytes, at + 9, scale as int);
    lemma_reads_back(bytes, at + 1, days as int);
    lemma_reads_back(bytes, at + 5, count as int);
    lemma_reads_back(bytes, at + 13, scale as int);
    lemma_reads_back(bytes, at + 14, offset as int);
}

/// Bytes and a text take all that is left, the text behind its encoding, and an
/// identifier takes the next sixteen bytes.
pub proof fn the_rest_is_made_into_bytes_or_a_text(
    before: Seq<u8>,
    pick: u8,
    content: Seq<u8>,
    behind: Seq<u8>,
)
    ensures
        ({
            let at = before.len() as int;
            let bytes = before.push(pick) + content;
            pick % 21 == 18 ==> column_value_from(bytes, at) == ColumnView::Bytes(content)
                && column_value_length(bytes, at) == 1 + content.len()
        }),
        ({
            let at = before.len() as int;
            let plain = before.push(pick) + (seq![0u8] + content);
            let wide = before.push(pick) + (seq![1u8] + content);
            pick % 21 == 11 ==> column_value_from(plain, at) == ColumnView::String(
                content,
                ColumnEncoding::Utf8,
            ) && column_value_length(plain, at) == 2 + content.len() && column_value_from(wide, at)
                == ColumnView::String(content, ColumnEncoding::Utf16) && column_value_length(
                wide,
                at,
            ) == 2 + content.len()
        }),
        ({
            let at = before.len() as int;
            let bytes = before.push(pick) + content + behind;
            pick % 21 == 19 && content.len() == 16 ==> column_value_from(bytes, at)
                == ColumnView::Uuid(content) && column_value_length(bytes, at) == 17
        }),
{
    let at = before.len() as int;
    let bytes = before.push(pick) + content;
    assert(bytes[at] == pick);
    assert(bytes_from(bytes, at + 1) =~= content);
    let plain = before.push(pick) + (seq![0u8] + content);
    let wide = before.push(pick) + (seq![1u8] + content);
    assert(plain[at] == pick && wide[at] == pick);
    assert(plain[at + 1] == 0 && wide[at + 1] == 1);
    assert(bytes_from(plain, at + 2) =~= content);
    assert(bytes_from(wide, at + 2) =~= content);
    let longer = before.push(pick) + content + behind;
    assert(longer[at] == pick);
    if content.len() == 16 {
        assert forall|k: int| 0 <= k < 16 implies #[trigger] bytes_at(longer, at + 1, 16)[k]
            == content[k] by {
            assert(longer[at + 1 + k] == content[k]);
        }
        assert(bytes_at(longer, at + 1, 16) =~= content);
    }
}

/// A text of a code page has its collation behind the byte that picks the
/// encoding: what identifies the locale, the flags and the sort order.
pub proof fn a_collation_is_made_as_it_is_stored(
    bytes: Seq<u8>,
    at: int,
    info: u32,
    flags: u8,
    sort_id: u8,
)
    requires
        0 <= at,
        at + 7 <= bytes.len(),
        bytes[at] % 3 == 2,
        param_buffer::holds(bytes, at + 1, info as int, 4),
        param_buffer::holds(bytes, at + 5, flags as int, 1),
        param_buffer::holds(bytes, at + 6, sort_id as int, 1),
    ensures
        encoding_from(bytes, at) matches ColumnEncoding::LcidBased(collation) && collation.info
            == info && collation.col_flags == flags && collation.sort_id == sort_id
            && collation.lcid_language_id == 0,
        encoding_length(bytes, at) == 7,
{
    lemma_reads_back(bytes, at + 1, info as int);
    lemma_reads_back(bytes, at + 5, flags as int);
    lemma_reads_back(bytes, at + 6, sort_id as int);
}

/// A decimal number is as many digits as its first byte says, each the last
/// decimal place of its own byte, with a minus sign in front where the third byte
/// is even. Its precision is their number, up to 38, and its scale is no larger.
pub proof fn a_decimal_is_made_of_its_digits(bytes: Seq<u8>, at: int, k: int)
    requires
        0 <= at,
        at + 3 < bytes.len(),
    ensures
        ({
            let made = decimal_from(bytes, at);
            let count = bytes[at] % 39 + 1;
            let signed = bytes[at + 2] % 2 == 0;
            &&& made.text.len() == count + (if signed {
                1int
            } else {
                0
            })
            &&& signed ==> made.text[0] == '-'
            &&& 0 <= k < count && at + 3 + k < bytes.len() ==> made.text[if signed {
                k + 1
            } else {
                k
            }] as int == '0' as int + bytes[at + 3 + k] % 10
            &&& count < 39 ==> made.precision == count
            &&& count == 39 ==> made.precision == 38
            &&& bytes[at + 1] % 39 <= made.precision ==> made.scale == bytes[at + 1] % 39
            &&& bytes[at + 1] % 39 > made.precision ==> made.scale == made.precision
        }),
{
}

/// Behind the end there are zeros: more of them change no value, but for bytes
/// and texts, which take all there is.
pub proof fn zeros_stand_behind_the_end(bytes: Seq<u8>, at: int, zeros: nat)
    requires
        byte_at(bytes, at) % 21 != 11,
        byte_at(bytes, at) % 21 != 18,
    ensures
        ({
            let longer = bytes + Seq::new(zeros, |k: int| 0u8);
            &&& column_value_from(longer, at) == column_value_from(bytes, at)
            &&& column_value_length(longer, at) == column_value_length(bytes, at)
        }),
{
    let longer = bytes + Seq::new(zeros, |k: int| 0u8);
    assert forall|i: int| byte_at(longer, i) == #[trigger] byte_at(bytes, i) by {}
    assert forall|x: int, n: nat| bytes_at(longer, x, n) == #[trigger] bytes_at(bytes, x, n) by {
        assert(bytes_at(longer, x, n) =~= bytes_at(bytes, x, n));
    }
    let a = decimal_from(longer, at + 1);
    let b = decimal_from(bytes, at + 1);
    let count = byte_at(bytes, at + 1) % 39 + 1;
    assert(Seq::new(count as nat, |k: int| (48 + byte_at(longer, at + 1 + 3 + k) % 10) as char)
        =~= Seq::new(count as nat, |k: int| (48 + byte_at(bytes, at + 1 + 3 + k) % 10) as char));
    assert(a == b);
    assert forall|x: int| u16_from(longer, x) == #[trigger] u16_from(bytes, x) by {
        assert(bytes_at(longer, x, 2) == bytes_at(bytes, x, 2));
    }
    assert forall|x: int| u32_from(longer, x) == #[trigger] u32_from(bytes, x) by {
        assert(bytes_at(longer, x, 4) == bytes_at(bytes, x, 4));
    }
    assert forall|x: int| u64_from(longer, x) == #[trigger] u64_from(bytes, x) by {
        assert(bytes_at(longer, x, 8) == bytes_at(bytes, x, 8));
    }
    assert(bytes_at(longer, at + 1, 16) == bytes_at(bytes, at + 1, 16));
    assert(byte_at(longer, at) == byte_at(bytes, at));
    assert(byte_at(longer, at + 1) == byte_at(bytes, at + 1));
    assert(byte_at(longer, at + 9) == byte_at(bytes, at + 9));
    assert(byte_at(longer, at + 13) == byte_at(bytes, at + 13));
}

/// A decimal that the parser refuses is NULL; nothing else changes with its
/// answer.
pub proof fn only_a_refused_decimal_is_null(value: ColumnView, accepted: bool)
    ensures
        accepted ==> decimal_outcome(value, accepted) == value,
        !accepted && !(value is Decimal) && !(value is Numeric) ==> decimal_outcome(value, accepted)
            == value,
        !accepted && value is Decimal ==> decimal_outcome(value, accepted) is Null,
        !accepted && value is Numeric ==> decimal_outcome(value, accepted) is Null,
{
}

} // verus!
