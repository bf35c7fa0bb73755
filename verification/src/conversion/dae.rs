//! Parameters whose values are supplied at execution, in pieces.

use vstd::prelude::*;
use vstd::slice::slice_subrange;

use super::param_convert::{
    self, fixed_length, sql_family, variable_length, SqlFamily, SqlType, SqlTypeView,
};
use super::param_error::ParamBuildError;
use super::unicode;
use crate::odbc_types::{
    SQL_BINARY, SQL_CHAR, SQL_C_BINARY, SQL_C_CHAR, SQL_C_WCHAR, SQL_LONGVARBINARY,
    SQL_LONGVARCHAR, SQL_PREC_BIGCHARBINARY, SQL_PREC_NCHAR, SQL_PREC_NTEXT, SQL_PREC_TEXTIMAGE,
    SQL_VARBINARY, SQL_VARCHAR, SQL_WCHAR, SQL_WLONGVARCHAR, SQL_WVARCHAR,
};

verus! {

/// The UTF-16 units that one byte of UTF-8 accounts for. A character is
/// counted at its first byte, so a character split between two pieces is
/// counted once.
pub open spec fn byte_units(byte: u8) -> int {
    if 0x80 <= byte < 0xC0 {
        0
    } else if 0xF0 <= byte < 0xF8 {
        2
    } else {
        1
    }
}

/// The UTF-16 units that one byte of UTF-8 accounts for.
pub fn utf16_units_of_utf8_byte(byte: u8) -> (units: usize)
    ensures
        units == byte_units(byte),
{
    if byte >= 0x80 && byte < 0xC0 {
        0
    } else if byte >= 0xF0 && byte < 0xF8 {
        2
    } else {
        1
    }
}

/// What a declared length counts, and how much of it fits.
#[derive(Debug, Clone, Copy, PartialEq, Eq, Structural)]
pub enum DaeBound {
    /// Bytes of the application's buffer.
    Bytes(usize),
    /// UTF-16 units of a UTF-8 buffer.
    Utf16Units(usize),
}

/// The padding whose overflow is dropped rather than refused.
#[derive(Debug, Clone, Copy, PartialEq, Eq, Structural)]
pub enum PadUnit {
    /// A blank in UTF-8.
    Blank,
    /// A blank in little-endian UTF-16.
    WideBlank,
    /// A zero byte.
    Zero,
}

/// How much a parameter accepts, and what its overflow may be made of.
#[derive(Debug, Clone, Copy, PartialEq, Eq, Structural)]
pub struct DaeLengthLimit {
    pub bound: DaeBound,
    pub pad: PadUnit,
}

/// The `k`-th byte of a row of padding.
pub open spec fn pad_byte(pad: PadUnit, k: int) -> u8 {
    match pad {
        PadUnit::Blank => 32,
        PadUnit::WideBlank => if k % 2 == 0 {
            32
        } else {
            0
        },
        PadUnit::Zero => 0,
    }
}

/// Whether bytes are padding, the last unit possibly cut short.
pub open spec fn is_padding(pad: PadUnit, bytes: Seq<u8>) -> bool {
    forall|k: int| 0 <= k < bytes.len() ==> #[trigger] bytes[k] == pad_byte(pad, k)
}

/// The UTF-16 units the first `n` bytes account for.
pub open spec fn units_before(bytes: Seq<u8>, n: int) -> int
    decreases n,
{
    if n <= 0 {
        0
    } else {
        units_before(bytes, n - 1) + byte_units(bytes[n - 1])
    }
}

/// The number of leading bytes, from `n` on, that stay within `room` units.
pub open spec fn bytes_within(bytes: Seq<u8>, room: int, n: int) -> int
    decreases bytes.len() - n,
{
    if n < 0 || n >= bytes.len() || units_before(bytes, n + 1) > room {
        n
    } else {
        bytes_within(bytes, room, n + 1)
    }
}

/// Room left of `max` after `already`.
pub open spec fn room_left(max: usize, already: usize) -> int {
    if already >= max {
        0
    } else {
        max - already
    }
}

/// How many bytes of a piece are kept, and the units they use, in the bound's
/// own unit.
pub open spec fn kept_of(limit: DaeLengthLimit, chunk: Seq<u8>, already: usize) -> (int, int) {
    match limit.bound {
        DaeBound::Bytes(max) => {
            let room = room_left(max, already);
            if chunk.len() <= room {
                (chunk.len() as int, chunk.len() as int)
            } else {
                (room, room)
            }
        },
        DaeBound::Utf16Units(max) => {
            let kept = bytes_within(chunk, room_left(max, already), 0);
            (kept, units_before(chunk, kept))
        },
    }
}

/// What is kept of a piece: an overflow of padding is dropped, any other is
/// refused.
pub open spec fn fitted(limit: DaeLengthLimit, chunk: Seq<u8>, already: usize) -> Result<
    Seq<u8>,
    ParamBuildError,
> {
    let kept = kept_of(limit, chunk, already).0;
    if is_padding(limit.pad, chunk.skip(kept)) {
        Ok(chunk.take(kept))
    } else {
        Err(ParamBuildError::StringTruncation)
    }
}

/// Bytes kept within a number of units.
proof fn lemma_bytes_within(bytes: Seq<u8>, room: int, n: int)
    requires
        0 <= n <= bytes.len(),
        units_before(bytes, n) <= room,
    ensures
        n <= bytes_within(bytes, room, n) <= bytes.len(),
        units_before(bytes, bytes_within(bytes, room, n)) <= room,
        bytes_within(bytes, room, n) < bytes.len() ==> units_before(
            bytes,
            bytes_within(bytes, room, n) + 1,
        ) > room,
    decreases bytes.len() - n,
{
    if n < bytes.len() && units_before(bytes, n + 1) <= room {
        lemma_bytes_within(bytes, room, n + 1);
    }
}

/// Units never exceed twice the bytes, and are never negative.
proof fn lemma_units_bounded(bytes: Seq<u8>, n: int)
    requires
        0 <= n <= bytes.len(),
    ensures
        0 <= units_before(bytes, n) <= 2 * n,
    decreases n,
{
    if n > 0 {
        lemma_units_bounded(bytes, n - 1);
    }
}

impl DaeLengthLimit {
    /// How many bytes of a UTF-8 piece stay within `room` units, and the units
    /// they use.
    fn fit_units(chunk: &[u8], room: usize) -> (kept: (usize, usize))
        ensures
            kept.0 == bytes_within(chunk@, room as int, 0),
            kept.1 == units_before(chunk@, kept.0 as int),
            kept.0 <= chunk@.len(),
            kept.1 <= room,
    {
        let mut units: usize = 0;
        let mut n: usize = 0;
        while n < chunk.len()
            invariant
                n <= chunk@.len(),
                units == units_before(chunk@, n as int),
                units <= room,
                bytes_within(chunk@, room as int, n as int) == bytes_within(
                    chunk@,
                    room as int,
                    0,
                ),
            decreases chunk@.len() - n,
        {
            let cost: usize = utf16_units_of_utf8_byte(chunk[n]);
            if cost > room - units {
                return (n, units);
            }
            units = units + cost;
            n = n + 1;
        }
        (n, units)
    }

    /// Applies the limit to one piece, given how much was accepted before.
    /// Returns the bytes that are kept and the units they use; an overflow of
    /// anything but padding is refused.
    pub fn fit<'a>(&self, chunk: &'a [u8], already: usize) -> (result: Result<
        (&'a [u8], usize),
        ParamBuildError,
    >)
        ensures
            0 <= kept_of(*self, chunk@, already).0 <= chunk@.len(),
            match fitted(*self, chunk@, already) {
                Ok(kept) => {
                    &&& result is Ok
                    &&& result->Ok_0.0@ == kept
                    &&& result->Ok_0.1 == kept_of(*self, chunk@, already).1
                },
                Err(error) => result is Err && result->Err_0 == error,
            },
    {
        let (split, consumed): (usize, usize) = match self.bound {
            DaeBound::Bytes(max) => {
                let room: usize = if already >= max {
                    0
                } else {
                    max - already
                };
                if chunk.len() <= room {
                    (chunk.len(), chunk.len())
                } else {
                    (room, room)
                }
            },
            DaeBound::Utf16Units(max) => {
                let room: usize = if already >= max {
                    0
                } else {
                    max - already
                };
                Self::fit_units(chunk, room)
            },
        };
        let ghost tail = chunk@.skip(split as int);
        let mut k: usize = split;
        let mut second: bool = false;
        while k < chunk.len()
            invariant
                split <= k <= chunk@.len(),
                tail == chunk@.skip(split as int),
                second == ((k - split) % 2 == 1),
                split == kept_of(*self, chunk@, already).0,
                forall|j: int| 0 <= j < k - split ==> #[trigger] tail[j] == pad_byte(self.pad, j),
            decreases chunk@.len() - k,
        {
            let expected: u8 = match self.pad {
                PadUnit::Blank => 32,
                PadUnit::WideBlank => if second {
                    0
                } else {
                    32
                },
                PadUnit::Zero => 0,
            };
            assert(tail[k - split] == chunk@[k as int]);
            if chunk[k] != expected {
                return Err(ParamBuildError::StringTruncation);
            }
            k = k + 1;
            second = !second;
        }
        let kept = slice_subrange(chunk, 0, split);
        assert(kept@ =~= chunk@.take(split as int));
        Ok((kept, consumed))
    }
}

/// What is kept of a piece stays within the bound, together with what was
/// accepted before.
pub proof fn accepted_total_stays_within_the_bound(
    limit: DaeLengthLimit,
    chunk: Seq<u8>,
    already: usize,
)
    requires
        match limit.bound {
            DaeBound::Bytes(max) => already <= max,
            DaeBound::Utf16Units(max) => already <= max,
        },
    ensures
        match limit.bound {
            DaeBound::Bytes(max) => already + kept_of(limit, chunk, already).1 <= max,
            DaeBound::Utf16Units(max) => already + kept_of(limit, chunk, already).1 <= max,
        },
{
    if let DaeBound::Utf16Units(max) = limit.bound {
        lemma_bytes_within(chunk, room_left(max, already), 0);
    }
}

/// Counting units byte by byte gives the same total however the bytes are cut
/// into pieces.
pub proof fn units_add_up_over_pieces(first: Seq<u8>, second: Seq<u8>)
    ensures
        units_before(first + second, (first + second).len() as int) == units_before(
            first,
            first.len() as int,
        ) + units_before(second, second.len() as int),
{
    lemma_units_of_prefix(first, second, first.len() as int);
    lemma_units_of_suffix(first, second, second.len() as int);
}

/// Counting units byte by byte gives the length of the text in UTF-16 units.
pub proof fn byte_units_add_up_to_the_utf16_length(text: Seq<char>)
    ensures
        ({
            let bytes = vstd::utf8::encode_utf8(text);
            units_before(bytes, bytes.len() as int) == unicode::utf16_of(text).len()
        }),
    decreases text.len(),
{
    if text.len() > 0 {
        let front = text.drop_last();
        let c = text.last();
        let bytes = vstd::utf8::encode_utf8(seq![c]);
        byte_units_add_up_to_the_utf16_length(front);
        assert(text =~= front + seq![c]);
        unicode::lemma_encode_utf8_adds(front, seq![c]);
        unicode::lemma_utf16_of_adds(front, seq![c]);
        unicode::lemma_char_bytes(c);
        units_add_up_over_pieces(vstd::utf8::encode_utf8(front), bytes);
        reveal_with_fuel(units_before, 5);
    }
}

proof fn lemma_units_of_prefix(first: Seq<u8>, second: Seq<u8>, n: int)
    requires
        0 <= n <= first.len(),
    ensures
        units_before(first + second, n) == units_before(first, n),
    decreases n,
{
    if n > 0 {
        lemma_units_of_prefix(first, second, n - 1);
    }
}

proof fn lemma_units_of_suffix(first: Seq<u8>, second: Seq<u8>, n: int)
    requires
        0 <= n <= second.len(),
    ensures
        units_before(first + second, first.len() + n) == units_before(
            first + second,
            first.len() as int,
        ) + units_before(second, n),
    decreases n,
{
    if n > 0 {
        lemma_units_of_suffix(first, second, n - 1);
    }
}

/// The limit a declaration puts on a parameter, in the declaration's own
/// units; nothing for the `max` spellings.
pub open spec fn declared_units(sql_type: i16, column_size: usize) -> Result<
    Option<usize>,
    ParamBuildError,
> {
    match param_convert::family_of(sql_type) {
        Some(SqlFamily::Character) => match param_convert::character_limits(
            sql_type,
            column_size,
        ) {
            Ok((_, limit)) => Ok(limit),
            Err(error) => Err(error),
        },
        _ => match param_convert::binary_limits(sql_type, column_size) {
            Ok((_, limit)) => Ok(limit),
            Err(error) => Err(error),
        },
    }
}

/// The limit a parameter is held to while its pieces arrive. Nothing where the
/// declaration does not count the units of the buffer: across families, and
/// for the `max` spellings.
pub open spec fn length_limit_of(c_type: i16, sql_type: i16, column_size: usize) -> Result<
    Option<DaeLengthLimit>,
    ParamBuildError,
> {
    let family = param_convert::family_of(sql_type);
    if c_type != SQL_C_CHAR && c_type != SQL_C_WCHAR && c_type != SQL_C_BINARY {
        Err(ParamBuildError::UnsupportedCType(c_type))
    } else if c_type == SQL_C_BINARY && family != Some(SqlFamily::Binary) || c_type != SQL_C_BINARY
        && family != Some(SqlFamily::Character) {
        Ok(None)
    } else {
        match declared_units(sql_type, column_size) {
            Err(error) => Err(error),
            Ok(None) => Ok(None),
            Ok(Some(units)) => Ok(
                Some(
                    if c_type == SQL_C_CHAR {
                        DaeLengthLimit {
                            bound: DaeBound::Utf16Units(units),
                            pad: PadUnit::Blank,
                        }
                    } else if c_type == SQL_C_WCHAR {
                        DaeLengthLimit {
                            bound: DaeBound::Bytes(
                                if units * 2 > usize::MAX {
                                    usize::MAX
                                } else {
                                    (units * 2) as usize
                                },
                            ),
                            pad: PadUnit::WideBlank,
                        }
                    } else {
                        DaeLengthLimit { bound: DaeBound::Bytes(units), pad: PadUnit::Zero }
                    },
                ),
            ),
        }
    }
}

/// The limit a parameter is held to while its pieces arrive.
pub fn dae_length_limit(c_type: i16, sql_type: i16, column_size: usize) -> (result: Result<
    Option<DaeLengthLimit>,
    ParamBuildError,
>)
    ensures
        result == length_limit_of(c_type, sql_type, column_size),
{
    match c_type {
        SQL_C_WCHAR | SQL_C_CHAR | SQL_C_BINARY => {},
        other => {
            return Err(ParamBuildError::UnsupportedCType(other));
        },
    }
    let same_unit: bool = match sql_family(sql_type) {
        Some(SqlFamily::Binary) => c_type == SQL_C_BINARY,
        Some(SqlFamily::Character) => c_type != SQL_C_BINARY,
        _ => false,
    };
    if !same_unit {
        return Ok(None);
    }
    let units: Option<usize> = match sql_type {
        SQL_CHAR => Some(fixed_length(column_size, SQL_PREC_BIGCHARBINARY)? as usize),
        SQL_WCHAR => Some(fixed_length(column_size, SQL_PREC_NCHAR)? as usize),
        SQL_BINARY => Some(fixed_length(column_size, SQL_PREC_BIGCHARBINARY)? as usize),
        SQL_VARCHAR => match variable_length(column_size, SQL_PREC_BIGCHARBINARY) {
            Some(length) => Some(length as usize),
            None => None,
        },
        SQL_WVARCHAR => match variable_length(column_size, SQL_PREC_NCHAR) {
            Some(length) => Some(length as usize),
            None => None,
        },
        SQL_VARBINARY => match variable_length(column_size, SQL_PREC_BIGCHARBINARY) {
            Some(length) => Some(length as usize),
            None => None,
        },
        SQL_LONGVARCHAR => Some(
            if column_size < SQL_PREC_TEXTIMAGE { column_size } else { SQL_PREC_TEXTIMAGE },
        ),
        SQL_WLONGVARCHAR => Some(
            if column_size < SQL_PREC_NTEXT { column_size } else { SQL_PREC_NTEXT },
        ),
        SQL_LONGVARBINARY => Some(
            if column_size < SQL_PREC_TEXTIMAGE { column_size } else { SQL_PREC_TEXTIMAGE },
        ),
        other => {
            return Err(ParamBuildError::UnsupportedSqlType(other));
        },
    };
    match units {
        None => Ok(None),
        Some(units) => Ok(
            Some(
                match c_type {
                    SQL_C_CHAR => DaeLengthLimit {
                        bound: DaeBound::Utf16Units(units),
                        pad: PadUnit::Blank,
                    },
                    SQL_C_WCHAR => DaeLengthLimit {
                        bound: DaeBound::Bytes(
                            match units.checked_mul(2) {
                                Some(bytes) => bytes,
                                None => usize::MAX,
                            },
                        ),
                        pad: PadUnit::WideBlank,
                    },
                    _ => DaeLengthLimit { bound: DaeBound::Bytes(units), pad: PadUnit::Zero },
                },
            ),
        ),
    }
}

/// The types that are streamed in pieces.
#[derive(Debug, Clone, Copy, PartialEq, Eq, Structural)]
pub enum StreamedSqlType {
    VarcharMax,
    NVarcharMax,
    VarBinaryMax,
}

/// How a parameter supplied at execution reaches the server.
#[derive(Debug, Clone, Copy, PartialEq, Eq, Structural)]
pub enum DaePlan {
    /// Streamed, piece by piece.
    Stream(StreamedSqlType),
    /// Collected, then converted whole.
    Buffer,
}

impl DaePlan {
    /// Whether the pieces are collected first.
    pub fn is_buffered(self) -> (buffered: bool)
        ensures
            buffered <==> self == DaePlan::Buffer,
    {
        matches!(self, DaePlan::Buffer)
    }
}

/// How a parameter supplied at execution reaches the server, by its SQL type
/// alone.
pub open spec fn plan_of(c_type: i16, sql_type: i16) -> Result<DaePlan, ParamBuildError> {
    if c_type != SQL_C_CHAR && c_type != SQL_C_WCHAR && c_type != SQL_C_BINARY {
        Err(ParamBuildError::UnsupportedCType(c_type))
    } else if param_convert::family_of(sql_type) is None {
        Err(ParamBuildError::UnsupportedSqlType(sql_type))
    } else if sql_type == SQL_VARCHAR || sql_type == SQL_LONGVARCHAR {
        Ok(DaePlan::Stream(StreamedSqlType::VarcharMax))
    } else if sql_type == SQL_WVARCHAR || sql_type == SQL_WLONGVARCHAR {
        Ok(DaePlan::Stream(StreamedSqlType::NVarcharMax))
    } else if sql_type == SQL_VARBINARY || sql_type == SQL_LONGVARBINARY {
        Ok(DaePlan::Stream(StreamedSqlType::VarBinaryMax))
    } else {
        Ok(DaePlan::Buffer)
    }
}

/// How a parameter supplied at execution reaches the server.
pub fn dae_plan(c_type: i16, sql_type: i16) -> (result: Result<DaePlan, ParamBuildError>)
    ensures
        result == plan_of(c_type, sql_type),
{
    if !matches!(c_type, SQL_C_CHAR | SQL_C_WCHAR | SQL_C_BINARY) {
        return Err(ParamBuildError::UnsupportedCType(c_type));
    }
    if sql_family(sql_type).is_none() {
        return Err(ParamBuildError::UnsupportedSqlType(sql_type));
    }
    match sql_type {
        SQL_VARCHAR | SQL_LONGVARCHAR => Ok(DaePlan::Stream(StreamedSqlType::VarcharMax)),
        SQL_WVARCHAR | SQL_WLONGVARCHAR => Ok(DaePlan::Stream(StreamedSqlType::NVarcharMax)),
        SQL_VARBINARY | SQL_LONGVARBINARY => Ok(DaePlan::Stream(StreamedSqlType::VarBinaryMax)),
        _ => Ok(DaePlan::Buffer),
    }
}

/// What a streamed parameter is declared as, where its size is not a `max`
/// spelling.
pub open spec fn streamed_declaration_of(sql_type: i16, column_size: usize) -> Result<
    Option<SqlTypeView>,
    ParamBuildError,
> {
    let narrow = param_convert::variable_length_of(column_size, SQL_PREC_BIGCHARBINARY);
    let wide = param_convert::variable_length_of(column_size, SQL_PREC_NCHAR);
    if sql_type == SQL_VARCHAR {
        Ok(
            match narrow {
                Some(n) => Some(SqlTypeView::Varchar(None, n)),
                None => None,
            },
        )
    } else if sql_type == SQL_WVARCHAR {
        Ok(
            match wide {
                Some(n) => Some(SqlTypeView::NVarchar(None, n)),
                None => None,
            },
        )
    } else if sql_type == SQL_VARBINARY {
        Ok(
            match narrow {
                Some(n) => Some(SqlTypeView::VarBinary(None, n)),
                None => None,
            },
        )
    } else if sql_type == SQL_LONGVARCHAR || sql_type == SQL_WLONGVARCHAR || sql_type
        == SQL_LONGVARBINARY {
        Ok(None)
    } else {
        Err(ParamBuildError::UnsupportedSqlType(sql_type))
    }
}

/// What a streamed parameter is declared as, where its size is not a `max`
/// spelling.
pub fn dae_streamed_declaration(sql_type: i16, column_size: usize) -> (result: Result<
    Option<SqlType>,
    ParamBuildError,
>)
    ensures
        match (result, streamed_declaration_of(sql_type, column_size)) {
            (Ok(Some(r)), Ok(Some(v))) => r@ == v,
            (Ok(None), Ok(None)) => true,
            (Err(r), Err(v)) => r == v,
            _ => false,
        },
{
    match sql_type {
        SQL_VARCHAR => Ok(
            match variable_length(column_size, SQL_PREC_BIGCHARBINARY) {
                Some(length) => Some(SqlType::Varchar(None, length)),
                None => None,
            },
        ),
        SQL_WVARCHAR => Ok(
            match variable_length(column_size, SQL_PREC_NCHAR) {
                Some(length) => Some(SqlType::NVarchar(None, length)),
                None => None,
            },
        ),
        SQL_VARBINARY => Ok(
            match variable_length(column_size, SQL_PREC_BIGCHARBINARY) {
                Some(length) => Some(SqlType::VarBinary(None, length)),
                None => None,
            },
        ),
        SQL_LONGVARCHAR | SQL_WLONGVARCHAR | SQL_LONGVARBINARY => Ok(None),
        other => Err(ParamBuildError::UnsupportedSqlType(other)),
    }
}

/// Units never grow fewer.
proof fn lemma_units_grow(bytes: Seq<u8>, n: int, m: int)
    requires
        0 <= n <= m,
    ensures
        units_before(bytes, n) <= units_before(bytes, m),
    decreases m - n,
{
    if n < m {
        lemma_units_grow(bytes, n, m - 1);
    }
}

/// Blanks are one unit each.
proof fn lemma_units_of_blanks(bytes: Seq<u8>, n: int, m: int)
    requires
        0 <= n <= m,
        forall|k: int| n <= k < m ==> #[trigger] bytes[k] == 32u8,
    ensures
        units_before(bytes, m) == units_before(bytes, n) + m - n,
    decreases m - n,
{
    if n < m {
        lemma_units_of_blanks(bytes, n, m - 1);
        assert(bytes[m - 1] == 32u8);
    }
}

/// The bytes that trimming a text leaves.
pub open spec fn trimmed_text_bytes(text: param_convert::TextView, limit: usize) -> Result<
    Seq<u8>,
    ParamBuildError,
> {
    match param_convert::trimmed_text(text, limit) {
        Ok(fitted) => Ok(fitted.0),
        Err(error) => Err(error),
    }
}

/// A narrow text in one piece is fitted as a whole one is trimmed.
proof fn lemma_narrow_piece(text: Seq<char>, max: usize)
    ensures
        fitted(
            DaeLengthLimit { bound: DaeBound::Utf16Units(max), pad: PadUnit::Blank },
            param_convert::narrow_text(text).0,
            0,
        ) == trimmed_text_bytes(param_convert::narrow_text(text), max),
{
    let bytes = param_convert::narrow_text(text).0;
    let limit = DaeLengthLimit { bound: DaeBound::Utf16Units(max), pad: PadUnit::Blank };
    let len = bytes.len() as int;
    let total = units_before(bytes, len);
    let overflow = total - max;
    let keep = len - overflow;
    let kept = bytes_within(bytes, max as int, 0);
    byte_units_add_up_to_the_utf16_length(text);
    param_convert::lemma_buffers_hold_the_text(text);
    lemma_bytes_within(bytes, max as int, 0);
    assert(kept_of(limit, bytes, 0).0 == kept);
    if overflow <= 0 {
        if kept < len {
            lemma_units_grow(bytes, kept + 1, len);
        }
        assert(bytes.take(kept) =~= bytes);
    } else {
        let tail = bytes.skip(keep);
        if param_convert::all_blanks(tail, param_convert::EncodingType::Utf8) {
            assert forall|k: int| keep <= k < len implies #[trigger] bytes[k] == 32u8 by {
                assert(tail[k - keep] == bytes[k]);
            }
            lemma_units_of_blanks(bytes, keep, len);
            lemma_units_of_blanks(bytes, keep, keep + 1);
            if kept < keep {
                lemma_units_grow(bytes, kept + 1, keep);
            }
            if kept > keep {
                lemma_units_grow(bytes, keep + 1, kept);
            }
            assert(kept == keep);
            assert(is_padding(limit.pad, tail));
        }
        if is_padding(limit.pad, bytes.skip(kept)) {
            assert forall|k: int| kept <= k < len implies #[trigger] bytes[k] == 32u8 by {
                assert(bytes.skip(kept)[k - kept] == bytes[k]);
            }
            lemma_units_of_blanks(bytes, kept, len);
            lemma_units_of_blanks(bytes, kept, kept + 1);
            assert(kept == keep);
            assert(param_convert::all_blanks(tail, param_convert::EncodingType::Utf8));
        }
    }
}

/// A wide text in one piece is fitted as a whole one is trimmed.
proof fn lemma_wide_piece(bytes: Seq<u8>, max: usize, bound: usize)
    requires
        bytes.len() % 2 == 0,
        bytes.len() <= usize::MAX,
        bound == if max * 2 > usize::MAX {
            usize::MAX as int
        } else {
            max * 2
        },
    ensures
        fitted(
            DaeLengthLimit { bound: DaeBound::Bytes(bound), pad: PadUnit::WideBlank },
            bytes,
            0,
        ) == trimmed_text_bytes((bytes, param_convert::EncodingType::Utf16), max),
{
    let limit = DaeLengthLimit { bound: DaeBound::Bytes(bound), pad: PadUnit::WideBlank };
    let kept = kept_of(limit, bytes, 0).0;
    let tail = bytes.skip(kept);
    if kept == bytes.len() {
        assert(bytes.take(kept) =~= bytes);
    } else {
        assert(kept == 2 * max);
        assert(bytes.len() - (bytes.len() as int / 2 - max) * 2 == 2 * max);
        if is_padding(limit.pad, tail) {
            assert forall|k: int| 0 <= k < tail.len() implies #[trigger] tail[k] == (if k % 2 == 1 {
                0u8
            } else {
                32u8
            }) by {
                assert(tail[k] == pad_byte(limit.pad, k));
            }
        }
        if param_convert::all_blanks(tail, param_convert::EncodingType::Utf16) {
            assert forall|k: int| 0 <= k < tail.len() implies #[trigger] tail[k] == pad_byte(
                limit.pad,
                k,
            ) by {}
        }
    }
}

/// A text that arrives in one piece is held to the same limit as one that is
/// there as a whole: both are declared alike, or refused alike, and what is kept
/// of the piece are the bytes that trimming the whole leaves, in a narrow buffer
/// and in a wide one.
pub proof fn a_piece_of_text_is_fitted_as_the_whole_is_trimmed(
    sql_type: i16,
    column_size: usize,
    text: Seq<char>,
)
    requires
        param_convert::family_of(sql_type) == Some(SqlFamily::Character),
        param_convert::wide_text(text).0.len() <= usize::MAX,
    ensures
        ({
            let narrow = length_limit_of(SQL_C_CHAR, sql_type, column_size);
            let wide = length_limit_of(SQL_C_WCHAR, sql_type, column_size);
            match param_convert::character_limits(sql_type, column_size) {
                Err(error) => {
                    &&& narrow == Err::<Option<DaeLengthLimit>, ParamBuildError>(error)
                    &&& wide == Err::<Option<DaeLengthLimit>, ParamBuildError>(error)
                },
                Ok((_, None)) => {
                    &&& narrow == Ok::<Option<DaeLengthLimit>, ParamBuildError>(None)
                    &&& wide == Ok::<Option<DaeLengthLimit>, ParamBuildError>(None)
                },
                Ok((_, Some(max))) => {
                    &&& narrow matches Ok(Some(limit)) && fitted(
                        limit,
                        param_convert::narrow_text(text).0,
                        0,
                    ) == trimmed_text_bytes(param_convert::narrow_text(text), max)
                    &&& wide matches Ok(Some(limit)) && fitted(
                        limit,
                        param_convert::wide_text(text).0,
                        0,
                    ) == trimmed_text_bytes(param_convert::wide_text(text), max)
                },
            }
        }),
{
    if let Ok((_, Some(max))) = param_convert::character_limits(sql_type, column_size) {
        lemma_narrow_piece(text, max);
        let bound = if max * 2 > usize::MAX {
            usize::MAX
        } else {
            (max * 2) as usize
        };
        lemma_wide_piece(param_convert::wide_text(text).0, max, bound);
    }
}

/// Bytes that arrive in one piece are held to the same limit as bytes that are
/// there as a whole.
pub proof fn a_piece_of_bytes_is_fitted_as_the_whole_is_trimmed(
    sql_type: i16,
    column_size: usize,
    bytes: Seq<u8>,
)
    requires
        param_convert::family_of(sql_type) == Some(SqlFamily::Binary),
    ensures
        ({
            let binary = length_limit_of(SQL_C_BINARY, sql_type, column_size);
            match param_convert::binary_limits(sql_type, column_size) {
                Err(error) => binary == Err::<Option<DaeLengthLimit>, ParamBuildError>(error),
                Ok((_, None)) => binary == Ok::<Option<DaeLengthLimit>, ParamBuildError>(None),
                Ok((_, Some(max))) => binary matches Ok(Some(limit)) && fitted(limit, bytes, 0)
                    == param_convert::trimmed_bytes(bytes, max),
            }
        }),
{
    if let Ok((_, Some(max))) = param_convert::binary_limits(sql_type, column_size) {
        let limit = DaeLengthLimit { bound: DaeBound::Bytes(max), pad: PadUnit::Zero };
        let kept = kept_of(limit, bytes, 0).0;
        let tail = bytes.skip(kept);
        if kept == bytes.len() {
            assert(bytes.take(kept) =~= bytes);
        } else {
            assert(is_padding(limit.pad, tail) <==> param_convert::all_zeros(tail)) by {
                if param_convert::all_zeros(tail) {
                    assert forall|k: int| 0 <= k < tail.len() implies #[trigger] tail[k] == pad_byte(
                        limit.pad,
                        k,
                    ) by {}
                }
                if is_padding(limit.pad, tail) {
                    assert forall|k: int| 0 <= k < tail.len() implies #[trigger] tail[k] == 0 by {
                        assert(tail[k] == pad_byte(limit.pad, k));
                    }
                }
            }
        }
    }
}

/// The bytes, or the UTF-16 units, that a limit lets through.
pub open spec fn bound_of(limit: DaeLengthLimit) -> int {
    match limit.bound {
        DaeBound::Bytes(max) => max as int,
        DaeBound::Utf16Units(max) => max as int,
    }
}

/// How much of its bound a piece uses as a whole.
pub open spec fn size_of_piece(limit: DaeLengthLimit, chunk: Seq<u8>) -> int {
    match limit.bound {
        DaeBound::Bytes(_) => chunk.len() as int,
        DaeBound::Utf16Units(_) => units_before(chunk, chunk.len() as int),
    }
}

/// A piece is accepted as a whole wherever it fits beside what was accepted
/// before, and uses its own size; a longer one is cut, and what is kept of it
/// fits.
pub proof fn a_piece_that_fits_is_kept_whole(
    limit: DaeLengthLimit,
    chunk: Seq<u8>,
    already: usize,
)
    requires
        already <= bound_of(limit),
    ensures
        already + size_of_piece(limit, chunk) <= bound_of(limit) ==> {
            &&& fitted(limit, chunk, already) == Ok::<Seq<u8>, ParamBuildError>(chunk)
            &&& kept_of(limit, chunk, already) == (
                chunk.len() as int,
                size_of_piece(limit, chunk),
            )
        },
        already + size_of_piece(limit, chunk) > bound_of(limit) ==> {
            &&& kept_of(limit, chunk, already).0 < chunk.len()
            &&& already + kept_of(limit, chunk, already).1 <= bound_of(limit)
            &&& limit.bound is Bytes ==> already + kept_of(limit, chunk, already).1 == bound_of(
                limit,
            )
        },
{
    assert(chunk.take(chunk.len() as int) =~= chunk);
    if let DaeBound::Utf16Units(max) = limit.bound {
        let room = room_left(max, already);
        let kept = bytes_within(chunk, room, 0);
        lemma_bytes_within(chunk, room, 0);
        if units_before(chunk, chunk.len() as int) <= room && kept < chunk.len() {
            lemma_units_grow(chunk, kept + 1, chunk.len() as int);
        }
    }
}

/// Padding behind padding is padding, where the first is whole units of it.
proof fn lemma_padding_adds(pad: PadUnit, first: Seq<u8>, second: Seq<u8>)
    requires
        pad is WideBlank ==> first.len() % 2 == 0,
    ensures
        is_padding(pad, first + second) <==> is_padding(pad, first) && is_padding(pad, second),
{
    let whole = first + second;
    if is_padding(pad, whole) {
        assert forall|k: int| 0 <= k < first.len() implies #[trigger] first[k] == pad_byte(
            pad,
            k,
        ) by {
            assert(whole[k] == first[k]);
        }
        assert forall|k: int| 0 <= k < second.len() implies #[trigger] second[k] == pad_byte(
            pad,
            k,
        ) by {
            assert(whole[first.len() + k] == second[k]);
        }
    }
    if is_padding(pad, first) && is_padding(pad, second) {
        assert forall|k: int| 0 <= k < whole.len() implies #[trigger] whole[k] == pad_byte(
            pad,
            k,
        ) by {
            if k < first.len() {
                assert(whole[k] == first[k]);
            } else {
                assert(whole[k] == second[k - first.len()]);
            }
        }
    }
}

/// A limit of units keeps the same bytes of two pieces as of both together, as
/// far as the first is kept whole.
proof fn lemma_units_within_two(a: Seq<u8>, b: Seq<u8>, room: int, n: int)
    requires
        0 <= n <= a.len(),
        units_before(a, a.len() as int) <= room,
        units_before(a + b, n) <= room,
    ensures
        bytes_within(a + b, room, n) == a.len() + bytes_within(
            b,
            room - units_before(a, a.len() as int),
            0,
        ),
    decreases a.len() - n,
{
    if n < a.len() {
        lemma_units_of_prefix(a, b, n + 1);
        lemma_units_grow(a, n + 1, a.len() as int);
        lemma_units_within_two(a, b, room, n + 1);
    } else {
        lemma_within_behind(a, b, room, 0);
    }
}

/// Bytes kept behind others.
proof fn lemma_within_behind(a: Seq<u8>, b: Seq<u8>, room: int, n: int)
    requires
        0 <= n <= b.len(),
    ensures
        bytes_within(a + b, room, a.len() + n) == a.len() + bytes_within(
            b,
            room - units_before(a, a.len() as int),
            n,
        ),
    decreases b.len() - n,
{
    if n < b.len() {
        lemma_units_of_prefix(a, b, a.len() as int);
        lemma_units_of_suffix(a, b, n + 1);
        lemma_within_behind(a, b, room, n + 1);
    }
}

/// A cut in the first piece is a cut at the same place in both together.
proof fn lemma_cut_in_first(a: Seq<u8>, b: Seq<u8>, room: int, n: int)
    requires
        0 <= n <= a.len(),
        units_before(a, n) <= room,
        bytes_within(a, room, n) < a.len(),
    ensures
        bytes_within(a + b, room, n) == bytes_within(a, room, n),
    decreases a.len() - n,
{
    if n < a.len() {
        lemma_units_of_prefix(a, b, n + 1);
        if units_before(a, n + 1) <= room {
            lemma_cut_in_first(a, b, room, n + 1);
        }
    }
}

/// Cutting a value into pieces changes nothing. Where the value is accepted in
/// one piece, it is accepted in two, of which the second is given what the first
/// used, and the bytes kept of both are the bytes kept of the whole, with the
/// same size. Where the whole is refused, so is one of the pieces, unless the
/// second starts with a byte that continues a character of which the first has
/// nothing left. Wide padding is cut between its units.
pub proof fn pieces_are_fitted_as_the_whole(
    limit: DaeLengthLimit,
    a: Seq<u8>,
    b: Seq<u8>,
    already: usize,
)
    requires
        already <= bound_of(limit),
        limit.pad is WideBlank ==> a.len() % 2 == 0 && (bound_of(limit) - already) % 2 == 0
            && limit.bound is Bytes,
        a.len() <= usize::MAX,
    ensures
        ({
            let first = fitted(limit, a, already);
            let used = (already + kept_of(limit, a, already).1) as usize;
            let second = fitted(limit, b, used);
            let whole = fitted(limit, a + b, already);
            &&& already <= used <= bound_of(limit)
            &&& whole is Ok ==> {
                &&& first is Ok
                &&& second is Ok
                &&& whole->Ok_0 == first->Ok_0 + second->Ok_0
                &&& kept_of(limit, a + b, already).1 == kept_of(limit, a, already).1 + kept_of(
                    limit,
                    b,
                    used,
                ).1
            }
            &&& whole is Err && (limit.bound is Bytes || b.len() == 0 || !(0x80 <= b[0] < 0xC0)
                || already + size_of_piece(limit, a) <= bound_of(limit)) ==> first is Err
                || second is Err
        }),
{
    let both = a + b;
    let used = already + kept_of(limit, a, already).1;
    match limit.bound {
        DaeBound::Bytes(max) => {
            let room = room_left(max, already);
            if a.len() <= room {
                assert(a.take(a.len() as int) =~= a);
                let kept = kept_of(limit, b, used as usize).0;
                assert(kept_of(limit, both, already).0 == a.len() + kept);
                assert(both.skip(a.len() + kept) =~= b.skip(kept));
                assert(both.take(a.len() + kept) =~= a + b.take(kept));
                assert(a.skip(a.len() as int) =~= Seq::<u8>::empty());
            } else {
                assert(kept_of(limit, both, already).0 == room);
                assert(kept_of(limit, b, used as usize).0 == 0);
                assert(both.skip(room) =~= a.skip(room) + b);
                assert(both.take(room) =~= a.take(room) + b.take(0));
                assert(b.skip(0) =~= b);
                lemma_padding_adds(limit.pad, a.skip(room), b);
            }
        },
        DaeBound::Utf16Units(max) => {
            let room = room_left(max, already);
            lemma_bytes_within(a, room, 0);
            let kept_a = bytes_within(a, room, 0);
            lemma_units_bounded(a, kept_a);
            if kept_a == a.len() {
                let left = room - units_before(a, a.len() as int);
                assert(room_left(max, used as usize) == left);
                lemma_bytes_within(b, left, 0);
                lemma_units_within_two(a, b, room, 0);
                let kept_b = bytes_within(b, left, 0);
                lemma_units_of_prefix(a, b, a.len() as int);
                lemma_units_of_suffix(a, b, kept_b);
                assert(both.skip(a.len() + kept_b) =~= b.skip(kept_b));
                assert(both.take(a.len() + kept_b) =~= a.take(kept_a) + b.take(kept_b));
                assert(a.skip(a.len() as int) =~= Seq::<u8>::empty());
            } else {
                lemma_cut_in_first(a, b, room, 0);
                lemma_units_of_prefix(a, b, kept_a);
                lemma_units_grow(a, kept_a + 1, a.len() as int);
                let tail = a.skip(kept_a);
                assert(both.skip(kept_a) =~= tail + b);
                lemma_padding_adds(limit.pad, tail, b);
                assert(tail[0] == a[kept_a]);
                if is_padding(limit.pad, tail) {
                    assert(tail[0] == pad_byte(limit.pad, 0));
                    assert(units_before(a, kept_a) == room);
                    assert(room_left(max, used as usize) == 0);
                    lemma_bytes_within(b, 0, 0);
                    if b.len() > 0 && !(0x80 <= b[0] < 0xC0) {
                        assert(units_before(b, 1) == units_before(b, 0) + byte_units(b[0]));
                        assert(bytes_within(b, 0, 0) == 0);
                        assert(b.skip(0) =~= b);
                        assert(both.take(kept_a) =~= a.take(kept_a) + b.take(0));
                    }
                    if b.len() == 0 {
                        assert(b.skip(0) =~= b);
                        assert(b.take(0) =~= b);
                        assert(both.take(kept_a) =~= a.take(kept_a) + b);
                        assert(bytes_within(b, 0, 0) == 0);
                    }
                    if is_padding(limit.pad, b) && b.len() > 0 {
                        assert(b[0] == pad_byte(limit.pad, 0));
                    }
                }
            }
        },
    }
}

/// What overflows a limit is dropped exactly where it is padding: blanks in
/// UTF-8, blanks in UTF-16 with the last one possibly cut short, or zeros.
pub proof fn only_padding_is_dropped(limit: DaeLengthLimit, chunk: Seq<u8>, already: usize, k: int)
    requires
        0 <= kept_of(limit, chunk, already).0 <= k < chunk.len(),
    ensures
        ({
            let kept = kept_of(limit, chunk, already).0;
            let blank = (limit.pad is Blank ==> chunk[k] == 0x20) && (limit.pad is Zero ==> chunk[k]
                == 0) && (limit.pad is WideBlank ==> chunk[k] == (if (k - kept) % 2 == 0 {
                0x20u8
            } else {
                0u8
            }));
            &&& fitted(limit, chunk, already) is Ok ==> blank
            &&& !blank ==> fitted(limit, chunk, already) == Err::<Seq<u8>, ParamBuildError>(
                ParamBuildError::StringTruncation,
            )
        }),
{
    let kept = kept_of(limit, chunk, already).0;
    assert(chunk.skip(kept)[k - kept] == chunk[k]);
}

/// A value that overflows its limit by padding alone is accepted without it.
pub proof fn padding_is_dropped(limit: DaeLengthLimit, chunk: Seq<u8>, already: usize)
    requires
        0 <= kept_of(limit, chunk, already).0 <= chunk.len(),
        forall|k: int|
            #![trigger chunk[k]]
            kept_of(limit, chunk, already).0 <= k < chunk.len() ==> match limit.pad {
                PadUnit::Blank => chunk[k] == 0x20,
                PadUnit::WideBlank => chunk[k] == (if (k - kept_of(limit, chunk, already).0) % 2
                    == 0 {
                    0x20u8
                } else {
                    0u8
                }),
                PadUnit::Zero => chunk[k] == 0,
            },
    ensures
        fitted(limit, chunk, already) == Ok::<Seq<u8>, ParamBuildError>(
            chunk.take(kept_of(limit, chunk, already).0),
        ),
{
    let kept = kept_of(limit, chunk, already).0;
    let tail = chunk.skip(kept);
    assert forall|j: int| 0 <= j < tail.len() implies #[trigger] tail[j] == pad_byte(
        limit.pad,
        j,
    ) by {
        assert(tail[j] == chunk[kept + j]);
    }
}

/// A limit counts only where the buffer's units are the declaration's: not across
/// families, and for no type of C but text and bytes.
pub proof fn a_limit_is_one_of_the_same_family(c_type: i16, sql_type: i16, column_size: usize)
    ensures
        ({
            let limit = length_limit_of(c_type, sql_type, column_size);
            let of_text = c_type == SQL_C_CHAR || c_type == SQL_C_WCHAR;
            let to_text = sql_type == SQL_CHAR || sql_type == SQL_VARCHAR || sql_type
                == SQL_LONGVARCHAR || sql_type == SQL_WCHAR || sql_type == SQL_WVARCHAR || sql_type
                == SQL_WLONGVARCHAR;
            let to_bytes = sql_type == SQL_BINARY || sql_type == SQL_VARBINARY || sql_type
                == SQL_LONGVARBINARY;
            &&& !of_text && c_type != SQL_C_BINARY ==> limit == Err::<
                Option<DaeLengthLimit>,
                ParamBuildError,
            >(ParamBuildError::UnsupportedCType(c_type))
            &&& of_text && !to_text || c_type == SQL_C_BINARY && !to_bytes ==> limit == Ok::<
                Option<DaeLengthLimit>,
                ParamBuildError,
            >(None)
            &&& of_text && to_text ==> match limit {
                Ok(Some(bounded)) => param_convert::character_room(sql_type, column_size) == Some(
                    if c_type == SQL_C_CHAR {
                        bound_of(bounded)
                    } else {
                        bound_of(bounded) / 2
                    },
                ) || c_type == SQL_C_WCHAR && bound_of(bounded) == usize::MAX,
                Ok(None) => param_convert::character_room(sql_type, column_size) is None,
                Err(error) => error == ParamBuildError::InvalidParameterSize(column_size)
                    && !param_convert::declarable(sql_type, column_size),
            }
            &&& c_type == SQL_C_BINARY && to_bytes ==> match limit {
                Ok(Some(bounded)) => param_convert::binary_room(sql_type, column_size) == Some(
                    bound_of(bounded),
                ) && bounded.bound is Bytes && bounded.pad is Zero,
                Ok(None) => param_convert::binary_room(sql_type, column_size) is None,
                Err(error) => error == ParamBuildError::InvalidParameterSize(column_size)
                    && !param_convert::declarable(sql_type, column_size),
            }
            &&& limit matches Ok(Some(bounded)) ==> {
                &&& c_type == SQL_C_CHAR ==> bounded.bound is Utf16Units && bounded.pad is Blank
                &&& c_type == SQL_C_WCHAR ==> bounded.bound is Bytes && bounded.pad is WideBlank
            }
        }),
{
}

/// A parameter is streamed exactly where its type has a form without a limit, and
/// as that form; every other type that values convert to is collected first.
pub proof fn what_has_no_limit_is_streamed(c_type: i16, sql_type: i16, decimal_digits: i16)
    requires
        c_type == SQL_C_CHAR || c_type == SQL_C_WCHAR || c_type == SQL_C_BINARY,
    ensures
        ({
            let plan = plan_of(c_type, sql_type);
            let unbounded = param_convert::typed_null_of(sql_type, 0, decimal_digits);
            let null = |view: SqlTypeView| unbounded == Ok::<
                (SqlTypeView, Option<param_convert::RpcTypeMetadata>),
                ParamBuildError,
            >((view, None));
            &&& plan == Ok::<DaePlan, ParamBuildError>(DaePlan::Stream(StreamedSqlType::VarcharMax))
                <==> null(SqlTypeView::VarcharMax(None))
            &&& plan == Ok::<DaePlan, ParamBuildError>(
                DaePlan::Stream(StreamedSqlType::NVarcharMax),
            ) <==> null(SqlTypeView::NVarcharMax(None))
            &&& plan == Ok::<DaePlan, ParamBuildError>(
                DaePlan::Stream(StreamedSqlType::VarBinaryMax),
            ) <==> null(SqlTypeView::VarBinaryMax(None))
            &&& plan == Ok::<DaePlan, ParamBuildError>(DaePlan::Buffer) <==> sql_type == SQL_CHAR
                || sql_type == SQL_WCHAR || sql_type == SQL_BINARY || param_convert::family_of(
                sql_type,
            ) == Some(SqlFamily::Integer)
            &&& plan matches Err(error) ==> error == ParamBuildError::UnsupportedSqlType(sql_type)
        }),
{
}

/// No other type of C supplies its value in pieces.
pub proof fn only_texts_and_bytes_come_in_pieces(c_type: i16, sql_type: i16)
    ensures
        plan_of(c_type, sql_type) == Err::<DaePlan, ParamBuildError>(
            ParamBuildError::UnsupportedCType(c_type),
        ) <==> c_type != SQL_C_CHAR && c_type != SQL_C_WCHAR && c_type != SQL_C_BINARY,
{
}

/// A streamed parameter is declared as a NULL of its type is, where that has a
/// length.
pub proof fn streams_are_declared_as_nulls(sql_type: i16, column_size: usize, decimal_digits: i16)
    ensures
        streamed_declaration_of(sql_type, column_size) is Ok <==> sql_type == SQL_VARCHAR
            || sql_type == SQL_WVARCHAR || sql_type == SQL_VARBINARY || sql_type
            == SQL_LONGVARCHAR || sql_type == SQL_WLONGVARCHAR || sql_type == SQL_LONGVARBINARY,
        streamed_declaration_of(sql_type, column_size) matches Ok(declared) ==> {
            let null = param_convert::typed_null_of(sql_type, column_size, decimal_digits);
            &&& null is Ok
            &&& null->Ok_0.1 is None
            &&& declared == (if param_convert::declared_length(null->Ok_0.0) is Some {
                Some(null->Ok_0.0)
            } else {
                None
            })
        },
        streamed_declaration_of(sql_type, column_size) matches Err(error) ==> error
            == ParamBuildError::UnsupportedSqlType(sql_type),
{
}

} // verus!
