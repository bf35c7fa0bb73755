//! Re-encoding of streamed values, piece by piece.
//!
//! A piece may end inside a character. What is incomplete is carried to the
//! next piece, so that the pieces decode as the whole value does.

use vstd::prelude::*;
use vstd::slice::slice_subrange;

use super::param_convert::{self, is_wide_character_sql_type, sql_family, SqlFamily};
use super::unicode::{
    self, copy_bytes, decode_utf16le, decode_utf8_lossy, encode_utf16le, encode_utf8_bytes,
};
use crate::odbc_types::{self, SQL_C_CHAR, SQL_C_WCHAR};

verus! {

/// The collation of a database.
#[derive(Debug, Clone, Copy, PartialEq, Eq, Structural)]
pub struct SqlCollation {
    pub info: u32,
    pub lcid_language_id: i32,
    pub col_flags: u8,
    pub sort_id: u8,
}

impl Default for SqlCollation {
    /// No collation.
    fn default() -> (collation: Self)
        ensures
            collation == (SqlCollation {
                info: 0,
                lcid_language_id: 0,
                col_flags: 0,
                sort_id: 0,
            }),
    {
        SqlCollation { info: 0, lcid_language_id: 0, col_flags: 0, sort_id: 0 }
    }
}

impl SqlCollation {
    /// Whether narrow text is UTF-8 in this collation: bit 6 of its flags.
    pub open spec fn spec_utf8(self) -> bool {
        (self.col_flags / 64) % 2 == 1
    }

    /// Whether narrow text is UTF-8 in this collation.
    #[verifier::when_used_as_spec(spec_utf8)]
    pub fn utf8(self) -> (utf8: bool)
        ensures
            utf8 == self.spec_utf8(),
    {
        (self.col_flags / 64) % 2 == 1
    }
}

/// The encoding of the application's buffer.
#[derive(Debug, Clone, Copy, PartialEq, Eq, Structural)]
pub enum DaeSource {
    Raw,
    Utf8,
    Utf16,
}

/// The encoding the server takes.
#[derive(Debug, Clone, Copy, PartialEq, Eq, Structural)]
pub enum DaeTarget {
    Raw,
    Utf16,
    /// The code page of a collation.
    Narrow(SqlCollation),
}

/// One piece, re-encoded.
#[derive(Debug, Clone, PartialEq, Eq)]
pub enum Encoded {
    /// Bytes as the server takes them.
    Bytes(Vec<u8>),
    /// Text that is yet to be put into the code page of the target.
    Text(Vec<char>),
}

/// One piece, re-encoded, as a mathematical value.
pub enum EncodedView {
    Bytes(Seq<u8>),
    Text(Seq<char>),
}

impl View for Encoded {
    type V = EncodedView;

    open spec fn view(&self) -> EncodedView {
        match *self {
            Encoded::Bytes(bytes) => EncodedView::Bytes(bytes@),
            Encoded::Text(text) => EncodedView::Text(text@),
        }
    }
}

/// The re-encoding a streamed parameter needs.
#[derive(Debug, Clone, Copy, PartialEq, Eq, Structural)]
pub struct DaeTranscode {
    pub source: DaeSource,
    pub target: DaeTarget,
}

/// The source encoding of a C type.
pub open spec fn source_of(c_type: i16) -> DaeSource {
    if c_type == SQL_C_WCHAR {
        DaeSource::Utf16
    } else if c_type == SQL_C_CHAR {
        DaeSource::Utf8
    } else {
        DaeSource::Raw
    }
}

/// The target encoding of a SQL type.
pub open spec fn target_of(sql_type: i16, collation: SqlCollation) -> DaeTarget {
    if param_convert::family_of(sql_type) == Some(SqlFamily::Character) {
        if param_convert::is_wide(sql_type) {
            DaeTarget::Utf16
        } else {
            DaeTarget::Narrow(collation)
        }
    } else {
        DaeTarget::Raw
    }
}

/// The number of bytes a UTF-8 character has by its first byte.
pub open spec fn utf8_needed(byte: u8) -> int {
    if byte >= 0xF0 {
        4
    } else if byte >= 0xE0 {
        3
    } else {
        2
    }
}

/// Looks for a first byte whose character is incomplete, `back` bytes from the
/// end and further.
pub open spec fn utf8_tail_from(buf: Seq<u8>, back: int) -> int
    decreases 4 - back,
{
    if back > 3 || back > buf.len() {
        0
    } else {
        let byte = buf[buf.len() - back];
        if byte < 0x80 {
            0
        } else if byte >= 0xC0 {
            if back < utf8_needed(byte) {
                back
            } else {
                0
            }
        } else {
            utf8_tail_from(buf, back + 1)
        }
    }
}

/// How many trailing bytes begin a UTF-8 character that is not complete.
pub open spec fn utf8_tail(buf: Seq<u8>) -> int {
    utf8_tail_from(buf, 1)
}

/// How many trailing bytes begin a UTF-16 character that is not complete: half
/// a unit, and the first half of a pair.
pub open spec fn utf16_tail(buf: Seq<u8>) -> int {
    let odd = buf.len() as int % 2;
    let end = buf.len() - odd;
    if end >= 2 && unicode::is_high_surrogate((buf[end - 2] + 256 * buf[end - 1]) as u16) {
        odd + 2
    } else {
        odd
    }
}

/// How many trailing bytes begin a UTF-8 character that is not complete.
pub fn incomplete_utf8_tail(buf: &[u8]) -> (tail: usize)
    ensures
        tail == utf8_tail(buf@),
        tail <= buf@.len(),
{
    let mut back: usize = 1;
    while back <= 3 && back <= buf.len()
        invariant
            1 <= back <= 4,
            utf8_tail_from(buf@, back as int) == utf8_tail(buf@),
        decreases 4 - back,
    {
        let byte: u8 = buf[buf.len() - back];
        if byte < 0x80 {
            return 0;
        }
        if byte >= 0xC0 {
            let needed: usize = if byte >= 0xF0 {
                4
            } else if byte >= 0xE0 {
                3
            } else {
                2
            };
            return if back < needed {
                back
            } else {
                0
            };
        }
        back = back + 1;
    }
    0
}

/// How many trailing bytes begin a UTF-16 character that is not complete.
pub fn incomplete_utf16_tail(buf: &[u8]) -> (tail: usize)
    ensures
        tail == utf16_tail(buf@),
        tail <= buf@.len(),
{
    let odd: usize = buf.len() % 2;
    let units_end: usize = buf.len() - odd;
    if units_end >= 2 {
        let last: u16 = buf[units_end - 2] as u16 + 256 * (buf[units_end - 1] as u16);
        if last >= 0xD800 && last < 0xDC00 {
            return odd + 2;
        }
    }
    odd
}

/// The bytes of a buffer that are not decoded yet.
pub open spec fn tail_of(source: DaeSource, buf: Seq<u8>) -> int {
    match source {
        DaeSource::Raw => 0,
        DaeSource::Utf8 => utf8_tail(buf),
        DaeSource::Utf16 => utf16_tail(buf),
    }
}

/// The text of bytes in a source encoding.
pub open spec fn decode_of(source: DaeSource, bytes: Seq<u8>) -> Seq<char> {
    match source {
        DaeSource::Utf16 => unicode::lossy_utf16(unicode::units_of(bytes)),
        _ => unicode::utf8_text(bytes),
    }
}

/// A text in a target encoding.
pub open spec fn encode_of(target: DaeTarget, text: Seq<char>) -> EncodedView {
    match target {
        DaeTarget::Utf16 => EncodedView::Bytes(unicode::le_bytes(unicode::utf16_of(text))),
        DaeTarget::Narrow(collation) => if collation.spec_utf8() {
            EncodedView::Bytes(vstd::utf8::encode_utf8(text))
        } else {
            EncodedView::Text(text)
        },
        DaeTarget::Raw => EncodedView::Bytes(vstd::utf8::encode_utf8(text)),
    }
}

/// Whether the buffer's bytes are the server's bytes already.
pub open spec fn passes_through(transcode: DaeTranscode) -> bool {
    match (transcode.source, transcode.target) {
        (DaeSource::Raw, _) => true,
        (DaeSource::Utf16, DaeTarget::Utf16) => true,
        (DaeSource::Utf8, DaeTarget::Narrow(collation)) => collation.spec_utf8(),
        _ => false,
    }
}

/// Bytes of a buffer that are decoded now.
pub open spec fn decoded_part(source: DaeSource, buf: Seq<u8>) -> Seq<u8> {
    buf.take(buf.len() - tail_of(source, buf))
}

/// Bytes of a buffer that are carried to the next piece.
pub open spec fn carried_part(source: DaeSource, buf: Seq<u8>) -> Seq<u8> {
    buf.skip(buf.len() - tail_of(source, buf))
}

/// What a `push` gives out.
pub open spec fn pushed(transcode: DaeTranscode, carry: Seq<u8>, chunk: Seq<u8>) -> EncodedView {
    if passes_through(transcode) {
        EncodedView::Bytes(chunk)
    } else {
        encode_of(
            transcode.target,
            decode_of(transcode.source, decoded_part(transcode.source, carry + chunk)),
        )
    }
}

/// What a `push` carries on.
pub open spec fn carried(transcode: DaeTranscode, carry: Seq<u8>, chunk: Seq<u8>) -> Seq<u8> {
    if passes_through(transcode) {
        carry
    } else {
        carried_part(transcode.source, carry + chunk)
    }
}

/// What a `finish` gives out.
pub open spec fn finished(transcode: DaeTranscode, carry: Seq<u8>) -> EncodedView {
    if carry.len() == 0 {
        EncodedView::Bytes(Seq::empty())
    } else {
        encode_of(transcode.target, decode_of(transcode.source, carry))
    }
}

impl DaeTranscode {
    /// The re-encoding between a C type and a SQL type.
    pub fn new(c_type: i16, sql_type: i16, collation: SqlCollation) -> (transcode: Self)
        ensures
            transcode.source == source_of(c_type),
            transcode.target == target_of(sql_type, collation),
    {
        let source: DaeSource = match c_type {
            SQL_C_WCHAR => DaeSource::Utf16,
            SQL_C_CHAR => DaeSource::Utf8,
            _ => DaeSource::Raw,
        };
        let target: DaeTarget = match sql_family(sql_type) {
            Some(SqlFamily::Character) => if is_wide_character_sql_type(sql_type) {
                DaeTarget::Utf16
            } else {
                DaeTarget::Narrow(collation)
            },
            _ => DaeTarget::Raw,
        };
        DaeTranscode { source, target }
    }

    /// Whether the buffer's bytes are the server's bytes already, so that a
    /// piece is sent as it is and nothing is carried.
    pub fn is_passthrough(&self) -> (passthrough: bool)
        ensures
            passthrough == passes_through(*self),
    {
        match (self.source, self.target) {
            (DaeSource::Raw, _) => true,
            (DaeSource::Utf16, DaeTarget::Utf16) => true,
            (DaeSource::Utf8, DaeTarget::Narrow(collation)) => collation.utf8(),
            _ => false,
        }
    }

    /// How many trailing bytes begin a character that is not complete.
    pub fn incomplete_tail(&self, buf: &[u8]) -> (tail: usize)
        ensures
            tail == tail_of(self.source, buf@),
            tail <= buf@.len(),
    {
        match self.source {
            DaeSource::Raw => 0,
            DaeSource::Utf8 => incomplete_utf8_tail(buf),
            DaeSource::Utf16 => incomplete_utf16_tail(buf),
        }
    }

    /// The text of bytes in the source encoding.
    pub fn decode(&self, bytes: &[u8]) -> (text: Vec<char>)
        ensures
            text@ == decode_of(self.source, bytes@),
    {
        match self.source {
            DaeSource::Utf16 => decode_utf16le(bytes),
            _ => decode_utf8_lossy(bytes),
        }
    }

    /// A text in the target encoding.
    pub fn encode(&self, text: Vec<char>) -> (encoded: Encoded)
        ensures
            encoded@ == encode_of(self.target, text@),
    {
        match self.target {
            DaeTarget::Utf16 => Encoded::Bytes(encode_utf16le(text.as_slice())),
            DaeTarget::Narrow(collation) => if collation.utf8() {
                Encoded::Bytes(encode_utf8_bytes(text.as_slice()))
            } else {
                Encoded::Text(text)
            },
            DaeTarget::Raw => Encoded::Bytes(encode_utf8_bytes(text.as_slice())),
        }
    }

    /// Re-encodes every complete character of the carried bytes and a piece,
    /// and carries an incomplete one on.
    pub fn push(&self, carry: &mut Vec<u8>, chunk: &[u8]) -> (encoded: Encoded)
        ensures
            encoded@ == pushed(*self, old(carry)@, chunk@),
            final(carry)@ == carried(*self, old(carry)@, chunk@),
    {
        if self.is_passthrough() {
            return Encoded::Bytes(copy_bytes(chunk));
        }
        let ghost before = carry@;
        let mut buf: Vec<u8> = Vec::new();
        buf.append(carry);
        let mut piece: Vec<u8> = copy_bytes(chunk);
        buf.append(&mut piece);
        assert(buf@ =~= before + chunk@);
        let split: usize = buf.len() - self.incomplete_tail(buf.as_slice());
        let head = slice_subrange(buf.as_slice(), 0, split);
        let tail = slice_subrange(buf.as_slice(), split, buf.len());
        assert(head@ =~= decoded_part(self.source, buf@));
        assert(tail@ =~= carried_part(self.source, buf@));
        let mut rest: Vec<u8> = copy_bytes(tail);
        carry.append(&mut rest);
        assert(carry@ =~= tail@);
        let text: Vec<char> = self.decode(head);
        self.encode(text)
    }

    /// Re-encodes what a value ended part-way through.
    pub fn finish(&self, carry: &mut Vec<u8>) -> (encoded: Encoded)
        ensures
            final(carry)@.len() == 0,
            encoded@ == finished(*self, old(carry)@),
    {
        if carry.len() == 0 {
            let none: Vec<u8> = Vec::new();
            assert(none@ =~= Seq::<u8>::empty());
            return Encoded::Bytes(none);
        }
        let text: Vec<char> = self.decode(carry.as_slice());
        carry.clear();
        self.encode(text)
    }
}

/// The walk back from the end finds the first byte of an incomplete character.
proof fn lemma_tail_found(buf: Seq<u8>, from: int, back: int)
    requires
        1 <= from <= back <= 3,
        back <= buf.len(),
        buf[buf.len() - back] >= 0xC0,
        back < utf8_needed(buf[buf.len() - back]),
        forall|k: int| 1 <= k < back ==> 0x80 <= #[trigger] buf[buf.len() - k] < 0xC0,
    ensures
        utf8_tail_from(buf, from) == back,
    decreases back - from,
{
    if from < back {
        assert(0x80 <= buf[buf.len() - from] < 0xC0);
        lemma_tail_found(buf, from + 1, back);
    }
}

/// What the walk back finds is nothing, or starts with a first byte.
proof fn lemma_tail_starts_a_character(buf: Seq<u8>, from: int)
    requires
        1 <= from,
    ensures
        0 <= utf8_tail_from(buf, from) <= 3,
        utf8_tail_from(buf, from) <= buf.len(),
        utf8_tail_from(buf, from) != 0 ==> buf[buf.len() - utf8_tail_from(buf, from)] >= 0xC0,
    decreases 4 - from,
{
    if from <= 3 && from <= buf.len() {
        lemma_tail_starts_a_character(buf, from + 1);
    }
}

/// With bytes taken away in front, the walk back finds what it found, or
/// nothing.
proof fn lemma_tail_of_suffix(buf: Seq<u8>, n: int, from: int)
    requires
        0 <= n <= buf.len(),
        1 <= from,
    ensures
        utf8_tail_from(buf.skip(n), from) == 0 || utf8_tail_from(buf.skip(n), from)
            == utf8_tail_from(buf, from),
    decreases 4 - from,
{
    if from <= 3 && from <= buf.len() - n {
        assert(buf.skip(n)[buf.len() - n - from] == buf[buf.len() - from]);
        lemma_tail_of_suffix(buf, n, from + 1);
    }
}

/// A cut falls between runs of bytes at the end, before a byte that continues
/// nothing, and behind bytes of which none begins an incomplete character.
proof fn lemma_cut_between_runs(bytes: Seq<u8>, k: int)
    requires
        0 <= k <= bytes.len(),
        k == bytes.len() || !vstd::utf8::is_continuation_byte(bytes[k]) || utf8_tail(bytes.take(k))
            == 0,
    ensures
        unicode::cuts_between_runs(bytes, k),
    decreases bytes.len(),
{
    if k > 0 {
        let n = unicode::run_length(bytes);
        unicode::lemma_run_end(bytes, 1, unicode::run_width(bytes[0]));
        let head = bytes.take(k);
        if k < n {
            assert forall|j: int| 1 <= j < k implies 0x80 <= #[trigger] head[head.len() - j] < 0xC0 by {
                assert(head[head.len() - j] == bytes[k - j]);
            }
            lemma_tail_found(head, 1, k);
        } else {
            let rest = bytes.skip(n);
            lemma_tail_of_suffix(head, n, 1);
            assert(head.skip(n) =~= rest.take(k - n));
            lemma_cut_between_runs(rest, k - n);
        }
    }
}

/// A text in a source's encoding.
pub open spec fn bytes_of(source: DaeSource, text: Seq<char>) -> Seq<u8> {
    match source {
        DaeSource::Utf16 => unicode::le_bytes(unicode::utf16_of(text)),
        _ => vstd::utf8::encode_utf8(text),
    }
}

/// The bytes of a text, with one more character behind it.
proof fn lemma_bytes_of_push(source: DaeSource, text: Seq<char>, c: char)
    ensures
        bytes_of(source, text.push(c)) == bytes_of(source, text) + bytes_of(source, seq![c]),
        bytes_of(source, seq![c]).len() > 0,
{
    assert(text.push(c) =~= text + seq![c]);
    unicode::lemma_char_bytes(c);
    unicode::lemma_encode_utf8_adds(text, seq![c]);
    unicode::lemma_utf16_of_adds(text, seq![c]);
    unicode::lemma_le_bytes_adds(unicode::utf16_of(text), unicode::utf16_of(seq![c]));
}

/// The tail of UTF-8 bytes that end within a character, or behind it.
proof fn lemma_utf8_tail_of_cut(front: Seq<u8>, last: Seq<u8>, back: int)
    requires
        vstd::utf8::valid_first_scalar(last),
        vstd::utf8::length_of_first_scalar(last) == last.len(),
        0 < back <= last.len(),
    ensures
        utf8_tail(front + last.take(back)) == (if back < last.len() {
            back
        } else {
            0
        }),
{
    let buf = front + last.take(back);
    let n = buf.len();
    assert forall|j: int| 1 <= j <= back implies #[trigger] buf[n - j] == last[back - j] by {}
    assert(buf[n - back] == last[0]);
    if back < last.len() {
        lemma_tail_found(buf, 1, back);
    } else {
        reveal_with_fuel(utf8_tail_from, 5);
        assert(buf[n - 1] == last[back - 1]);
        assert(back >= 2 ==> buf[n - 2] == last[back - 2]);
        assert(back >= 3 ==> buf[n - 3] == last[back - 3]);
    }
}

/// The tail of UTF-16 bytes that are cut somewhere.
proof fn lemma_utf16_tail_of_cut(units: Seq<u16>, k: int)
    requires
        0 <= k <= unicode::le_bytes(units).len(),
    ensures
        utf16_tail(unicode::le_bytes(units).take(k)) == k % 2 + (if k / 2 > 0
            && unicode::is_high_surrogate(units[k / 2 - 1]) {
            2int
        } else {
            0
        }),
{
    let bytes = unicode::le_bytes(units);
    let buf = bytes.take(k);
    let q = k / 2;
    let r = k % 2;
    assert(k == 2 * q + r && 0 <= r < 2);
    assert(buf.len() == k);
    if q > 0 {
        let u = units[q - 1];
        assert(bytes[2 * q - 2] == (u % 256) as u8) by {
            assert((2 * q - 2) % 2 == 0 && (2 * q - 2) / 2 == q - 1);
        }
        assert(bytes[2 * q - 1] == (u / 256) as u8) by {
            assert((2 * q - 1) % 2 == 1 && (2 * q - 1) / 2 == q - 1);
        }
        assert(buf[2 * q - 2] == bytes[2 * q - 2] && buf[2 * q - 1] == bytes[2 * q - 1]);
        assert((u % 256) + 256 * (u / 256) == u);
    }
}

/// A character in UTF-16: a unit that is no half, or two halves in order.
proof fn lemma_char_units(c: char)
    ensures
        ({
            let units = unicode::utf16_of_char(c);
            &&& units.len() == 1 || units.len() == 2
            &&& !unicode::is_high_surrogate(units.last())
            &&& units.len() == 2 ==> unicode::is_high_surrogate(units[0])
        }),
{
    vstd::utf8::char_is_scalar(c);
}

/// A cut within a character, or before it, leaves the front of that character as
/// the tail.
proof fn lemma_tail_of_cut_character(source: DaeSource, text: Seq<char>, c: char, k: int)
    requires
        source !is Raw,
        bytes_of(source, text).len() <= k < bytes_of(source, text.push(c)).len(),
    ensures
        tail_of(source, bytes_of(source, text.push(c)).take(k)) == k - bytes_of(source, text).len(),
{
    let front = bytes_of(source, text);
    let last = bytes_of(source, seq![c]);
    let back = k - front.len();
    lemma_bytes_of_push(source, text, c);
    unicode::lemma_char_bytes(c);
    if back == 0 {
        lemma_no_tail_behind_characters(source, text);
        assert((front + last).take(k) =~= front);
    } else if source is Utf8 {
        assert((front + last).take(k) =~= front + last.take(back));
        lemma_utf8_tail_of_cut(front, last, back);
    } else {
        let units = unicode::utf16_of(text);
        let pair = unicode::utf16_of_char(c);
        assert(text.push(c) =~= text + seq![c]);
        unicode::lemma_utf16_of_adds(text, seq![c]);
        lemma_utf16_tail_of_cut(units + pair, k);
        lemma_char_units(c);
        if k / 2 > units.len() {
            assert((units + pair)[k / 2 - 1] == pair[0]);
        } else if units.len() > 0 {
            let before = text.last();
            assert(text.drop_last().push(before) =~= text);
            lemma_char_units(before);
            assert(units.last() == unicode::utf16_of_char(before).last());
            assert((units + pair)[k / 2 - 1] == units.last());
        }
    }
}

/// Nothing is incomplete behind whole characters.
proof fn lemma_no_tail_behind_characters(source: DaeSource, text: Seq<char>)
    requires
        source !is Raw,
    ensures
        tail_of(source, bytes_of(source, text)) == 0,
{
    let bytes = bytes_of(source, text);
    if text.len() > 0 {
        let front = text.drop_last();
        let c = text.last();
        let last = bytes_of(source, seq![c]);
        assert(front.push(c) =~= text);
        lemma_bytes_of_push(source, front, c);
        if source is Utf8 {
            unicode::lemma_char_bytes(c);
            assert(last.take(last.len() as int) =~= last);
            lemma_utf8_tail_of_cut(bytes_of(source, front), last, last.len() as int);
        } else {
            let units = unicode::utf16_of(text);
            lemma_utf16_tail_of_cut(units, bytes.len() as int);
            assert(bytes.take(bytes.len() as int) =~= bytes);
            lemma_char_units(c);
            assert(units.last() == unicode::utf16_of_char(c).last());
        }
    }
}

/// The incomplete tail of a text cut anywhere is the cut character: what stands
/// before it is the characters that are there as a whole.
pub proof fn an_incomplete_tail_is_a_cut_character(
    source: DaeSource,
    text: Seq<char>,
    k: int,
) -> (whole: int)
    requires
        source !is Raw,
        0 <= k <= bytes_of(source, text).len(),
    ensures
        0 <= whole <= text.len(),
        decoded_part(source, bytes_of(source, text).take(k)) == bytes_of(source, text.take(whole)),
        whole < text.len() ==> k < bytes_of(source, text.take(whole + 1)).len(),
    decreases text.len(),
{
    let bytes = bytes_of(source, text);
    if k == bytes.len() {
        assert(bytes.take(k) =~= bytes);
        lemma_no_tail_behind_characters(source, text);
        assert(text.take(text.len() as int) =~= text);
        assert(bytes.take(k - 0) =~= bytes);
        text.len() as int
    } else {
        let front = text.drop_last();
        let c = text.last();
        let before = bytes_of(source, front);
        assert(front.push(c) =~= text);
        lemma_bytes_of_push(source, front, c);
        if k < before.len() {
            let whole = an_incomplete_tail_is_a_cut_character(source, front, k);
            assert(bytes.take(k) =~= before.take(k));
            assert(front.take(whole) =~= text.take(whole));
            if whole < front.len() {
                assert(front.take(whole + 1) =~= text.take(whole + 1));
            } else {
                assert(text.take(whole + 1) =~= text);
            }
            whole
        } else {
            lemma_tail_of_cut_character(source, front, c, k);
            assert(bytes.take(k).take(before.len() as int) =~= before);
            assert(text.take(front.len() as int) =~= front);
            assert(text.take(text.len() as int) =~= text);
            front.len() as int
        }
    }
}

/// Carrying an incomplete character to the next piece neither loses nor adds
/// text: the decoded part, and then the carried part with what follows, decode
/// as the whole does.
pub proof fn carry_keeps_the_text(source: DaeSource, buf: Seq<u8>, rest: Seq<u8>)
    requires
        source !is Raw,
    ensures
        decode_of(source, decoded_part(source, buf)) + decode_of(
            source,
            carried_part(source, buf) + rest,
        ) == decode_of(source, buf + rest),
{
    let whole = buf + rest;
    let head = decoded_part(source, buf);
    let tail = carried_part(source, buf) + rest;
    match source {
        DaeSource::Utf16 => {
            let cut = buf.len() - utf16_tail(buf);
            assert(cut % 2 == 0);
            assert(unicode::units_of(whole) =~= unicode::units_of(head) + unicode::units_of(tail))
                by {
                assert(whole.len() == cut + tail.len());
                assert forall|k: int| 0 <= k < unicode::units_of(whole).len() implies
                    unicode::units_of(whole)[k] == (unicode::units_of(head)
                    + unicode::units_of(tail))[k] by {
                    if 2 * k >= cut {
                        assert(whole[2 * k] == tail[2 * k - cut]);
                        assert(whole[2 * k + 1] == tail[2 * k + 1 - cut]);
                        assert(2 * (k - cut / 2) == 2 * k - cut);
                    }
                }
            }
            unicode::lemma_utf16_split(unicode::units_of(head), unicode::units_of(tail));
        },
        _ => {
            let cut = buf.len() - utf8_tail(buf);
            lemma_tail_starts_a_character(buf, 1);
            assert(whole.take(cut) =~= head);
            assert(whole.skip(cut) =~= tail);
            if utf8_tail(buf) == 0 {
                assert(head =~= buf);
            }
            lemma_cut_between_runs(whole, cut);
            unicode::lemma_utf8_text_splits(whole, cut);
        },
    }
}

/// The text that pieces decode to, one `push` after the other and a `finish`,
/// from what is carried already.
pub open spec fn streamed_text(source: DaeSource, carry: Seq<u8>, pieces: Seq<Seq<u8>>) -> Seq<char>
    decreases pieces.len(),
{
    if pieces.len() == 0 {
        if carry.len() == 0 {
            Seq::empty()
        } else {
            decode_of(source, carry)
        }
    } else {
        let buf = carry + pieces[0];
        decode_of(source, decoded_part(source, buf)) + streamed_text(
            source,
            carried_part(source, buf),
            pieces.drop_first(),
        )
    }
}

/// However a value is cut into pieces, the pieces decode as the whole does.
pub proof fn pieces_decode_as_the_whole(source: DaeSource, carry: Seq<u8>, pieces: Seq<Seq<u8>>)
    requires
        source !is Raw,
    ensures
        streamed_text(source, carry, pieces) == decode_of(source, carry + pieces.flatten()),
    decreases pieces.len(),
{
    if pieces.len() == 0 {
        assert(carry + pieces.flatten() =~= carry);
        assert(unicode::lossy_utf16(Seq::<u16>::empty()) == Seq::<char>::empty());
        if carry.len() == 0 {
            assert(unicode::units_of(carry) =~= Seq::<u16>::empty());
            assert(unicode::utf8_text(carry) == Seq::<char>::empty());
        }
    } else {
        let buf = carry + pieces[0];
        let rest = pieces.drop_first().flatten();
        assert(carry + pieces.flatten() =~= buf + rest);
        carry_keeps_the_text(source, buf, rest);
        pieces_decode_as_the_whole(source, carried_part(source, buf), pieces.drop_first());
    }
}

/// Two encoded texts, one after the other.
pub open spec fn followed_by(first: EncodedView, second: EncodedView) -> EncodedView {
    match (first, second) {
        (EncodedView::Bytes(a), EncodedView::Bytes(b)) => EncodedView::Bytes(a + b),
        (EncodedView::Text(a), EncodedView::Text(b)) => EncodedView::Text(a + b),
        _ => first,
    }
}

/// Texts that are encoded one after the other are encoded as the whole is.
pub proof fn encodings_add_up(target: DaeTarget, first: Seq<char>, second: Seq<char>)
    ensures
        encode_of(target, first + second) == followed_by(
            encode_of(target, first),
            encode_of(target, second),
        ),
{
    unicode::lemma_utf16_of_adds(first, second);
    unicode::lemma_le_bytes_adds(unicode::utf16_of(first), unicode::utf16_of(second));
    unicode::lemma_encode_utf8_adds(first, second);
}

/// What pieces give out, one `push` after the other and a `finish`.
pub open spec fn streamed(
    transcode: DaeTranscode,
    carry: Seq<u8>,
    pieces: Seq<Seq<u8>>,
) -> EncodedView
    decreases pieces.len(),
{
    if pieces.len() == 0 {
        finished(transcode, carry)
    } else {
        followed_by(
            pushed(transcode, carry, pieces[0]),
            streamed(transcode, carried(transcode, carry, pieces[0]), pieces.drop_first()),
        )
    }
}

/// Pieces that are re-encoded give out the encoding of their text.
proof fn lemma_streamed_text(transcode: DaeTranscode, carry: Seq<u8>, pieces: Seq<Seq<u8>>)
    requires
        !passes_through(transcode),
        pieces.len() > 0,
    ensures
        streamed(transcode, carry, pieces) == encode_of(
            transcode.target,
            streamed_text(transcode.source, carry, pieces),
        ),
    decreases pieces.len(),
{
    let (source, target) = (transcode.source, transcode.target);
    let buf = carry + pieces[0];
    let rest = pieces.drop_first();
    let first = decode_of(source, decoded_part(source, buf));
    let second = streamed_text(source, carried_part(source, buf), rest);
    encodings_add_up(target, first, second);
    if rest.len() > 0 {
        lemma_streamed_text(transcode, carried_part(source, buf), rest);
    } else {
        let carry = carried_part(source, buf);
        assert(streamed(transcode, carry, rest) == finished(transcode, carry));
        if carry.len() == 0 {
            assert(first + second =~= first);
            if let EncodedView::Bytes(bytes) = encode_of(target, first) {
                assert(bytes + Seq::<u8>::empty() =~= bytes);
            }
        } else {
            assert(second == decode_of(source, carry));
        }
    }
}

/// Pieces that are passed through give out their bytes.
proof fn lemma_streamed_bytes(transcode: DaeTranscode, pieces: Seq<Seq<u8>>)
    requires
        passes_through(transcode),
    ensures
        streamed(transcode, Seq::empty(), pieces) == EncodedView::Bytes(pieces.flatten()),
    decreases pieces.len(),
{
    if pieces.len() > 0 {
        lemma_streamed_bytes(transcode, pieces.drop_first());
    }
}

/// However a value is cut into pieces, what is given out is the same as for the
/// value in one piece: where a character was split never changes the value.
pub proof fn pieces_give_out_what_the_whole_does(transcode: DaeTranscode, pieces: Seq<Seq<u8>>)
    requires
        pieces.len() > 0,
    ensures
        streamed(transcode, Seq::empty(), pieces) == streamed(
            transcode,
            Seq::empty(),
            seq![pieces.flatten()],
        ),
{
    let none = Seq::<u8>::empty();
    let whole = seq![pieces.flatten()];
    assert(whole.drop_first() =~= Seq::<Seq<u8>>::empty());
    assert(whole.flatten() =~= pieces.flatten()) by {
        assert(whole.flatten() =~= whole[0] + whole.drop_first().flatten());
    }
    if passes_through(transcode) {
        lemma_streamed_bytes(transcode, pieces);
        lemma_streamed_bytes(transcode, whole);
    } else {
        lemma_streamed_text(transcode, none, pieces);
        lemma_streamed_text(transcode, none, whole);
        pieces_decode_as_the_whole(transcode.source, none, pieces);
        pieces_decode_as_the_whole(transcode.source, none, whole);
    }
}

/// A text that is supplied in pieces arrives as that text, however it was cut: in
/// UTF-16 at a wide type, in UTF-8 at a narrow type of a UTF-8 collation and at a
/// type that holds no text, and as the text itself where a code page is still to
/// be applied. Bytes arrive as they are.
pub proof fn a_supplied_text_arrives_as_itself(
    c_type: i16,
    sql_type: i16,
    collation: SqlCollation,
    text: Seq<char>,
    pieces: Seq<Seq<u8>>,
)
    requires
        pieces.len() > 0,
        c_type == SQL_C_CHAR ==> pieces.flatten() == vstd::utf8::encode_utf8(text),
        c_type == SQL_C_WCHAR ==> pieces.flatten() == unicode::le_bytes(unicode::utf16_of(text)),
    ensures
        ({
            let transcode = DaeTranscode {
                source: source_of(c_type),
                target: target_of(sql_type, collation),
            };
            let arrived = streamed(transcode, Seq::empty(), pieces);
            let wide = sql_type == odbc_types::SQL_WCHAR || sql_type == odbc_types::SQL_WVARCHAR || sql_type
                == odbc_types::SQL_WLONGVARCHAR;
            let narrow = sql_type == odbc_types::SQL_CHAR || sql_type == odbc_types::SQL_VARCHAR || sql_type
                == odbc_types::SQL_LONGVARCHAR;
            if c_type != SQL_C_CHAR && c_type != SQL_C_WCHAR {
                arrived == EncodedView::Bytes(pieces.flatten())
            } else if wide {
                arrived == EncodedView::Bytes(unicode::le_bytes(unicode::utf16_of(text)))
            } else if narrow && !collation.spec_utf8() {
                arrived == EncodedView::Text(text)
            } else {
                arrived == EncodedView::Bytes(vstd::utf8::encode_utf8(text))
            }
        }),
{
    let transcode = DaeTranscode {
        source: source_of(c_type),
        target: target_of(sql_type, collation),
    };
    let none = Seq::<u8>::empty();
    if passes_through(transcode) {
        lemma_streamed_bytes(transcode, pieces);
    } else {
        lemma_streamed_text(transcode, none, pieces);
        pieces_decode_as_the_whole(transcode.source, none, pieces);
        assert(none + pieces.flatten() =~= pieces.flatten());
        param_convert::lemma_buffers_hold_the_text(text);
    }
}

/// Narrow text is UTF-8 in a collation exactly where the bit worth 64 is set in
/// its flags.
pub proof fn a_utf8_collation_has_its_flag(collation: SqlCollation, low: u8, high: bool)
    requires
        low < 64,
    ensures
        ({
            let top = if high {
                128int
            } else {
                0
            };
            &&& (SqlCollation { col_flags: (top + 64 + low) as u8, ..collation }).spec_utf8()
            &&& !(SqlCollation { col_flags: (top + low) as u8, ..collation }).spec_utf8()
        }),
{
}

} // verus!
