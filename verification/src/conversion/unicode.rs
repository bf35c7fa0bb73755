//! UTF-8 and UTF-16 text.

use vstd::prelude::*;

use super::chars::chars_of;

verus! {

/// The text that `String::from_utf8_lossy` makes of bytes.
pub uninterp spec fn lossy_utf8(bytes: Seq<u8>) -> Seq<char>;

/// How many bytes a character has by its first byte; one that starts none stands
/// alone.
pub open spec fn run_width(first: u8) -> int {
    if first >= 0xF0 {
        4
    } else if first >= 0xE0 {
        3
    } else if first >= 0xC0 {
        2
    } else {
        1
    }
}

/// Where the continuation bytes end that stand from `n` on, within `width`.
pub open spec fn run_end(bytes: Seq<u8>, n: int, width: int) -> int
    decreases width - n,
{
    if 0 <= n < width && n < bytes.len() && vstd::utf8::is_continuation_byte(bytes[n]) {
        run_end(bytes, n + 1, width)
    } else {
        n
    }
}

/// The length of the first run of bytes: a byte and the continuation bytes that
/// may belong to it.
pub open spec fn run_length(bytes: Seq<u8>) -> int {
    run_end(bytes, 1, run_width(bytes[0]))
}

/// A run ends within its width and behind nothing but continuation bytes, and
/// goes as far as it can.
pub proof fn lemma_run_end(bytes: Seq<u8>, n: int, width: int)
    requires
        1 <= n <= bytes.len(),
        n <= width,
    ensures
        n <= run_end(bytes, n, width) <= bytes.len(),
        run_end(bytes, n, width) <= width,
        forall|k: int|
            n <= k < run_end(bytes, n, width) ==> vstd::utf8::is_continuation_byte(
                #[trigger] bytes[k],
            ),
        ({
            let end = run_end(bytes, n, width);
            end == width || end == bytes.len() || !vstd::utf8::is_continuation_byte(bytes[end])
        }),
    decreases width - n,
{
    if n < width && n < bytes.len() && vstd::utf8::is_continuation_byte(bytes[n]) {
        lemma_run_end(bytes, n + 1, width);
    }
}

/// Continuation bytes up to the width, or up to one that is none, are the run.
proof fn lemma_run_end_is(bytes: Seq<u8>, n: int, width: int, end: int)
    requires
        1 <= n <= end <= bytes.len(),
        end <= width,
        forall|k: int| n <= k < end ==> vstd::utf8::is_continuation_byte(#[trigger] bytes[k]),
        end == width || end == bytes.len() || !vstd::utf8::is_continuation_byte(bytes[end]),
    ensures
        run_end(bytes, n, width) == end,
    decreases end - n,
{
    if n < end {
        lemma_run_end_is(bytes, n + 1, width, end);
    }
}

/// The text of one run of bytes.
pub open spec fn run_text(run: Seq<u8>) -> Seq<char> {
    if vstd::utf8::valid_utf8(run) {
        vstd::utf8::decode_utf8(run)
    } else {
        lossy_utf8(run)
    }
}

/// The text of UTF-8 bytes, run by run; what is not UTF-8 is replaced by U+FFFD.
pub open spec fn utf8_text(bytes: Seq<u8>) -> Seq<char>
    decreases bytes.len(),
    via utf8_text_decreases
{
    if bytes.len() == 0 {
        Seq::empty()
    } else {
        run_text(bytes.take(run_length(bytes))) + utf8_text(bytes.skip(run_length(bytes)))
    }
}

#[via_fn]
proof fn utf8_text_decreases(bytes: Seq<u8>) {
    if bytes.len() > 0 {
        lemma_run_end(bytes, 1, run_width(bytes[0]));
    }
}

/// Decodes UTF-8 with [`String::from_utf8_lossy`], which replaces each invalid
/// sequence by U+FFFD. Claimed of it: the text depends on the bytes alone, valid
/// UTF-8 decodes to what it encodes, and bytes decode run by run, since decoding
/// resumes behind the invalid sequence (see [`std::str::Utf8Error::error_len`])
/// and only a continuation byte can belong to the bytes before it. And the text
/// has no more UTF-16 units than there are bytes, since a character has no more
/// units than bytes and a replacement, of one unit, stands for at least one byte.
/// How many replacements an invalid run has is left unsaid.
#[verifier::external_body]
fn std_from_utf8_lossy(bytes: &[u8]) -> (text: String)
    ensures
        text@ == lossy_utf8(bytes@),
        vstd::utf8::valid_utf8(bytes@) ==> text@ == vstd::utf8::decode_utf8(bytes@),
        text@ == utf8_text(bytes@),
        utf16_of(text@).len() <= bytes@.len(),
{
    String::from_utf8_lossy(bytes).into_owned()
}

/// Valid UTF-8 is the text it encodes.
pub proof fn valid_utf8_is_its_text(bytes: Seq<u8>)
    requires
        vstd::utf8::valid_utf8(bytes),
    ensures
        utf8_text(bytes) == vstd::utf8::decode_utf8(bytes),
    decreases bytes.len(),
{
    if bytes.len() > 0 {
        let n = vstd::utf8::length_of_first_scalar(bytes);
        lemma_run_end_is(bytes, 1, run_width(bytes[0]), n);
        let run = bytes.take(n);
        let rest = bytes.skip(n);
        assert(vstd::utf8::pop_first_scalar(bytes) =~= rest);
        assert(vstd::utf8::pop_first_scalar(run) =~= Seq::<u8>::empty());
        assert(vstd::utf8::valid_utf8(Seq::<u8>::empty()));
        assert(vstd::utf8::valid_utf8(run));
        assert(vstd::utf8::decode_utf8(Seq::<u8>::empty()) =~= Seq::<char>::empty());
        assert(vstd::utf8::decode_utf8(run) =~= seq![vstd::utf8::decode_first_scalar(bytes) as char]);
        valid_utf8_is_its_text(rest);
    }
}

/// Whether a cut at `k` falls between two runs.
pub open spec fn cuts_between_runs(bytes: Seq<u8>, k: int) -> bool
    decreases bytes.len(),
    via cuts_between_runs_decreases
{
    k == 0 || bytes.len() > 0 && run_length(bytes) <= k && cuts_between_runs(
        bytes.skip(run_length(bytes)),
        k - run_length(bytes),
    )
}

#[via_fn]
proof fn cuts_between_runs_decreases(bytes: Seq<u8>, k: int) {
    if bytes.len() > 0 {
        lemma_run_end(bytes, 1, run_width(bytes[0]));
    }
}

/// Bytes that are cut between runs have the text of the two parts.
pub proof fn lemma_utf8_text_splits(bytes: Seq<u8>, k: int)
    requires
        0 <= k <= bytes.len(),
        cuts_between_runs(bytes, k),
    ensures
        utf8_text(bytes) == utf8_text(bytes.take(k)) + utf8_text(bytes.skip(k)),
    decreases bytes.len(),
{
    if k == 0 {
        assert(bytes.take(0) =~= Seq::<u8>::empty());
        assert(bytes.skip(0) =~= bytes);
        assert(utf8_text(bytes.take(0)) + utf8_text(bytes) =~= utf8_text(bytes));
    } else {
        let width = run_width(bytes[0]);
        let n = run_length(bytes);
        let rest = bytes.skip(n);
        let head = bytes.take(k);
        lemma_run_end(bytes, 1, width);
        assert forall|j: int| 1 <= j < n implies vstd::utf8::is_continuation_byte(
            #[trigger] head[j],
        ) by {
            assert(head[j] == bytes[j]);
        }
        lemma_run_end_is(head, 1, width, n);
        lemma_utf8_text_splits(rest, k - n);
        assert(head.take(n) =~= bytes.take(n));
        assert(head.skip(n) =~= rest.take(k - n));
        assert(rest.skip(k - n) =~= bytes.skip(k));
        assert(run_text(bytes.take(n)) + (utf8_text(rest.take(k - n)) + utf8_text(bytes.skip(k)))
            =~= (run_text(bytes.take(n)) + utf8_text(rest.take(k - n))) + utf8_text(bytes.skip(k)));
    }
}

/// A byte at the end that continues nothing is a run of its own.
pub proof fn lemma_last_byte_is_a_run(bytes: Seq<u8>)
    requires
        bytes.len() > 0,
        !vstd::utf8::is_continuation_byte(bytes.last()),
    ensures
        cuts_between_runs(bytes, bytes.len() - 1),
    decreases bytes.len(),
{
    if bytes.len() > 1 {
        let n = run_length(bytes);
        lemma_run_end(bytes, 1, run_width(bytes[0]));
        assert(n < bytes.len());
        lemma_last_byte_is_a_run(bytes.skip(n));
    }
}

/// A blank is its own text, of one unit.
pub proof fn lemma_blank_text()
    ensures
        utf8_text(seq![32u8]) == seq![' '],
        utf16_of(seq![' ']) == seq![32u16],
{
    let blank = seq![32u8];
    reveal_with_fuel(utf8_text, 2);
    reveal_with_fuel(utf16_of, 2);
    vstd::utf8::is_ascii_chars_encode_utf8(seq![' ']);
    assert(vstd::utf8::encode_utf8(seq![' ']) =~= blank);
    vstd::utf8::encode_utf8_valid_utf8(seq![' ']);
    vstd::utf8::encode_utf8_decode_utf8(seq![' ']);
    valid_utf8_is_its_text(blank);
    assert(seq![' '].drop_last() =~= Seq::<char>::empty());
    assert(utf16_of(seq![' ']) =~= seq![32u16]);
}

/// Builds a string with `String::from_iter`, which holds the characters of its
/// iterator in order.
#[verifier::external_body]
fn std_string_from_iter(chars: &[char]) -> (text: String)
    ensures
        text@ == chars@,
{
    String::from_iter(chars)
}

/// Makes a character with [`char::from_u32`], which gives every scalar value
/// its character and nothing else one.
#[verifier::external_body]
fn std_char_from_u32(value: u32) -> (c: Option<char>)
    ensures
        c is Some <==> vstd::utf8::is_scalar(value),
        c matches Some(character) ==> character as u32 == value,
{
    char::from_u32(value)
}

/// Whether a unit is the first half of a pair.
pub open spec fn is_high_surrogate(unit: u16) -> bool {
    0xD800 <= unit < 0xDC00
}

/// Whether a unit is the second half of a pair.
pub open spec fn is_low_surrogate(unit: u16) -> bool {
    0xDC00 <= unit < 0xE000
}

/// The code point a pair stands for.
pub open spec fn pair_value(high: u16, low: u16) -> int {
    0x1_0000 + (high - 0xD800) * 0x400 + (low - 0xDC00)
}

/// The text of UTF-16 units: an unpaired half is replaced by U+FFFD.
pub open spec fn lossy_utf16(units: Seq<u16>) -> Seq<char>
    decreases units.len(),
{
    if units.len() == 0 {
        Seq::empty()
    } else if units.len() >= 2 && is_high_surrogate(units[0]) && is_low_surrogate(units[1]) {
        seq![pair_value(units[0], units[1]) as char] + lossy_utf16(units.skip(2))
    } else if is_high_surrogate(units[0]) || is_low_surrogate(units[0]) {
        seq!['\u{FFFD}'] + lossy_utf16(units.skip(1))
    } else {
        seq![units[0] as char] + lossy_utf16(units.skip(1))
    }
}

/// The UTF-16 units of a character.
pub open spec fn utf16_of_char(c: char) -> Seq<u16> {
    let v = c as u32 as int;
    if v < 0x1_0000 {
        seq![v as u16]
    } else {
        seq![
            (0xD800 + (v - 0x1_0000) / 0x400) as u16,
            (0xDC00 + (v - 0x1_0000) % 0x400) as u16,
        ]
    }
}

/// The UTF-16 units of a text.
pub open spec fn utf16_of(text: Seq<char>) -> Seq<u16>
    decreases text.len(),
{
    if text.len() == 0 {
        Seq::empty()
    } else {
        utf16_of(text.drop_last()) + utf16_of_char(text.last())
    }
}

/// The little-endian bytes of units.
pub open spec fn le_bytes(units: Seq<u16>) -> Seq<u8> {
    Seq::new(
        2 * units.len(),
        |k: int|
            if k % 2 == 0 {
                (units[k / 2] % 256) as u8
            } else {
                (units[k / 2] / 256) as u8
            },
    )
}

/// The units of little-endian bytes; an odd trailing byte is dropped.
pub open spec fn units_of(bytes: Seq<u8>) -> Seq<u16> {
    Seq::new(
        bytes.len() / 2,
        |k: int| (bytes[2 * k] + 256 * bytes[2 * k + 1]) as u16,
    )
}

/// The units of little-endian bytes; an odd trailing byte is dropped.
pub fn units_from_le(bytes: &[u8]) -> (units: Vec<u16>)
    ensures
        units@ == units_of(bytes@),
{
    let mut units: Vec<u16> = Vec::new();
    let mut k: usize = 0;
    while k < bytes.len() / 2
        invariant
            k <= bytes@.len() / 2,
            units@ == units_of(bytes@).take(k as int),
        decreases bytes@.len() / 2 - k,
    {
        let low: u16 = bytes[2 * k] as u16;
        let high: u16 = bytes[2 * k + 1] as u16;
        units.push(low + 256 * high);
        assert(units@ =~= units_of(bytes@).take(k + 1));
        k = k + 1;
    }
    assert(units_of(bytes@).take(k as int) =~= units_of(bytes@));
    units
}

/// The little-endian bytes of units.
pub fn units_to_le(units: &[u16]) -> (bytes: Vec<u8>)
    ensures
        bytes@ == le_bytes(units@),
{
    let mut bytes: Vec<u8> = Vec::new();
    let mut k: usize = 0;
    while k < units.len()
        invariant
            k <= units@.len(),
            bytes@ == le_bytes(units@.take(k as int)),
        decreases units@.len() - k,
    {
        let unit: u16 = units[k];
        bytes.push((unit % 256) as u8);
        bytes.push((unit / 256) as u8);
        assert(bytes@ =~= le_bytes(units@.take(k + 1)));
        k = k + 1;
    }
    assert(units@.take(k as int) =~= units@);
    bytes
}

/// Decodes UTF-16 units, replacing unpaired halves.
pub fn decode_units(units: &[u16]) -> (text: Vec<char>)
    ensures
        text@ == lossy_utf16(units@),
{
    let mut text: Vec<char> = Vec::new();
    let mut k: usize = 0;
    assert(units@.skip(0) =~= units@);
    while k < units.len()
        invariant
            k <= units@.len(),
            text@ + lossy_utf16(units@.skip(k as int)) == lossy_utf16(units@),
        decreases units@.len() - k,
    {
        let unit: u16 = units[k];
        let ghost rest = units@.skip(k as int);
        let ghost before = text@;
        let high: bool = unit >= 0xD800 && unit < 0xDC00;
        let paired: bool = high && units.len() - k >= 2 && units[k + 1] >= 0xDC00 && units[k + 1]
            < 0xE000;
        let (value, step): (u32, usize) = if paired {
            (
                0x1_0000 + (unit as u32 - 0xD800) * 0x400 + (units[k + 1] as u32 - 0xDC00),
                2,
            )
        } else if unit >= 0xD800 && unit < 0xE000 {
            (0xFFFD, 1)
        } else {
            (unit as u32, 1)
        };
        let c: char = match std_char_from_u32(value) {
            Some(c) => c,
            None => '\u{FFFD}',
        };
        text.push(c);
        proof {
            assert(rest.skip(step as int) =~= units@.skip(k + step));
            assert(vstd::utf8::is_scalar(value));
            vstd::utf8::char_u32_cast(c, value);
            assert(c == value as char);
            assert(lossy_utf16(rest) =~= seq![c] + lossy_utf16(rest.skip(step as int)));
            assert(text@ + lossy_utf16(units@.skip(k + step)) =~= before + lossy_utf16(rest));
        }
        k = k + step;
    }
    assert(units@.skip(k as int) =~= Seq::<u16>::empty());
    assert(text@ + Seq::<char>::empty() =~= text@);
    text
}

/// The UTF-16 units of a text.
pub fn encode_units(text: &[char]) -> (units: Vec<u16>)
    ensures
        units@ == utf16_of(text@),
{
    let mut units: Vec<u16> = Vec::new();
    let mut k: usize = 0;
    assert(text@.take(0) =~= Seq::<char>::empty());
    while k < text.len()
        invariant
            k <= text@.len(),
            units@ == utf16_of(text@.take(k as int)),
        decreases text@.len() - k,
    {
        let c: char = text[k];
        let v: u32 = c as u32;
        let ghost before = units@;
        proof {
            vstd::utf8::char_is_scalar(c);
        }
        assert(v <= 0x10_FFFF);
        if v < 0x1_0000 {
            units.push(v as u16);
        } else {
            units.push((0xD800 + (v - 0x1_0000) / 0x400) as u16);
            units.push((0xDC00 + (v - 0x1_0000) % 0x400) as u16);
        }
        proof {
            assert(text@.take(k + 1).drop_last() =~= text@.take(k as int));
            assert(units@ =~= before + utf16_of_char(c));
        }
        k = k + 1;
    }
    assert(text@.take(k as int) =~= text@);
    units
}

/// Decodes UTF-8, replacing invalid parts.
pub fn decode_utf8_lossy(bytes: &[u8]) -> (text: Vec<char>)
    ensures
        text@ == utf8_text(bytes@),
        utf16_of(text@).len() <= bytes@.len(),
{
    let decoded: String = std_from_utf8_lossy(bytes);
    chars_of(decoded.as_str())
}

/// Decodes little-endian UTF-16, replacing unpaired halves and dropping an odd
/// trailing byte.
pub fn decode_utf16le(bytes: &[u8]) -> (text: Vec<char>)
    ensures
        text@ == lossy_utf16(units_of(bytes@)),
{
    let units: Vec<u16> = units_from_le(bytes);
    decode_units(units.as_slice())
}

/// Encodes a text in little-endian UTF-16.
pub fn encode_utf16le(text: &[char]) -> (bytes: Vec<u8>)
    ensures
        bytes@ == le_bytes(utf16_of(text@)),
{
    let units: Vec<u16> = encode_units(text);
    units_to_le(units.as_slice())
}

/// Encodes a text in UTF-8.
pub fn encode_utf8_bytes(text: &[char]) -> (bytes: Vec<u8>)
    ensures
        bytes@ == vstd::utf8::encode_utf8(text@),
{
    let string: String = std_string_from_iter(text);
    let slice = string.as_str().as_bytes();
    copy_bytes(slice)
}

/// The same bytes in a vector of their own.
pub fn copy_bytes(slice: &[u8]) -> (bytes: Vec<u8>)
    ensures
        bytes@ == slice@,
{
    let mut bytes: Vec<u8> = Vec::new();
    let mut k: usize = 0;
    while k < slice.len()
        invariant
            k <= slice@.len(),
            bytes@ == slice@.take(k as int),
        decreases slice@.len() - k,
    {
        bytes.push(slice[k]);
        assert(bytes@ =~= slice@.take(k + 1));
        k = k + 1;
    }
    assert(slice@.take(k as int) =~= slice@);
    bytes
}

/// What is encoded in UTF-16 decodes to itself.
pub proof fn utf16_round_trips(text: Seq<char>)
    ensures
        lossy_utf16(utf16_of(text)) == text,
    decreases text.len(),
{
    if text.len() > 0 {
        utf16_round_trips(text.drop_last());
        let head = utf16_of(text.drop_last());
        let tail = utf16_of_char(text.last());
        lemma_char_decodes(text.last());
        lemma_utf16_split(head, tail);
        assert(text =~= text.drop_last() + seq![text.last()]);
    } else {
        assert(text =~= Seq::<char>::empty());
    }
}

/// One character decodes to itself.
proof fn lemma_char_decodes(c: char)
    ensures
        lossy_utf16(utf16_of_char(c)) == seq![c],
        utf16_of_char(c).len() >= 1,
        !is_low_surrogate(utf16_of_char(c)[0]),
{
    reveal_with_fuel(lossy_utf16, 3);
    let units = utf16_of_char(c);
    let v = c as u32 as int;
    vstd::utf8::char_is_scalar(c);
    if v < 0x1_0000 {
        assert(units.skip(1) =~= Seq::<u16>::empty());
        assert(lossy_utf16(units) =~= seq![c]);
    } else {
        assert(units.skip(2) =~= Seq::<u16>::empty());
        assert(is_high_surrogate(units[0]));
        assert(is_low_surrogate(units[1]));
        assert(pair_value(units[0], units[1]) == v);
        assert(lossy_utf16(units) =~= seq![c]);
    }
}

/// Decoding is done piece by piece wherever the cut does not fall between the
/// halves of a pair.
pub proof fn lemma_utf16_split(head: Seq<u16>, tail: Seq<u16>)
    requires
        head.len() == 0 || tail.len() == 0 || !is_high_surrogate(head.last())
            || !is_low_surrogate(tail[0]),
    ensures
        lossy_utf16(head + tail) == lossy_utf16(head) + lossy_utf16(tail),
    decreases head.len(),
{
    let whole = head + tail;
    if head.len() == 0 {
        assert(whole =~= tail);
        assert(lossy_utf16(head) + lossy_utf16(tail) =~= lossy_utf16(tail));
    } else if head.len() >= 2 && is_high_surrogate(head[0]) && is_low_surrogate(head[1]) {
        assert(whole.skip(2) =~= head.skip(2) + tail);
        if head.len() > 2 {
            assert(head.skip(2).last() == head.last());
        }
        lemma_utf16_split(head.skip(2), tail);
        assert(lossy_utf16(whole) =~= lossy_utf16(head) + lossy_utf16(tail));
    } else {
        assert(whole.skip(1) =~= head.skip(1) + tail);
        if head.len() > 1 {
            assert(head.skip(1).last() == head.last());
        }
        lemma_utf16_split(head.skip(1), tail);
        assert(lossy_utf16(whole) =~= lossy_utf16(head) + lossy_utf16(tail));
    }
}

/// Little-endian bytes read back as the units they came from.
pub proof fn le_bytes_round_trip(units: Seq<u16>)
    ensures
        units_of(le_bytes(units)) == units,
{
    let bytes = le_bytes(units);
    assert forall|k: int| 0 <= k < units.len() implies units_of(bytes)[k] == units[k] by {
        assert(bytes[2 * k] == (units[k] % 256) as u8);
        assert((2 * k + 1) / 2 == k);
        assert((2 * k) / 2 == k);
        assert(bytes[2 * k + 1] == (units[k] / 256) as u8);
    }
    assert(units_of(bytes) =~= units);
}

/// UTF-16 units add up over the pieces of a text.
pub proof fn lemma_utf16_of_adds(first: Seq<char>, second: Seq<char>)
    ensures
        utf16_of(first + second) == utf16_of(first) + utf16_of(second),
    decreases second.len(),
{
    let whole = first + second;
    if second.len() == 0 {
        assert(whole =~= first);
        assert(utf16_of(first) + utf16_of(second) =~= utf16_of(first));
    } else {
        lemma_utf16_of_adds(first, second.drop_last());
        assert(whole.drop_last() =~= first + second.drop_last());
        assert(utf16_of(whole) =~= utf16_of(first) + utf16_of(second));
    }
}

/// Bytes add up over the pieces of a row of units.
pub proof fn lemma_le_bytes_adds(first: Seq<u16>, second: Seq<u16>)
    ensures
        le_bytes(first + second) == le_bytes(first) + le_bytes(second),
{
    let n = 2 * first.len() as int;
    assert forall|k: int| 0 <= k < le_bytes(first + second).len() implies le_bytes(first + second)[k]
        == (le_bytes(first) + le_bytes(second))[k] by {
        if k >= n {
            assert((k - n) / 2 == k / 2 - first.len());
            assert((k - n) % 2 == k % 2);
        }
    }
    assert(le_bytes(first + second) =~= le_bytes(first) + le_bytes(second));
}

/// A character in UTF-8: one first byte and the continuation bytes that it asks
/// for, four bytes in all where UTF-16 has a pair.
pub proof fn lemma_char_bytes(c: char)
    ensures
        ({
            let bytes = vstd::utf8::encode_utf8(seq![c]);
            &&& vstd::utf8::valid_first_scalar(bytes)
            &&& vstd::utf8::length_of_first_scalar(bytes) == bytes.len()
            &&& bytes.len() == 1 <==> (c as u32) < 0x80
            &&& bytes.len() == 1 ==> bytes[0] == c as u32
            &&& bytes.len() == 4 <==> utf16_of_char(c).len() == 2
            &&& utf16_of(seq![c]) == utf16_of_char(c)
        }),
{
    let text = seq![c];
    let v = c as u32;
    let bytes = vstd::utf8::encode_utf8(text);
    vstd::utf8::char_is_scalar(c);
    assert(text.drop_first() =~= Seq::<char>::empty());
    assert(text.drop_last() =~= Seq::<char>::empty());
    reveal_with_fuel(vstd::utf8::encode_utf8, 2);
    reveal_with_fuel(utf16_of, 2);
    assert(bytes =~= vstd::utf8::encode_scalar(v));
    assert(utf16_of(text) =~= utf16_of_char(c));
    vstd::utf8::encode_utf8_first_scalar(text);
    if v < 0x80 {
        assert(v & 0x7F == v) by (bit_vector)
            requires
                v < 0x80,
        ;
    }
}

/// UTF-8 adds up over the pieces of a text.
pub proof fn lemma_encode_utf8_adds(first: Seq<char>, second: Seq<char>)
    ensures
        vstd::utf8::encode_utf8(first + second) == vstd::utf8::encode_utf8(first)
            + vstd::utf8::encode_utf8(second),
    decreases first.len(),
{
    let whole = first + second;
    if first.len() == 0 {
        assert(whole =~= second);
        assert(vstd::utf8::encode_utf8(first) + vstd::utf8::encode_utf8(second)
            =~= vstd::utf8::encode_utf8(second));
    } else {
        lemma_encode_utf8_adds(first.drop_first(), second);
        assert(whole.drop_first() =~= first.drop_first() + second);
        assert(vstd::utf8::encode_utf8(whole) =~= vstd::utf8::encode_utf8(first)
            + vstd::utf8::encode_utf8(second));
    }
}

/// Each unit stands in two bytes, the lower one first; and an odd last byte is no
/// unit.
pub proof fn units_stand_lower_byte_first(units: Seq<u16>, k: int, odd: u8)
    requires
        0 <= k < units.len(),
    ensures
        le_bytes(units).len() == 2 * units.len(),
        le_bytes(units)[2 * k] == units[k] % 256,
        le_bytes(units)[2 * k + 1] == units[k] / 256,
        units_of(le_bytes(units).push(odd)) == units,
{
    let bytes = le_bytes(units);
    assert((2 * k) % 2 == 0 && (2 * k) / 2 == k);
    assert((2 * k + 1) % 2 == 1 && (2 * k + 1) / 2 == k);
    le_bytes_round_trip(units);
    assert forall|j: int| 0 <= j < units.len() implies units_of(bytes.push(odd))[j] == units[j] by {
        assert(units_of(bytes)[j] == units[j]);
        assert(bytes.push(odd)[2 * j] == bytes[2 * j]);
        assert(bytes.push(odd)[2 * j + 1] == bytes[2 * j + 1]);
    }
    assert(units_of(bytes.push(odd)) =~= units);
}

/// A character is one unit of its own number, or, above 0xFFFF, two: one that
/// opens a pair with the upper ten bits and one that closes it with the lower
/// ten.
pub proof fn a_character_is_one_unit_or_a_pair(c: char)
    ensures
        ({
            let units = utf16_of(seq![c]);
            let v = c as u32;
            &&& v < 0x1_0000 ==> units.len() == 1 && units[0] == v
            &&& v >= 0x1_0000 ==> {
                &&& units.len() == 2
                &&& 0xD800 <= units[0] < 0xDC00
                &&& 0xDC00 <= units[1] < 0xE000
                &&& v == 0x1_0000 + 0x400 * (units[0] - 0xD800) + (units[1] - 0xDC00)
            }
        }),
{
    let text = seq![c];
    assert(text.drop_last() =~= Seq::<char>::empty());
    reveal_with_fuel(utf16_of, 2);
    assert(utf16_of(text) =~= utf16_of_char(c));
    vstd::utf8::char_is_scalar(c);
}

/// Half of a pair among whole characters is replaced, and nothing else is.
pub proof fn a_stray_half_is_replaced(front: Seq<char>, half: u16, back: Seq<char>)
    requires
        0xD800 <= half < 0xE000,
    ensures
        lossy_utf16(utf16_of(front).push(half) + utf16_of(back)) == front.push('\u{FFFD}') + back,
{
    let middle = seq![half];
    let head = utf16_of(front);
    let tail = utf16_of(back);
    assert(head.push(half) + tail =~= head + (middle + tail));
    lemma_first_unit(back);
    lemma_last_unit(front);
    lemma_utf16_split(head, middle + tail);
    lemma_utf16_split(middle, tail);
    utf16_round_trips(front);
    utf16_round_trips(back);
    assert(middle.skip(1) =~= Seq::<u16>::empty());
    reveal_with_fuel(lossy_utf16, 2);
    assert(lossy_utf16(middle) =~= seq!['\u{FFFD}']);
    assert(front + (seq!['\u{FFFD}'] + back) =~= front.push('\u{FFFD}') + back);
}

/// A text does not start with the second half of a pair.
proof fn lemma_first_unit(text: Seq<char>)
    ensures
        utf16_of(text).len() > 0 ==> !is_low_surrogate(utf16_of(text)[0]),
    decreases text.len(),
{
    if text.len() > 0 {
        lemma_first_unit(text.drop_last());
        vstd::utf8::char_is_scalar(text.last());
        if utf16_of(text.drop_last()).len() > 0 {
            assert(utf16_of(text)[0] == utf16_of(text.drop_last())[0]);
        } else {
            assert(utf16_of(text)[0] == utf16_of_char(text.last())[0]);
        }
    }
}

/// A text does not end with the first half of a pair.
proof fn lemma_last_unit(text: Seq<char>)
    ensures
        utf16_of(text).len() > 0 ==> !is_high_surrogate(utf16_of(text).last()),
{
    if text.len() > 0 {
        vstd::utf8::char_is_scalar(text.last());
        assert(utf16_of(text).last() == utf16_of_char(text.last()).last());
    }
}

} // verus!
