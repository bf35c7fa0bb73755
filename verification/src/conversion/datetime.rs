//! Date and time literals.

use vstd::prelude::*;
use vstd::slice::slice_subrange;

use super::calendar::{self, days_in_month, CivilDate, TimeOfDay};
use super::chars::{
    self, chars_of, find, is_digit, only_digits, parse_u16, trim, trim_end,
};

verus! {

/// A time literal, with the number of fractional digits it has.
#[derive(Debug, Clone, Copy, PartialEq, Eq, Structural)]
pub struct ParsedTime {
    pub time: TimeOfDay,
    pub scale: u8,
}

/// A date, a time or both, with or without an offset from UTC.
#[derive(Debug, Clone, Copy, PartialEq, Eq, Structural)]
pub struct DateTimeParts {
    pub year: i16,
    pub month: u16,
    pub day: u16,
    pub hour: u16,
    pub minute: u16,
    pub second: u16,
    /// Nanoseconds of the second.
    pub fraction_ns: u32,
    /// Number of fractional digits the value was given with.
    pub scale: u8,
    /// Hours of the offset, with its sign.
    pub tz_hour: i16,
    /// Minutes of the offset, with its sign.
    pub tz_minute: i16,
    pub has_date: bool,
    pub has_time: bool,
    pub has_tz: bool,
}

impl Default for DateTimeParts {
    fn default() -> (parts: Self)
        ensures
            parts == no_parts(),
    {
        DateTimeParts {
            year: 0,
            month: 0,
            day: 0,
            hour: 0,
            minute: 0,
            second: 0,
            fraction_ns: 0,
            scale: 0,
            tz_hour: 0,
            tz_minute: 0,
            has_date: false,
            has_time: false,
            has_tz: false,
        }
    }
}

/// A value with neither date, time nor offset.
pub open spec fn no_parts() -> DateTimeParts {
    DateTimeParts {
        year: 0,
        month: 0,
        day: 0,
        hour: 0,
        minute: 0,
        second: 0,
        fraction_ns: 0,
        scale: 0,
        tz_hour: 0,
        tz_minute: 0,
        has_date: false,
        has_time: false,
        has_tz: false,
    }
}

/// The date a `YYYY-MM-DD` literal names. The year has four digits; month and
/// day may have any number of them.
pub open spec fn date_of(s: Seq<char>) -> Option<CivilDate> {
    let rest = chars::after(s, '-');
    let y = chars::before(s, '-');
    let m = chars::before(rest, '-');
    let d = chars::after(rest, '-');
    if chars::occurs(s, '-') && chars::occurs(rest, '-') && !chars::occurs(d, '-') && y.len() == 4
        && chars::spec_parse_u16(y) is Some && chars::spec_parse_u16(m) is Some
        && chars::spec_parse_u16(d) is Some {
        let year = chars::decimal_value(y);
        let month = chars::decimal_value(m);
        let day = chars::decimal_value(d);
        if 1 <= year <= 9999 && calendar::date_exists(year, month, day) {
            Some(CivilDate { year: year as i16, month: month as u16, day: day as u16 })
        } else {
            None
        }
    } else {
        None
    }
}

/// The powers of ten a fraction of a second needs.
proof fn lemma_pow10_to_9()
    ensures
        chars::pow10(0) == 1,
        chars::pow10(1) == 10,
        chars::pow10(2) == 100,
        chars::pow10(3) == 1_000,
        chars::pow10(4) == 10_000,
        chars::pow10(5) == 100_000,
        chars::pow10(6) == 1_000_000,
        chars::pow10(7) == 10_000_000,
        chars::pow10(8) == 100_000_000,
        chars::pow10(9) == 1_000_000_000,
{
    reveal_with_fuel(chars::pow10, 10);
}

/// The seconds part of a time literal: `0` when the literal stops at minutes.
pub open spec fn seconds_part(rest: Seq<char>) -> Seq<char> {
    if chars::occurs(rest, ':') {
        chars::after(rest, ':')
    } else {
        seq!['0']
    }
}

/// The time an `HH:MM[:SS[.f]]` literal names, with at most nine fractional
/// digits.
pub open spec fn time_of(s: Seq<char>) -> Option<ParsedTime> {
    let rest = chars::after(s, ':');
    let h = chars::before(s, ':');
    let m = chars::before(rest, ':');
    let sec_part = seconds_part(rest);
    let sec = chars::before(sec_part, '.');
    let frac = if chars::occurs(sec_part, '.') {
        chars::after(sec_part, '.')
    } else {
        Seq::<char>::empty()
    };
    if chars::occurs(s, ':') && !chars::occurs(sec_part, ':') && chars::spec_parse_u16(h) is Some
        && chars::spec_parse_u16(m) is Some && chars::spec_parse_u16(sec) is Some
        && chars::all_digits(frac) && frac.len() <= 9 && chars::decimal_value(h) <= 23
        && chars::decimal_value(m) <= 59 && chars::decimal_value(sec) <= 59 {
        Some(
            ParsedTime {
                time: TimeOfDay {
                    hour: chars::decimal_value(h) as u16,
                    minute: chars::decimal_value(m) as u16,
                    second: chars::decimal_value(sec) as u16,
                    fraction_ns: (chars::decimal_value(frac) * chars::pow10(9 - frac.len())) as u32,
                },
                scale: frac.len() as u8,
            },
        )
    } else {
        None
    }
}

/// Parses `YYYY-MM-DD`.
pub fn parse_date_chars(s: &[char]) -> (date: Option<CivilDate>)
    ensures
        date == date_of(s@),
{
    let first: usize = find(s, '-');
    if first == s.len() {
        return None;
    }
    let y = slice_subrange(s, 0, first);
    let rest = slice_subrange(s, first + 1, s.len());
    assert(y@ =~= chars::before(s@, '-'));
    assert(rest@ =~= chars::after(s@, '-'));
    let second: usize = find(rest, '-');
    if second == rest.len() {
        return None;
    }
    let m = slice_subrange(rest, 0, second);
    let d = slice_subrange(rest, second + 1, rest.len());
    assert(m@ =~= chars::before(rest@, '-'));
    assert(d@ =~= chars::after(rest@, '-'));
    if find(d, '-') != d.len() || y.len() != 4 {
        return None;
    }
    let (year, month, day) = match (parse_u16(y), parse_u16(m), parse_u16(d)) {
        (Some(year), Some(month), Some(day)) => (year, month, day),
        _ => {
            return None;
        },
    };
    if year < 1 || year > 9999 || month < 1 || month > 12 {
        return None;
    }
    if day < 1 || day > days_in_month(year as i16, month) {
        return None;
    }
    Some(CivilDate { year: year as i16, month, day })
}

/// The nanoseconds that up to nine fractional digits denote.
fn fraction_nanos(frac: &[char]) -> (nanos: u32)
    requires
        frac@.len() <= 9,
        chars::all_digits(frac@),
    ensures
        nanos == chars::decimal_value(frac@) * chars::pow10(9 - frac@.len()),
        nanos < 1_000_000_000,
{
    let mut nanos: u32 = 0;
    let mut k: usize = 0;
    proof {
        lemma_pow10_to_9();
    }
    assert(frac@.take(0) =~= Seq::<char>::empty());
    while k < frac.len()
        invariant
            k <= frac@.len() <= 9,
            chars::all_digits(frac@),
            nanos == chars::decimal_value(frac@.take(k as int)),
            nanos < chars::pow10(k as int),
        decreases frac@.len() - k,
    {
        proof {
            lemma_pow10_to_9();
        }
        let digit: u32 = frac[k] as u32 - '0' as u32;
        nanos = nanos * 10 + digit;
        assert(frac@.take(k + 1).drop_last() =~= frac@.take(k as int));
        k = k + 1;
    }
    assert(frac@.take(k as int) =~= frac@);
    let ghost value = nanos as int;
    assert(value * chars::pow10(0) == value) by {
        lemma_pow10_to_9();
    }
    while k < 9
        invariant
            frac@.len() <= k <= 9,
            nanos == value * chars::pow10(k - frac@.len()),
            nanos < chars::pow10(k as int),
        decreases 9 - k,
    {
        proof {
            lemma_pow10_to_9();
            assert(10 * (value * chars::pow10(k - frac@.len())) == value * (10 * chars::pow10(k - frac@.len())))
                by (nonlinear_arith);
        }
        nanos = nanos * 10;
        k = k + 1;
    }
    proof {
        lemma_pow10_to_9();
    }
    nanos
}

/// Parses `HH:MM[:SS[.f{0,9}]]`.
pub fn parse_time_chars(s: &[char]) -> (time: Option<ParsedTime>)
    ensures
        time == time_of(s@),
{
    let first: usize = find(s, ':');
    if first == s.len() {
        return None;
    }
    let hour_s = slice_subrange(s, 0, first);
    let rest = slice_subrange(s, first + 1, s.len());
    assert(hour_s@ =~= chars::before(s@, ':'));
    assert(rest@ =~= chars::after(s@, ':'));
    let second_colon: usize = find(rest, ':');
    let minute_s = slice_subrange(rest, 0, second_colon);
    assert(minute_s@ =~= chars::before(rest@, ':'));
    let zero: Vec<char> = vec!['0'];
    assert(zero@ =~= seq!['0']);
    let sec_part: &[char] = if second_colon < rest.len() {
        slice_subrange(rest, second_colon + 1, rest.len())
    } else {
        zero.as_slice()
    };
    assert(sec_part@ =~= seconds_part(rest@));
    if find(sec_part, ':') != sec_part.len() {
        return None;
    }
    let point: usize = find(sec_part, '.');
    let sec_s = slice_subrange(sec_part, 0, point);
    assert(sec_s@ =~= chars::before(sec_part@, '.'));
    let frac: &[char] = if point < sec_part.len() {
        slice_subrange(sec_part, point + 1, sec_part.len())
    } else {
        slice_subrange(sec_part, point, point)
    };
    assert(frac@ =~= if chars::occurs(sec_part@, '.') {
        chars::after(sec_part@, '.')
    } else {
        Seq::<char>::empty()
    });
    let (hour, minute, second) = match (parse_u16(hour_s), parse_u16(minute_s), parse_u16(sec_s)) {
        (Some(hour), Some(minute), Some(second)) => (hour, minute, second),
        _ => {
            return None;
        },
    };
    if hour > 23 || minute > 59 || second > 59 {
        return None;
    }
    if !only_digits(frac) || frac.len() > 9 {
        return None;
    }
    let fraction_ns: u32 = fraction_nanos(frac);
    Some(
        ParsedTime {
            time: TimeOfDay { hour, minute, second, fraction_ns },
            scale: frac.len() as u8,
        },
    )
}

/// Whether an offset from UTC is a legal one: its parts agree in sign, it has
/// less than 60 minutes, and in total it is at most 14 hours.
pub open spec fn offset_valid(tz_hour: int, tz_minute: int) -> bool {
    let total = tz_hour * 60 + tz_minute;
    &&& !(tz_hour > 0 && tz_minute < 0)
    &&& !(tz_hour < 0 && tz_minute > 0)
    &&& -59 <= tz_minute <= 59
    &&& -840 <= total <= 840
}

/// Whether an offset from UTC is a legal one. A total within bounds is not
/// enough: `+5h -30m` is refused.
pub fn is_valid_timezone_offset(tz_hour: i16, tz_minute: i16) -> (valid: bool)
    ensures
        valid == offset_valid(tz_hour as int, tz_minute as int),
{
    let total: i32 = tz_hour as i32 * 60 + tz_minute as i32;
    !((tz_hour > 0 && tz_minute < 0) || (tz_hour < 0 && tz_minute > 0) || tz_minute < -59
        || tz_minute > 59 || total > 840 || total < -840)
}

/// Whether the text ends in `+HH:MM` or `-HH:MM`.
pub open spec fn has_offset_tail(s: Seq<char>) -> bool {
    let t = s.skip(s.len() - 6);
    &&& s.len() >= 6
    &&& t[0] == '+' || t[0] == '-'
    &&& t[3] == ':'
    &&& chars::spec_is_digit(t[1]) && chars::spec_is_digit(t[2])
    &&& chars::spec_is_digit(t[4]) && chars::spec_is_digit(t[5])
}

/// The offset at the end of a text: hours and minutes, both with its sign.
pub open spec fn offset_tail(s: Seq<char>) -> (int, int) {
    let t = s.skip(s.len() - 6);
    let hours = chars::digit_value(t[1]) * 10 + chars::digit_value(t[2]);
    let minutes = chars::digit_value(t[4]) * 10 + chars::digit_value(t[5]);
    if t[0] == '+' {
        (hours, minutes)
    } else {
        (-hours, -minutes)
    }
}

/// The first `T` or blank, or the length of the text without either.
pub open spec fn separator(s: Seq<char>) -> int {
    let t = chars::spec_find(s, 'T');
    let b = chars::spec_find(s, ' ');
    if t <= b {
        t
    } else {
        b
    }
}

/// The value with the date added.
pub open spec fn with_date(parts: DateTimeParts, date: CivilDate) -> DateTimeParts {
    DateTimeParts { year: date.year, month: date.month, day: date.day, has_date: true, ..parts }
}

/// The value with the time added.
pub open spec fn with_time(parts: DateTimeParts, parsed: ParsedTime) -> DateTimeParts {
    DateTimeParts {
        hour: parsed.time.hour,
        minute: parsed.time.minute,
        second: parsed.time.second,
        fraction_ns: parsed.time.fraction_ns,
        scale: parsed.scale,
        has_time: true,
        ..parts
    }
}

/// The value of a literal without offset and surrounding white space: a date,
/// a time, or both with a `T` or a blank between them.
pub open spec fn body_of(s: Seq<char>) -> Option<DateTimeParts> {
    let at = separator(s);
    if at < s.len() {
        let d = date_of(s.take(at));
        let t = time_of(chars::spec_trim(s.skip(at + 1)));
        if d is Some && t is Some {
            Some(with_time(with_date(no_parts(), d->Some_0), t->Some_0))
        } else {
            None
        }
    } else if chars::occurs(s, ':') {
        match time_of(s) {
            Some(t) => Some(with_time(no_parts(), t)),
            None => None,
        }
    } else {
        match date_of(s) {
            Some(d) => Some(with_date(no_parts(), d)),
            None => None,
        }
    }
}

/// The value of a literal. An offset needs both a date and a time beside it.
pub open spec fn datetime_of(text: Seq<char>) -> Option<DateTimeParts> {
    let s = chars::spec_trim(text);
    if has_offset_tail(s) {
        let (tz_hour, tz_minute) = offset_tail(s);
        match body_of(chars::spec_trim_end(s.take(s.len() - 6))) {
            Some(parts) => if offset_valid(tz_hour, tz_minute) && parts.has_date
                && parts.has_time {
                Some(
                    DateTimeParts {
                        tz_hour: tz_hour as i16,
                        tz_minute: tz_minute as i16,
                        has_tz: true,
                        ..parts
                    },
                )
            } else {
                None
            },
            None => None,
        }
    } else {
        body_of(s)
    }
}

/// Parses a literal without offset and surrounding white space.
fn parse_body(s: &[char]) -> (parts: Option<DateTimeParts>)
    ensures
        parts == body_of(s@),
{
    let t_at: usize = find(s, 'T');
    let b_at: usize = find(s, ' ');
    let at: usize = if t_at <= b_at {
        t_at
    } else {
        b_at
    };
    let mut p: DateTimeParts = DateTimeParts::default();
    if at < s.len() {
        let date_s = slice_subrange(s, 0, at);
        let after_s = slice_subrange(s, at + 1, s.len());
        assert(date_s@ =~= s@.take(at as int));
        assert(after_s@ =~= s@.skip(at + 1));
        let time_s = trim(after_s);
        match (parse_date_chars(date_s), parse_time_chars(time_s)) {
            (Some(date), Some(parsed)) => {
                set_date(&mut p, date);
                set_time(&mut p, parsed);
                Some(p)
            },
            _ => None,
        }
    } else if find(s, ':') != s.len() {
        match parse_time_chars(s) {
            Some(parsed) => {
                set_time(&mut p, parsed);
                Some(p)
            },
            None => None,
        }
    } else {
        match parse_date_chars(s) {
            Some(date) => {
                set_date(&mut p, date);
                Some(p)
            },
            None => None,
        }
    }
}

/// Adds a date to a value.
fn set_date(parts: &mut DateTimeParts, date: CivilDate)
    ensures
        *final(parts) == with_date(*old(parts), date),
{
    parts.year = date.year;
    parts.month = date.month;
    parts.day = date.day;
    parts.has_date = true;
}

/// Adds a time to a value.
fn set_time(parts: &mut DateTimeParts, parsed: ParsedTime)
    ensures
        *final(parts) == with_time(*old(parts), parsed),
{
    parts.hour = parsed.time.hour;
    parts.minute = parsed.time.minute;
    parts.second = parsed.time.second;
    parts.fraction_ns = parsed.time.fraction_ns;
    parts.scale = parsed.scale;
    parts.has_time = true;
}

/// Parses a date, time, timestamp or timestamp-with-offset literal.
pub fn parse_datetime_literal(text: &str) -> (parts: Option<DateTimeParts>)
    ensures
        parts == datetime_of(text@),
{
    let all: Vec<char> = chars_of(text);
    let s = trim(all.as_slice());
    let n: usize = s.len();
    if n >= 6 {
        let sign_char: char = s[n - 6];
        if (sign_char == '+' || sign_char == '-') && s[n - 3] == ':' && is_digit(s[n - 5])
            && is_digit(s[n - 4]) && is_digit(s[n - 2]) && is_digit(s[n - 1]) {
            proof {
                let t = s@.skip(n - 6);
                assert(t[0] == s@[n - 6] && t[1] == s@[n - 5] && t[2] == s@[n - 4] && t[3] == s@[n
                    - 3] && t[4] == s@[n - 2] && t[5] == s@[n - 1]);
            }
            let zero: u32 = '0' as u32;
            let hh: i16 = ((s[n - 5] as u32 - zero) * 10 + (s[n - 4] as u32 - zero)) as i16;
            let mm: i16 = ((s[n - 2] as u32 - zero) * 10 + (s[n - 1] as u32 - zero)) as i16;
            let (tz_hour, tz_minute): (i16, i16) = if sign_char == '+' {
                (hh, mm)
            } else {
                (-hh, -mm)
            };
            if !is_valid_timezone_offset(tz_hour, tz_minute) {
                return None;
            }
            let head = slice_subrange(s, 0, n - 6);
            assert(head@ =~= s@.take(n - 6));
            let body = trim_end(head);
            return match parse_body(body) {
                Some(parts) => if parts.has_date && parts.has_time {
                    let mut p: DateTimeParts = parts;
                    p.tz_hour = tz_hour;
                    p.tz_minute = tz_minute;
                    p.has_tz = true;
                    Some(p)
                } else {
                    None
                },
                None => None,
            };
        }
        proof {
            let t = s@.skip(n - 6);
            assert(t[0] == s@[n - 6] && t[1] == s@[n - 5] && t[2] == s@[n - 4] && t[3] == s@[n - 3]
                && t[4] == s@[n - 2] && t[5] == s@[n - 1]);
        }
    }
    parse_body(s)
}

/// Parses `YYYY-MM-DD`.
pub fn parse_date_literal(s: &str) -> (date: Option<CivilDate>)
    ensures
        date == date_of(s@),
{
    let all: Vec<char> = chars_of(s);
    parse_date_chars(all.as_slice())
}

/// Parses `HH:MM[:SS[.f{0,9}]]`.
pub fn parse_time_literal(s: &str) -> (time: Option<ParsedTime>)
    ensures
        time == time_of(s@),
{
    let all: Vec<char> = chars_of(s);
    parse_time_chars(all.as_slice())
}

/// A parsed date exists and has a year from 1 to 9999.
proof fn lemma_date_valid(s: Seq<char>)
    ensures
        date_of(s) matches Some(d) ==> 1 <= d.year <= 9999 && calendar::date_exists(
            d.year as int,
            d.month as int,
            d.day as int,
        ),
{
}

/// Digits denote less than the power of ten that they are many.
proof fn lemma_digits_bound(s: Seq<char>)
    requires
        chars::all_digits(s),
    ensures
        0 <= chars::decimal_value(s) < chars::pow10(s.len() as int),
    decreases s.len(),
{
    if s.len() > 0 {
        lemma_digits_bound(s.drop_last());
    }
}

/// Fractional digits denote less than a second.
proof fn lemma_fraction_bound(frac: Seq<char>)
    requires
        frac.len() <= 9,
        chars::all_digits(frac),
    ensures
        0 <= chars::decimal_value(frac) * chars::pow10(9 - frac.len()) < 1_000_000_000,
{
    lemma_digits_bound(frac);
    lemma_pow10_to_9();
    let n = frac.len() as int;
    assert(n == 0 || n == 1 || n == 2 || n == 3 || n == 4 || n == 5 || n == 6 || n == 7 || n == 8
        || n == 9);
}

/// A parsed time exists and has at most nine fractional digits, which denote
/// less than a second.
proof fn lemma_time_valid(s: Seq<char>)
    ensures
        time_of(s) matches Some(t) ==> t.time.hour <= 23 && t.time.minute <= 59 && t.time.second
            <= 59 && t.time.fraction_ns < 1_000_000_000 && t.scale <= 9,
{
    let rest = chars::after(s, ':');
    let h = chars::before(s, ':');
    let m = chars::before(rest, ':');
    let sec_part = seconds_part(rest);
    let sec = chars::before(sec_part, '.');
    let frac = if chars::occurs(sec_part, '.') {
        chars::after(sec_part, '.')
    } else {
        Seq::<char>::empty()
    };
    if time_of(s) is Some {
        chars::lemma_decimal_value_nonneg(h);
        chars::lemma_decimal_value_nonneg(m);
        chars::lemma_decimal_value_nonneg(sec);
        lemma_fraction_bound(frac);
    }
}

/// Every accepted literal has a date that exists, a time of day that exists
/// and a legal offset, as far as it has them at all; what it has not is zero.
/// And it has a date or a time, both of them beside an offset.
pub proof fn accepted_literals_are_valid(text: Seq<char>)
    ensures
        datetime_of(text) matches Some(p) ==> {
            &&& p.has_date || p.has_time
            &&& p.has_date ==> 1 <= p.year <= 9999 && calendar::date_exists(
                p.year as int,
                p.month as int,
                p.day as int,
            )
            &&& !p.has_date ==> p.year == 0 && p.month == 0 && p.day == 0
            &&& p.has_time ==> p.hour <= 23 && p.minute <= 59 && p.second <= 59 && p.fraction_ns
                < 1_000_000_000 && p.scale <= 9
            &&& !p.has_time ==> p.hour == 0 && p.minute == 0 && p.second == 0 && p.fraction_ns == 0
                && p.scale == 0
            &&& p.has_tz ==> p.has_date && p.has_time && offset_valid(
                p.tz_hour as int,
                p.tz_minute as int,
            )
            &&& !p.has_tz ==> p.tz_hour == 0 && p.tz_minute == 0
        },
{
    let s = chars::spec_trim(text);
    let body = if has_offset_tail(s) {
        chars::spec_trim_end(s.take(s.len() - 6))
    } else {
        s
    };
    let at = separator(body);
    lemma_date_valid(body);
    lemma_time_valid(body);
    lemma_date_valid(body.take(at));
    lemma_time_valid(chars::spec_trim(body.skip(at + 1)));
}

/// The first separator stands behind a text that has none.
proof fn lemma_separator_behind(date: Seq<char>, sep: char, time: Seq<char>)
    requires
        sep == 'T' || sep == ' ',
        forall|k: int| 0 <= k < date.len() ==> #[trigger] date[k] != 'T' && date[k] != ' ',
    ensures
        separator(date.push(sep) + time) == date.len(),
{
    let s = date.push(sep) + time;
    chars::lemma_find(s, 'T');
    chars::lemma_find(s, ' ');
    let at = separator(s);
    assert(s[date.len() as int] == sep);
    if at < date.len() {
        assert(s[at] == date[at]);
    }
}

/// The value of a literal does not depend on which separator it has.
proof fn lemma_body_with_either_separator(date: Seq<char>, time: Seq<char>)
    requires
        forall|k: int| 0 <= k < date.len() ==> #[trigger] date[k] != 'T' && date[k] != ' ',
    ensures
        body_of(date.push('T') + time) == body_of(date.push(' ') + time),
{
    let with_t = date.push('T') + time;
    let with_blank = date.push(' ') + time;
    let at = date.len() as int;
    lemma_separator_behind(date, 'T', time);
    lemma_separator_behind(date, ' ', time);
    assert(with_t.take(at) =~= with_blank.take(at));
    assert(with_t.skip(at + 1) =~= with_blank.skip(at + 1));
}

/// Trailing white space of two texts, one behind the other.
proof fn lemma_trim_end_behind(front: Seq<char>, back: Seq<char>)
    ensures
        chars::spec_trim_end(front + back) == (if chars::spec_trim_end(back).len() == 0 {
            chars::spec_trim_end(front)
        } else {
            front + chars::spec_trim_end(back)
        }),
    decreases back.len(),
{
    if back.len() == 0 {
        assert(front + back =~= front);
    } else {
        assert((front + back).last() == back.last());
        assert((front + back).drop_last() =~= front + back.drop_last());
        if chars::spec_is_whitespace(back.last()) {
            lemma_trim_end_behind(front, back.drop_last());
        }
    }
}

/// A text without its trailing white space is the front of it.
proof fn lemma_trim_end_is_front(s: Seq<char>)
    ensures
        chars::spec_trim_end(s).len() <= s.len(),
        chars::spec_trim_end(s) == s.take(chars::spec_trim_end(s).len() as int),
    decreases s.len(),
{
    if s.len() > 0 && chars::spec_is_whitespace(s.last()) {
        lemma_trim_end_is_front(s.drop_last());
        let n = chars::spec_trim_end(s).len() as int;
        assert(s.drop_last().take(n) =~= s.take(n));
    } else {
        assert(s.take(s.len() as int) =~= s);
    }
}

/// Between a date and a time a `T` and a blank mean the same, with an offset
/// behind them or without.
pub proof fn either_separator_will_do(date: Seq<char>, time: Seq<char>)
    requires
        date.len() > 0,
        !chars::spec_is_whitespace(date[0]),
        forall|k: int| 0 <= k < date.len() ==> #[trigger] date[k] != 'T' && date[k] != ' ',
        time.len() > 0,
        !chars::spec_is_whitespace(time.last()),
    ensures
        datetime_of(date.push('T') + time) == datetime_of(date.push(' ') + time),
{
    let with_t = date.push('T') + time;
    let with_blank = date.push(' ') + time;
    let n = with_t.len() as int;
    let at = date.len() as int;
    assert(with_t[0] == date[0] && with_blank[0] == date[0]);
    assert(with_t.last() == time.last() && with_blank.last() == time.last());
    assert(chars::spec_trim(with_t) == with_t);
    assert(chars::spec_trim(with_blank) == with_blank);
    if at >= n - 6 {
        if n >= 6 {
            assert(with_t.skip(n - 6)[at - (n - 6)] == 'T');
            assert(with_blank.skip(n - 6)[at - (n - 6)] == ' ');
        }
        lemma_body_with_either_separator(date, time);
    } else {
        assert(with_t.skip(n - 6) =~= with_blank.skip(n - 6));
        if has_offset_tail(with_t) {
            let front = time.take(time.len() - 6);
            assert(with_t.take(n - 6) =~= date.push('T') + front);
            assert(with_blank.take(n - 6) =~= date.push(' ') + front);
            lemma_trim_end_behind(date.push('T'), front);
            lemma_trim_end_behind(date.push(' '), front);
            let kept = chars::spec_trim_end(front);
            if kept.len() == 0 {
                assert(date.push('T').drop_last() =~= date);
                assert(date.push(' ').drop_last() =~= date);
                assert(chars::spec_trim_end(date.push('T')) == date.push('T'));
                assert(date.push('T') + Seq::<char>::empty() =~= date.push('T'));
                lemma_separator_behind(date, 'T', Seq::empty());
                assert(date.push('T').skip(at + 1) =~= Seq::<char>::empty());
                assert(chars::spec_trim(Seq::<char>::empty()) =~= Seq::<char>::empty());
                assert(!chars::occurs(Seq::<char>::empty(), ':'));
                let bare = chars::spec_trim_end(date);
                lemma_trim_end_is_front(date);
                chars::lemma_find(bare, 'T');
                chars::lemma_find(bare, ' ');
                assert(separator(bare) == bare.len()) by {
                    if separator(bare) < bare.len() {
                        assert(bare[separator(bare)] == date[separator(bare)]);
                    }
                }
            } else {
                lemma_body_with_either_separator(date, kept);
            }
        } else {
            lemma_body_with_either_separator(date, time);
        }
    }
}

/// What a date literal is made of.
proof fn lemma_date_text(s: Seq<char>)
    requires
        date_of(s) is Some,
    ensures
        s.len() > 0,
        chars::spec_is_digit(s[0]),
        forall|k: int| 0 <= k < s.len() ==> chars::spec_is_digit(#[trigger] s[k]) || s[k] == '-',
        s.last() != '-',
{
    let rest = chars::after(s, '-');
    let y = chars::before(s, '-');
    let m = chars::before(rest, '-');
    let d = chars::after(rest, '-');
    chars::lemma_find(s, '-');
    chars::lemma_find(rest, '-');
    let a = chars::spec_find(s, '-');
    let b = chars::spec_find(rest, '-');
    assert forall|k: int| 0 <= k < s.len() implies chars::spec_is_digit(#[trigger] s[k]) || s[k]
        == '-' by {
        if k < a {
            assert(y[k] == s[k]);
        } else if k > a {
            assert(rest[k - a - 1] == s[k]);
            if k - a - 1 < b {
                assert(m[k - a - 1] == s[k]);
            } else if k - a - 1 > b {
                assert(d[k - a - 1 - b - 1] == s[k]);
            }
        }
    }
    assert(y[0] == s[0]);
    assert(d.last() == s.last());
}

/// What a time literal is made of.
proof fn lemma_time_text(s: Seq<char>)
    requires
        time_of(s) is Some,
    ensures
        s.len() > 0,
        chars::spec_is_digit(s[0]),
        forall|k: int|
            0 <= k < s.len() ==> chars::spec_is_digit(#[trigger] s[k]) || s[k] == ':' || s[k]
                == '.',
{
    let rest = chars::after(s, ':');
    let h = chars::before(s, ':');
    let m = chars::before(rest, ':');
    let sec_part = seconds_part(rest);
    let sec = chars::before(sec_part, '.');
    chars::lemma_find(s, ':');
    chars::lemma_find(rest, ':');
    chars::lemma_find(sec_part, '.');
    let a = chars::spec_find(s, ':');
    let b = chars::spec_find(rest, ':');
    let c = chars::spec_find(sec_part, '.');
    assert forall|k: int| 0 <= k < s.len() implies chars::spec_is_digit(#[trigger] s[k]) || s[k]
        == ':' || s[k] == '.' by {
        if k < a {
            assert(h[k] == s[k]);
        } else if k > a {
            let i = k - a - 1;
            assert(rest[i] == s[k]);
            if i < b {
                assert(m[i] == s[k]);
            } else if i > b {
                let j = i - b - 1;
                assert(sec_part[j] == s[k]);
                if j < c {
                    assert(sec[j] == s[k]);
                } else if j > c {
                    assert(chars::after(sec_part, '.')[j - c - 1] == s[k]);
                }
            }
        }
    }
    assert(h[0] == s[0]);
}

/// A date and a time with a separator between them have no offset at the end,
/// and no white space around them.
proof fn lemma_no_offset(date: Seq<char>, sep: char, time: Seq<char>)
    requires
        date_of(date) is Some,
        time_of(time) is Some,
        sep == 'T' || sep == ' ',
    ensures
        !has_offset_tail(date.push(sep) + time),
        body_of(date.push(sep) + time) == Some(
            with_time(with_date(no_parts(), date_of(date)->Some_0), time_of(time)->Some_0),
        ),
        chars::spec_trim(date.push(sep) + time) == date.push(sep) + time,
        chars::spec_trim_end(date.push(sep) + time) == date.push(sep) + time,
{
    let s = date.push(sep) + time;
    let n = s.len() as int;
    lemma_date_text(date);
    lemma_time_text(time);
    assert(chars::spec_is_digit(time.last()) || time.last() == ':' || time.last() == '.');
    if n >= 6 {
        let t = s.skip(n - 6);
        if time.len() >= 6 {
            assert(t[0] == time[time.len() - 6]);
        } else {
            assert(t[5 - time.len()] == sep);
        }
    }
    assert(s[0] == date[0] && s.last() == time.last());
    lemma_separator_behind(date, sep, time);
    assert(s.take(date.len() as int) =~= date);
    assert(s.skip(date.len() as int + 1) =~= time);
    chars::trimming_drops_white_space_at_the_ends(Seq::empty(), time, Seq::empty());
    chars::trimming_drops_white_space_at_the_ends(Seq::empty(), s, Seq::empty());
}

/// Whether parts are those of a date and a time, and of no offset.
pub open spec fn are_of(parts: DateTimeParts, date: CivilDate, time: ParsedTime) -> bool {
    &&& parts.has_date && parts.year == date.year && parts.month == date.month && parts.day
        == date.day
    &&& parts.has_time && parts.hour == time.time.hour && parts.minute == time.time.minute
        && parts.second == time.time.second
    &&& parts.fraction_ns == time.time.fraction_ns && parts.scale == time.scale
}

/// A timestamp is its date and its time: a date literal, a `T` or a blank, and a
/// time literal have the year, month and day of the one and the hour, minute,
/// second, fraction and scale of the other.
pub proof fn a_timestamp_is_its_date_and_its_time(date: Seq<char>, sep: char, time: Seq<char>)
    requires
        date_of(date) is Some,
        time_of(time) is Some,
        sep == 'T' || sep == ' ',
    ensures
        datetime_of(date.push(sep) + time) matches Some(parts) && are_of(
            parts,
            date_of(date)->Some_0,
            time_of(time)->Some_0,
        ) && !parts.has_tz && parts.tz_hour == 0 && parts.tz_minute == 0,
{
    lemma_no_offset(date, sep, time);
}

/// A date literal alone has that date and nothing else, and a time literal alone
/// that time.
pub proof fn a_date_or_a_time_may_stand_alone(date: Seq<char>, time: Seq<char>)
    ensures
        date_of(date) matches Some(d) ==> datetime_of(date) matches Some(parts) && parts.has_date
            && !parts.has_time && !parts.has_tz && parts.year == d.year && parts.month == d.month
            && parts.day == d.day,
        time_of(time) matches Some(t) ==> datetime_of(time) matches Some(parts) && parts.has_time
            && !parts.has_date && !parts.has_tz && parts.hour == t.time.hour && parts.minute
            == t.time.minute && parts.second == t.time.second && parts.fraction_ns
            == t.time.fraction_ns && parts.scale == t.scale,
{
    if date_of(date) is Some {
        lemma_date_text(date);
        let n = date.len() as int;
        chars::trimming_drops_white_space_at_the_ends(Seq::empty(), date, Seq::empty());
        assert(chars::spec_is_digit(date.last()) || date.last() == '-');
        if n >= 6 {
            assert(date.skip(n - 6)[3] == date[n - 3]);
        }
        chars::lemma_not_found(date, 'T');
        chars::lemma_not_found(date, ' ');
        chars::lemma_not_found(date, ':');
        chars::lemma_find(date, 'T');
        chars::lemma_find(date, ' ');
    }
    if time_of(time) is Some {
        lemma_time_text(time);
        let n = time.len() as int;
        chars::trimming_drops_white_space_at_the_ends(Seq::empty(), time, Seq::empty());
        assert(chars::spec_is_digit(time.last()) || time.last() == ':' || time.last() == '.');
        if n >= 6 {
            assert(time.skip(n - 6)[0] == time[n - 6]);
        }
        chars::lemma_not_found(time, 'T');
        chars::lemma_not_found(time, ' ');
        chars::lemma_find(time, 'T');
        chars::lemma_find(time, ' ');
    }
}

/// An offset behind a timestamp, with white space before it or without, has the
/// hours and minutes it is written with, both with its sign. It may have up to
/// 59 minutes and be up to 14 hours in all; what exceeds either is refused with
/// the whole literal.
pub proof fn an_offset_stands_behind_a_timestamp(
    date: Seq<char>,
    sep: char,
    time: Seq<char>,
    blanks: Seq<char>,
    sign: char,
    hours: int,
    minutes: int,
)
    requires
        date_of(date) is Some,
        time_of(time) is Some,
        sep == 'T' || sep == ' ',
        forall|k: int| 0 <= k < blanks.len() ==> chars::spec_is_whitespace(#[trigger] blanks[k]),
        sign == '+' || sign == '-',
        0 <= hours < 100,
        0 <= minutes < 100,
    ensures
        ({
            let text = date.push(sep) + time + blanks + (seq![sign] + chars::two_digits(hours)
                + seq![':'] + chars::two_digits(minutes));
            let parsed = datetime_of(text);
            if minutes <= 59 && (hours < 14 || hours == 14 && minutes == 0) {
                &&& parsed matches Some(parts)
                &&& are_of(parts, date_of(date)->Some_0, time_of(time)->Some_0)
                &&& parts.has_tz
                &&& sign == '+' ==> parts.tz_hour == hours && parts.tz_minute == minutes
                &&& sign == '-' ==> parts.tz_hour == -hours && parts.tz_minute == -minutes
            } else {
                parsed is None
            }
        }),
{
    let stamp = date.push(sep) + time;
    let offset = seq![sign] + chars::two_digits(hours) + seq![':'] + chars::two_digits(minutes);
    let front = stamp + blanks;
    let text = front + offset;
    let n = text.len() as int;
    lemma_date_text(date);
    lemma_no_offset(date, sep, time);
    assert(text[0] == date[0]);
    assert(text.last() == chars::digit(minutes % 10));
    chars::trimming_drops_white_space_at_the_ends(Seq::empty(), text, Seq::empty());
    chars::trimming_drops_white_space_at_the_ends(Seq::empty(), stamp, blanks);
    let t = text.skip(n - 6);
    assert(t =~= offset);
    assert(t[0] == sign && t[1] == chars::digit(hours / 10) && t[2] == chars::digit(hours % 10)
        && t[3] == ':' && t[4] == chars::digit(minutes / 10) && t[5] == chars::digit(
        minutes % 10,
    ));
    assert(text.take(n - 6) =~= front);
}

/// White space around a literal changes nothing.
pub proof fn white_space_around_a_literal_is_dropped(
    lead: Seq<char>,
    text: Seq<char>,
    trail: Seq<char>,
)
    requires
        forall|k: int| 0 <= k < lead.len() ==> chars::spec_is_whitespace(#[trigger] lead[k]),
        forall|k: int| 0 <= k < trail.len() ==> chars::spec_is_whitespace(#[trigger] trail[k]),
    ensures
        datetime_of(lead + text + trail) == datetime_of(text),
{
    chars::trimming_drops_white_space_at_the_ends(lead, text, trail);
}

/// An offset needs a date and a time: behind a time or a date alone it is
/// refused.
pub proof fn an_offset_needs_a_date_and_a_time(text: Seq<char>)
    ensures
        datetime_of(text) matches Some(parts) ==> parts.has_tz ==> parts.has_date
            && parts.has_time,
{
}

/// A date literal is year, month and day in digits with hyphens between them:
/// the year in four, and the date must exist.
pub proof fn a_date_is_read_as_written(year: int, month: int, day: int)
    requires
        0 <= year < 10_000,
        0 <= month < 100,
        0 <= day < 100,
    ensures
        ({
            let text = chars::four_digits(year).push('-') + (chars::two_digits(month).push('-')
                + chars::two_digits(day));
            if year >= 1 && calendar::date_exists(year, month, day) {
                date_of(text) == Some(
                    CivilDate { year: year as i16, month: month as u16, day: day as u16 },
                )
            } else {
                date_of(text) is None
            }
        }),
{
    chars::four_digits_denote_their_number(year);
    chars::two_digits_denote_their_number(month);
    chars::two_digits_denote_their_number(day);
    let y = chars::four_digits(year);
    let m = chars::two_digits(month);
    let d = chars::two_digits(day);
    chars::lemma_found_behind(y, '-', m.push('-') + d);
    chars::lemma_found_behind(m, '-', d);
    chars::lemma_not_found(d, '-');
}

/// A time literal is hours, minutes, seconds and a fraction in digits, with
/// colons and a point between them. The fraction counts parts of a second, and
/// its digits are the scale; without seconds or fraction these are zero.
pub proof fn a_time_is_read_as_written(hour: int, minute: int, second: int, fraction: Seq<char>)
    requires
        0 <= hour < 100,
        0 <= minute < 100,
        0 <= second < 100,
        chars::all_digits(fraction),
    ensures
        ({
            let short = chars::two_digits(hour).push(':') + chars::two_digits(minute);
            let long = short.push(':') + chars::two_digits(second);
            let full = long.push('.') + fraction;
            let exists_short = hour < 24 && minute < 60;
            let exists_long = exists_short && second < 60;
            let exists_full = exists_long && fraction.len() <= 9;
            &&& time_of(short) is Some <==> exists_short
            &&& time_of(long) is Some <==> exists_long
            &&& time_of(full) is Some <==> exists_full
            &&& time_of(short) matches Some(t) ==> t.time.hour == hour && t.time.minute == minute
                && t.time.second == 0 && t.time.fraction_ns == 0 && t.scale == 0
            &&& time_of(long) matches Some(t) ==> t.time.hour == hour && t.time.minute == minute
                && t.time.second == second && t.time.fraction_ns == 0 && t.scale == 0
            &&& time_of(full) matches Some(t) ==> t.time.hour == hour && t.time.minute == minute
                && t.time.second == second && t.scale == fraction.len() && t.time.fraction_ns
                == chars::decimal_value(fraction) * chars::pow10(9 - fraction.len())
        }),
{
    let h = chars::two_digits(hour);
    let m = chars::two_digits(minute);
    let s = chars::two_digits(second);
    chars::two_digits_denote_their_number(hour);
    chars::two_digits_denote_their_number(minute);
    chars::two_digits_denote_their_number(second);
    let short = h.push(':') + m;
    let long = short.push(':') + s;
    let full = long.push('.') + fraction;
    let none = Seq::<char>::empty();
    lemma_pow10_to_9();
    chars::lemma_found_behind(h, ':', m);
    chars::lemma_not_found(m, ':');
    chars::lemma_not_found(seq!['0'], ':');
    chars::lemma_not_found(seq!['0'], '.');
    assert(chars::decimal_value(seq!['0']) == 0) by {
        reveal_with_fuel(chars::decimal_value, 2);
        assert(seq!['0'].drop_last() =~= none);
    }
    assert(chars::decimal_value(none) == 0);
    assert(long =~= h.push(':') + (m.push(':') + s));
    chars::lemma_found_behind(h, ':', m.push(':') + s);
    chars::lemma_found_behind(m, ':', s);
    chars::lemma_not_found(s, ':');
    chars::lemma_not_found(s, '.');
    let with_fraction = s.push('.') + fraction;
    assert(full =~= h.push(':') + (m.push(':') + with_fraction));
    chars::lemma_found_behind(h, ':', m.push(':') + with_fraction);
    chars::lemma_found_behind(m, ':', with_fraction);
    assert forall|k: int| 0 <= k < with_fraction.len() implies #[trigger] with_fraction[k]
        != ':' by {
        if k > 2 {
            assert(with_fraction[k] == fraction[k - 3]);
        }
    }
    chars::lemma_not_found(with_fraction, ':');
    chars::lemma_found_behind(s, '.', fraction);
    if fraction.len() <= 9 {
        lemma_fraction_bound(fraction);
    }
}

/// Nine fractional digits count nanoseconds, and a zero behind fewer of them
/// changes nothing but the scale.
pub proof fn a_fraction_counts_parts_of_a_second(fraction: Seq<char>)
    requires
        chars::all_digits(fraction),
        fraction.len() <= 9,
    ensures
        fraction.len() == 9 ==> chars::decimal_value(fraction) * chars::pow10(9 - fraction.len())
            == chars::decimal_value(fraction),
        fraction.len() < 9 ==> chars::decimal_value(fraction) * chars::pow10(9 - fraction.len())
            == chars::decimal_value(fraction.push('0')) * chars::pow10(
            9 - fraction.push('0').len(),
        ),
{
    lemma_pow10_to_9();
    chars::digits_are_decimal(fraction, 0);
    assert(chars::digit(0) == '0');
    let v = chars::decimal_value(fraction);
    let p = chars::pow10(8 - fraction.len());
    if fraction.len() < 9 {
        assert(v * (10 * p) == (10 * v) * p) by (nonlinear_arith);
    }
}

/// An offset is legal in either direction, by its minutes and its whole: hours
/// and minutes that contradict each other in sign never are.
pub proof fn legal_offsets_are_up_to_fourteen_hours(hours: int, minutes: int)
    requires
        0 <= hours,
        0 <= minutes,
    ensures
        offset_valid(hours, minutes) <==> minutes <= 59 && (hours < 14 || hours == 14 && minutes
            == 0),
        offset_valid(-hours, -minutes) <==> offset_valid(hours, minutes),
        hours > 0 && minutes > 0 ==> !offset_valid(hours, -minutes) && !offset_valid(
            -hours,
            minutes,
        ),
{
}

/// A date and a time written out in digits are read as that date and that time.
pub proof fn a_timestamp_is_read_as_written(
    date: CivilDate,
    sep: char,
    time: TimeOfDay,
    fraction: Seq<char>,
)
    requires
        1 <= date.year <= 9999,
        calendar::date_exists(date.year as int, date.month as int, date.day as int),
        sep == 'T' || sep == ' ',
        time.hour < 24,
        time.minute < 60,
        time.second < 60,
        chars::all_digits(fraction),
        fraction.len() == 9,
        chars::decimal_value(fraction) == time.fraction_ns,
    ensures
        ({
            let day = chars::four_digits(date.year as int).push('-') + (chars::two_digits(
                date.month as int,
            ).push('-') + chars::two_digits(date.day as int));
            let clock = (chars::two_digits(time.hour as int).push(':') + chars::two_digits(
                time.minute as int,
            )).push(':') + chars::two_digits(time.second as int);
            datetime_of(day.push(sep) + (clock.push('.') + fraction)) matches Some(parts) && are_of(
                parts,
                date,
                (ParsedTime { time, scale: 9 }),
            ) && !parts.has_tz
        }),
{
    let day = chars::four_digits(date.year as int).push('-') + (chars::two_digits(
        date.month as int,
    ).push('-') + chars::two_digits(date.day as int));
    let clock = (chars::two_digits(time.hour as int).push(':') + chars::two_digits(
        time.minute as int,
    )).push(':') + chars::two_digits(time.second as int);
    assert(date.day <= 31);
    a_date_is_read_as_written(date.year as int, date.month as int, date.day as int);
    a_time_is_read_as_written(
        time.hour as int,
        time.minute as int,
        time.second as int,
        fraction,
    );
    a_fraction_counts_parts_of_a_second(fraction);
    a_timestamp_is_its_date_and_its_time(day, sep, clock.push('.') + fraction);
}

} // verus!
