//! Characters of a literal: trimming, splitting and digits.

use vstd::prelude::*;
use vstd::slice::slice_subrange;

verus! {

/// Whether a character has the Unicode property White_Space.
pub open spec fn spec_is_whitespace(c: char) -> bool {
    let u = c as u32;
    ||| 0x09 <= u <= 0x0d
    ||| u == 0x20
    ||| u == 0x85
    ||| u == 0xa0
    ||| u == 0x1680
    ||| 0x2000 <= u <= 0x200a
    ||| u == 0x2028
    ||| u == 0x2029
    ||| u == 0x202f
    ||| u == 0x205f
    ||| u == 0x3000
}

/// Whether a character has the Unicode property White_Space.
pub fn is_whitespace(c: char) -> (whitespace: bool)
    ensures
        whitespace == spec_is_whitespace(c),
{
    let u: u32 = c as u32;
    (0x09 <= u && u <= 0x0d) || u == 0x20 || u == 0x85 || u == 0xa0 || u == 0x1680 || (0x2000 <= u
        && u <= 0x200a) || u == 0x2028 || u == 0x2029 || u == 0x202f || u == 0x205f || u == 0x3000
}

/// The text without leading white space.
pub open spec fn spec_trim_start(s: Seq<char>) -> Seq<char>
    decreases s.len(),
{
    if s.len() > 0 && spec_is_whitespace(s[0]) {
        spec_trim_start(s.drop_first())
    } else {
        s
    }
}

/// The text without trailing white space.
pub open spec fn spec_trim_end(s: Seq<char>) -> Seq<char>
    decreases s.len(),
{
    if s.len() > 0 && spec_is_whitespace(s.last()) {
        spec_trim_end(s.drop_last())
    } else {
        s
    }
}

/// The text without leading and trailing white space.
pub open spec fn spec_trim(s: Seq<char>) -> Seq<char> {
    spec_trim_end(spec_trim_start(s))
}

/// The text without trailing white space.
pub fn trim_end(s: &[char]) -> (trimmed: &[char])
    ensures
        trimmed@ == spec_trim_end(s@),
{
    let mut end: usize = s.len();
    assert(s@.take(end as int) =~= s@);
    while end > 0 && is_whitespace(s[end - 1])
        invariant
            end <= s@.len(),
            spec_trim_end(s@.take(end as int)) == spec_trim_end(s@),
        decreases end,
    {
        assert(s@.take(end as int).drop_last() =~= s@.take(end - 1));
        end = end - 1;
    }
    let trimmed = slice_subrange(s, 0, end);
    assert(trimmed@ =~= s@.take(end as int));
    trimmed
}

/// The text without leading and trailing white space.
pub fn trim(s: &[char]) -> (trimmed: &[char])
    ensures
        trimmed@ == spec_trim(s@),
{
    let mut start: usize = 0;
    assert(s@.skip(0) =~= s@);
    while start < s.len() && is_whitespace(s[start])
        invariant
            start <= s@.len(),
            spec_trim_start(s@.skip(start as int)) == spec_trim_start(s@),
        decreases s@.len() - start,
    {
        assert(s@.skip(start as int).drop_first() =~= s@.skip(start + 1));
        start = start + 1;
    }
    let rest = slice_subrange(s, start, s.len());
    assert(rest@ =~= s@.skip(start as int));
    trim_end(rest)
}

/// The first position of `sep`, or the length of the text without one.
pub open spec fn spec_find(s: Seq<char>, sep: char) -> int
    decreases s.len(),
{
    if s.len() == 0 || s[0] == sep {
        0
    } else {
        1 + spec_find(s.drop_first(), sep)
    }
}

/// A separator is found where it first stands.
pub proof fn lemma_find(s: Seq<char>, sep: char)
    ensures
        0 <= spec_find(s, sep) <= s.len(),
        forall|k: int| 0 <= k < spec_find(s, sep) ==> s[k] != sep,
        spec_find(s, sep) < s.len() ==> s[spec_find(s, sep)] == sep,
    decreases s.len(),
{
    if s.len() > 0 && s[0] != sep {
        lemma_find(s.drop_first(), sep);
        assert forall|k: int| 0 <= k < spec_find(s, sep) implies s[k] != sep by {
            if k > 0 {
                assert(s[k] == s.drop_first()[k - 1]);
            }
        }
    }
}

/// The first position of `sep`, or the length of the text without one.
pub fn find(s: &[char], sep: char) -> (at: usize)
    ensures
        at == spec_find(s@, sep),
        at <= s@.len(),
        at < s@.len() ==> s@[at as int] == sep,
{
    let mut at: usize = 0;
    assert(s@.skip(0) =~= s@);
    while at < s.len() && s[at] != sep
        invariant
            at <= s@.len(),
            at + spec_find(s@.skip(at as int), sep) == spec_find(s@, sep),
        decreases s@.len() - at,
    {
        assert(s@.skip(at as int).drop_first() =~= s@.skip(at + 1));
        at = at + 1;
    }
    at
}

/// What stands before the first `sep`; the whole text without one.
pub open spec fn before(s: Seq<char>, sep: char) -> Seq<char> {
    s.take(spec_find(s, sep))
}

/// What stands after the first `sep`.
pub open spec fn after(s: Seq<char>, sep: char) -> Seq<char> {
    s.skip(spec_find(s, sep) + 1)
}

/// Whether `sep` occurs.
pub open spec fn occurs(s: Seq<char>, sep: char) -> bool {
    spec_find(s, sep) < s.len()
}

/// Whether a character is an ASCII digit.
pub open spec fn spec_is_digit(c: char) -> bool {
    '0' <= c <= '9'
}

/// The value of an ASCII digit.
pub open spec fn digit_value(c: char) -> int {
    c as int - '0' as int
}

/// Whether a character is an ASCII digit.
pub fn is_digit(c: char) -> (digit: bool)
    ensures
        digit == spec_is_digit(c),
{
    '0' <= c && c <= '9'
}

/// Whether the text holds ASCII digits only.
pub open spec fn all_digits(s: Seq<char>) -> bool {
    forall|k: int| 0 <= k < s.len() ==> spec_is_digit(#[trigger] s[k])
}

/// Ten to the power of `n`.
pub open spec fn pow10(n: int) -> int
    decreases n,
{
    if n <= 0 {
        1
    } else {
        10 * pow10(n - 1)
    }
}

/// The number that a row of decimal digits denotes.
pub open spec fn decimal_value(s: Seq<char>) -> int
    decreases s.len(),
{
    if s.len() == 0 {
        0
    } else {
        decimal_value(s.drop_last()) * 10 + digit_value(s.last())
    }
}

/// Digits denote a number that is not negative.
pub proof fn lemma_decimal_value_nonneg(s: Seq<char>)
    requires
        all_digits(s),
    ensures
        decimal_value(s) >= 0,
    decreases s.len(),
{
    if s.len() > 0 {
        lemma_decimal_value_nonneg(s.drop_last());
    }
}

/// More digits never denote a smaller number.
pub proof fn lemma_decimal_value_grows(s: Seq<char>, k: int)
    requires
        all_digits(s),
        0 <= k <= s.len(),
    ensures
        decimal_value(s.take(k)) <= decimal_value(s),
    decreases s.len(),
{
    if k < s.len() {
        assert(s.drop_last().take(k) =~= s.take(k));
        lemma_decimal_value_grows(s.drop_last(), k);
        lemma_decimal_value_nonneg(s.drop_last());
    } else {
        assert(s.take(k) =~= s);
    }
}

/// Whether the text holds ASCII digits only.
pub fn only_digits(s: &[char]) -> (digits: bool)
    ensures
        digits == all_digits(s@),
{
    let mut k: usize = 0;
    while k < s.len()
        invariant
            k <= s@.len(),
            forall|j: int| 0 <= j < k ==> spec_is_digit(#[trigger] s@[j]),
        decreases s@.len() - k,
    {
        if !is_digit(s[k]) {
            return false;
        }
        k = k + 1;
    }
    true
}

/// The number a non-empty row of digits denotes, up to 65535.
pub open spec fn spec_parse_u16(s: Seq<char>) -> Option<int> {
    if s.len() > 0 && all_digits(s) && decimal_value(s) <= 65_535 {
        Some(decimal_value(s))
    } else {
        None
    }
}

/// The number a non-empty row of digits denotes, up to 65535.
pub fn parse_u16(s: &[char]) -> (value: Option<u16>)
    ensures
        match spec_parse_u16(s@) {
            Some(n) => value is Some && value->Some_0 == n,
            None => value is None,
        },
{
    if s.len() == 0 || !only_digits(s) {
        return None;
    }
    let mut value: u32 = 0;
    let mut k: usize = 0;
    assert(s@.take(0) =~= Seq::<char>::empty());
    while k < s.len()
        invariant
            k <= s@.len(),
            all_digits(s@),
            value == decimal_value(s@.take(k as int)),
            value <= 65_535,
        decreases s@.len() - k,
    {
        let digit: u32 = s[k] as u32 - '0' as u32;
        value = value * 10 + digit;
        assert(s@.take(k + 1).drop_last() =~= s@.take(k as int));
        k = k + 1;
        if value > 65_535 {
            proof {
                lemma_decimal_value_grows(s@, k as int);
            }
            return None;
        }
    }
    assert(s@.take(k as int) =~= s@);
    Some(value as u16)
}

/// The characters of a text.
pub fn chars_of(text: &str) -> (chars: Vec<char>)
    ensures
        chars@ == text@,
{
    let mut chars: Vec<char> = Vec::new();
    for c in iter: text.chars()
        invariant
            chars@.len() == iter.index(),
            iter.seq() == text@,
            chars@ == text@.take(iter.index() as int),
    {
        chars.push(c);
        assert(chars@ =~= text@.take(iter.index() as int + 1));
    }
    assert(text@.take(text@.len() as int) =~= text@);
    chars
}

/// What stands around a separator is found again.
pub proof fn lemma_found_behind(front: Seq<char>, sep: char, back: Seq<char>)
    requires
        forall|k: int| 0 <= k < front.len() ==> #[trigger] front[k] != sep,
    ensures
        occurs(front.push(sep) + back, sep),
        before(front.push(sep) + back, sep) == front,
        after(front.push(sep) + back, sep) == back,
{
    let s = front.push(sep) + back;
    lemma_find(s, sep);
    let at = spec_find(s, sep);
    assert(s[front.len() as int] == sep);
    if at < front.len() {
        assert(s[at] == front[at]);
    }
    assert(s.take(at) =~= front);
    assert(s.skip(at + 1) =~= back);
}

/// A text without a separator is all before it.
pub proof fn lemma_not_found(s: Seq<char>, sep: char)
    requires
        forall|k: int| 0 <= k < s.len() ==> #[trigger] s[k] != sep,
    ensures
        !occurs(s, sep),
        before(s, sep) == s,
{
    lemma_find(s, sep);
    assert(s.take(s.len() as int) =~= s);
}

/// Leading white space is dropped.
proof fn lemma_trim_start_behind(lead: Seq<char>, s: Seq<char>)
    requires
        forall|k: int| 0 <= k < lead.len() ==> spec_is_whitespace(#[trigger] lead[k]),
    ensures
        spec_trim_start(lead + s) == spec_trim_start(s),
    decreases lead.len(),
{
    if lead.len() == 0 {
        assert(lead + s =~= s);
    } else {
        assert((lead + s)[0] == lead[0]);
        assert((lead + s).drop_first() =~= lead.drop_first() + s);
        lemma_trim_start_behind(lead.drop_first(), s);
    }
}

/// Trailing white space is dropped.
pub proof fn lemma_trim_end_before(s: Seq<char>, trail: Seq<char>)
    requires
        forall|k: int| 0 <= k < trail.len() ==> spec_is_whitespace(#[trigger] trail[k]),
    ensures
        spec_trim_end(s + trail) == spec_trim_end(s),
    decreases trail.len(),
{
    if trail.len() == 0 {
        assert(s + trail =~= s);
    } else {
        assert((s + trail).last() == trail.last());
        assert((s + trail).drop_last() =~= s + trail.drop_last());
        lemma_trim_end_before(s, trail.drop_last());
    }
}

/// Trailing white space is dropped, whatever leads the text.
proof fn lemma_trim_before(s: Seq<char>, trail: Seq<char>)
    requires
        forall|k: int| 0 <= k < trail.len() ==> spec_is_whitespace(#[trigger] trail[k]),
    ensures
        spec_trim(s + trail) == spec_trim(s),
    decreases s.len(),
{
    if s.len() == 0 {
        assert(s + trail =~= trail + s);
        lemma_trim_start_behind(trail, s);
    } else if spec_is_whitespace(s[0]) {
        assert((s + trail)[0] == s[0]);
        assert((s + trail).drop_first() =~= s.drop_first() + trail);
        lemma_trim_before(s.drop_first(), trail);
    } else {
        assert((s + trail)[0] == s[0]);
        lemma_trim_end_before(s, trail);
    }
}

/// Trimming takes the white space at both ends and nothing else: what it leaves
/// of a text between white space is what it leaves of the text alone, and a text
/// that starts and ends otherwise it leaves as it is.
pub proof fn trimming_drops_white_space_at_the_ends(
    lead: Seq<char>,
    s: Seq<char>,
    trail: Seq<char>,
)
    requires
        forall|k: int| 0 <= k < lead.len() ==> spec_is_whitespace(#[trigger] lead[k]),
        forall|k: int| 0 <= k < trail.len() ==> spec_is_whitespace(#[trigger] trail[k]),
    ensures
        spec_trim(lead + s + trail) == spec_trim(s),
        spec_trim_end(s + trail) == spec_trim_end(s),
        s.len() > 0 && !spec_is_whitespace(s[0]) && !spec_is_whitespace(s.last())
            ==> spec_trim(s) == s,
        s.len() > 0 && !spec_is_whitespace(s.last()) ==> spec_trim_end(s) == s,
        s.len() == 0 ==> spec_trim(s) == s,
{
    assert(lead + s + trail =~= lead + (s + trail));
    lemma_trim_start_behind(lead, s + trail);
    lemma_trim_before(s, trail);
    lemma_trim_end_before(s, trail);
}

/// Among the ASCII characters white space is the blank and the five control
/// characters from the tab to the carriage return.
pub proof fn ascii_white_space(c: char)
    requires
        c as u32 <= 0x7f,
    ensures
        spec_is_whitespace(c) <==> (c == ' ' || c == '\t' || c == '\n' || c == '\r' || c as u32
            == 0x0b || c as u32 == 0x0c),
{
}

/// The digit of a number below ten.
pub open spec fn digit(n: int) -> char {
    ('0' as u32 + n) as char
}

/// A number below a hundred in two digits.
pub open spec fn two_digits(n: int) -> Seq<char> {
    seq![digit(n / 10), digit(n % 10)]
}

/// A number below ten thousand in four digits.
pub open spec fn four_digits(n: int) -> Seq<char> {
    two_digits(n / 100) + two_digits(n % 100)
}

/// Two digits denote the number they were written for.
pub proof fn two_digits_denote_their_number(n: int)
    requires
        0 <= n < 100,
    ensures
        all_digits(two_digits(n)),
        decimal_value(two_digits(n)) == n,
        spec_parse_u16(two_digits(n)) == Some(n),
{
    let s = two_digits(n);
    reveal_with_fuel(decimal_value, 3);
    assert(s.drop_last() =~= seq![digit(n / 10)]);
    assert(s.drop_last().drop_last() =~= Seq::<char>::empty());
}

/// Four digits denote the number they were written for.
pub proof fn four_digits_denote_their_number(n: int)
    requires
        0 <= n < 10_000,
    ensures
        all_digits(four_digits(n)),
        decimal_value(four_digits(n)) == n,
        spec_parse_u16(four_digits(n)) == Some(n),
{
    let s = four_digits(n);
    two_digits_denote_their_number(n / 100);
    two_digits_denote_their_number(n % 100);
    assert(s.drop_last().drop_last() =~= two_digits(n / 100));
    assert(s.drop_last().last() == digit(n % 100 / 10));
    assert(s.last() == digit(n % 100 % 10));
    reveal_with_fuel(decimal_value, 3);
}

/// A digit more makes a row of digits denote ten times as much and that digit,
/// and a leading zero changes nothing.
pub proof fn digits_are_decimal(s: Seq<char>, n: int)
    requires
        all_digits(s),
        0 <= n < 10,
    ensures
        decimal_value(s.push(digit(n))) == 10 * decimal_value(s) + n,
        decimal_value(seq!['0'] + s) == decimal_value(s),
    decreases s.len(),
{
    assert(s.push(digit(n)).drop_last() =~= s);
    let zero = seq!['0'] + s;
    if s.len() == 0 {
        assert(zero.drop_last() =~= Seq::<char>::empty());
        reveal_with_fuel(decimal_value, 2);
    } else {
        assert(zero.drop_last() =~= seq!['0'] + s.drop_last());
        digits_are_decimal(s.drop_last(), n);
    }
}

} // verus!
