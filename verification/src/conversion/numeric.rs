//! Numbers, kept exact where their source is exact.
//!
//! A double is held by its 64 bits, sign first, then eleven bits of exponent
//! and fifty-two of fraction.

use vstd::prelude::*;
use vstd::slice::slice_subrange;

use super::chars::{self, chars_of, find, is_digit, is_whitespace, only_digits};
use super::error::ConvError;

verus! {

/// A number in a form that keeps exact sources exact.
#[derive(Debug, Clone, Copy, PartialEq, Eq, Structural)]
pub enum NumericSource {
    Int(i128),
    /// `mantissa / 10^scale`.
    Scaled { mantissa: i128, scale: u32 },
    /// A decimal literal with more digits than a mantissa holds: the double
    /// nearest to it, and what an integer target needs.
    WideDecimal { approx_bits: u64, negative: bool, int_part: i128, fraction_dropped: bool },
    /// A double, by its bits.
    Float { bits: u64 },
}

/// The exponent field of a double.
pub open spec fn exponent_field(bits: u64) -> int {
    (bits as int / 0x10_0000_0000_0000) % 2048
}

/// The fraction field of a double.
pub open spec fn fraction_field(bits: u64) -> int {
    bits as int % 0x10_0000_0000_0000
}

/// The bits of a double without its sign. Those of finite doubles are in the
/// order of their magnitudes.
pub open spec fn magnitude_bits(bits: u64) -> int {
    bits as int % 0x8000_0000_0000_0000
}

/// Whether the sign bit of a double is set.
pub open spec fn sign_bit(bits: u64) -> bool {
    bits >= 0x8000_0000_0000_0000
}

/// Whether a double is neither infinite nor not a number.
pub open spec fn is_finite(bits: u64) -> bool {
    exponent_field(bits) != 2047
}

/// Whether a double is not a number.
pub open spec fn is_nan(bits: u64) -> bool {
    exponent_field(bits) == 2047 && fraction_field(bits) != 0
}

/// The integer that a finite double's magnitude is a power-of-two multiple of.
pub open spec fn significand(bits: u64) -> int {
    if exponent_field(bits) == 0 {
        fraction_field(bits)
    } else {
        fraction_field(bits) + 0x10_0000_0000_0000
    }
}

/// The power of two that a finite double's significand is multiplied by.
pub open spec fn binary_exponent(bits: u64) -> int {
    (if exponent_field(bits) == 0 {
        1int
    } else {
        exponent_field(bits)
    }) - 1075
}

/// The bits of 1.7e38, the largest magnitude an integer is taken from.
pub const INTEGER_LIMIT_BITS: u64 = 0x47df_f933_c78c_dfad;

/// The bits of the largest `real`.
pub const REAL_MAX_BITS: u64 = 0x47ef_ffff_e000_0000;

/// The bits of the smallest normal `real`.
pub const REAL_MIN_POSITIVE_BITS: u64 = 0x3810_0000_0000_0000;

/// A number without its fraction, and whether the fraction was not zero.
pub open spec fn truncated_ratio(numerator: int, divisor: int) -> (int, bool) {
    (
        if numerator >= 0 {
            numerator / divisor
        } else {
            -((-numerator) / divisor)
        },
        numerator % divisor != 0,
    )
}

/// A finite double's magnitude without its fraction, and whether the fraction
/// was not zero.
pub open spec fn truncated_double(bits: u64) -> (int, bool) {
    let m = significand(bits);
    let e = binary_exponent(bits);
    let (whole, dropped) = if e >= 0 {
        (m * vstd::arithmetic::power2::pow2(e as nat), false)
    } else {
        (m / vstd::arithmetic::power2::pow2((-e) as nat) as int, m % vstd::arithmetic::power2::pow2((-e) as nat) as int != 0)
    };
    (
        if sign_bit(bits) {
            -whole
        } else {
            whole
        },
        dropped,
    )
}

/// The integer part of a number toward zero, and whether a fraction was
/// dropped; nothing for a double no integer is taken from.
pub open spec fn truncation(source: NumericSource) -> Option<(int, bool)> {
    match source {
        NumericSource::Int(v) => Some((v as int, false)),
        NumericSource::Scaled { mantissa, scale } => Some(
            truncated_ratio(mantissa as int, chars::pow10(scale as int)),
        ),
        NumericSource::WideDecimal { int_part, fraction_dropped, .. } => Some(
            (int_part as int, fraction_dropped),
        ),
        NumericSource::Float { bits } => if magnitude_bits(bits) <= INTEGER_LIMIT_BITS {
            Some(truncated_double(bits))
        } else {
            None
        },
    }
}

/// Whether a number is below zero, before its fraction is dropped.
pub open spec fn negative(source: NumericSource) -> bool {
    match source {
        NumericSource::Int(v) => v < 0,
        NumericSource::Scaled { mantissa, .. } => mantissa < 0,
        NumericSource::WideDecimal { negative, int_part, fraction_dropped, .. } => negative && (
        int_part != 0 || fraction_dropped),
        NumericSource::Float { bits } => sign_bit(bits) && magnitude_bits(bits) != 0 && !is_nan(
            bits,
        ),
    }
}

/// The first powers of ten are in order, and the fortieth is beyond every
/// mantissa.
proof fn lemma_pow10_beyond_mantissa(n: int)
    ensures
        n >= 39 ==> chars::pow10(n) > 0x8000_0000_0000_0000_0000_0000_0000_0000,
    decreases n,
{
    if n == 39 {
        reveal_with_fuel(chars::pow10, 40);
    } else if n > 39 {
        lemma_pow10_beyond_mantissa(n - 1);
    }
}

/// Powers of ten grow.
proof fn lemma_pow10_grows(n: int, m: int)
    requires
        0 <= n <= m,
    ensures
        1 <= chars::pow10(n) <= chars::pow10(m),
    decreases m,
{
    if m > 0 {
        if n < m {
            lemma_pow10_grows(n, m - 1);
        } else {
            lemma_pow10_grows(n - 1, m - 1);
        }
    }
}

/// Ten to the power of `scale`, if a mantissa can hold it.
fn checked_pow10(scale: u32) -> (power: Option<u128>)
    ensures
        scale <= 38 ==> power is Some && power->Some_0 == chars::pow10(scale as int)
            && power->Some_0 >= 1,
        scale > 38 ==> power is None,
{
    if scale > 38 {
        return None;
    }
    let mut power: u128 = 1;
    let mut k: u32 = 0;
    while k < scale
        invariant
            k <= scale <= 38,
            power == chars::pow10(k as int),
            power >= 1,
        decreases scale - k,
    {
        proof {
            lemma_pow10_grows(k as int, 37);
            assert(chars::pow10(37) == 10_000_000_000_000_000_000_000_000_000_000_000_000) by {
                reveal_with_fuel(chars::pow10, 38);
            }
        }
        power = power * 10;
        k = k + 1;
    }
    Some(power)
}

/// The magnitude of an integer.
fn magnitude(v: i128) -> (m: u128)
    ensures
        m == if v >= 0 {
            v as int
        } else {
            -(v as int)
        },
{
    if v >= 0 {
        v as u128
    } else {
        (-(v + 1)) as u128 + 1
    }
}

/// The integer with this magnitude and sign.
fn signed(magnitude: u128, negative: bool) -> (v: i128)
    requires
        magnitude <= 0x7fff_ffff_ffff_ffff_ffff_ffff_ffff_ffff || negative && magnitude
            == 0x8000_0000_0000_0000_0000_0000_0000_0000,
    ensures
        v == if negative {
            -(magnitude as int)
        } else {
            magnitude as int
        },
{
    if !negative {
        magnitude as i128
    } else if magnitude == 0 {
        0
    } else {
        -((magnitude - 1) as i128) - 1
    }
}

/// Two to the power of `k`.
fn power_of_two(k: u32) -> (power: u128)
    requires
        k <= 75,
    ensures
        power == vstd::arithmetic::power2::pow2(k as nat),
        power >= 1,
{
    let mut power: u128 = 1;
    let mut i: u32 = 0;
    proof {
        vstd::arithmetic::power2::lemma2_to64();
    }
    while i < k
        invariant
            i <= k <= 75,
            power == vstd::arithmetic::power2::pow2(i as nat),
            power >= 1,
        decreases k - i,
    {
        proof {
            vstd::arithmetic::power2::lemma2_to64();
            vstd::arithmetic::power2::lemma_pow2_adds(64, 11);
            vstd::arithmetic::power2::lemma_pow2_strictly_increases(i as nat, 75);
            vstd::arithmetic::power2::lemma_pow2_unfold(i as nat + 1);
            assert(0x1_0000_0000_0000_0000int * 0x800 < 0x1_0000_0000_0000_0000_0000_0000int);
        }
        power = power * 2;
        i = i + 1;
    }
    power
}

/// The integer part of a double of at most 1.7e38 and whether a fraction was
/// dropped.
fn truncate_double(bits: u64) -> (result: (i128, bool))
    requires
        magnitude_bits(bits) <= INTEGER_LIMIT_BITS,
    ensures
        result.0 == truncated_double(bits).0,
        result.1 == truncated_double(bits).1,
{
    let negative: bool = bits >= 0x8000_0000_0000_0000;
    let fraction: u64 = bits % 0x10_0000_0000_0000;
    let field: u64 = (bits / 0x10_0000_0000_0000) % 2048;
    assert(field <= 0x47d) by {
        assert(bits as int / 0x10_0000_0000_0000 == if negative {
            2048 + (magnitude_bits(bits) / 0x10_0000_0000_0000)
        } else {
            magnitude_bits(bits) / 0x10_0000_0000_0000
        });
    }
    let m: u128 = if field == 0 {
        fraction as u128
    } else {
        fraction as u128 + 0x10_0000_0000_0000
    };
    let raised: u64 = if field == 0 {
        1
    } else {
        field
    };
    proof {
        vstd::arithmetic::power2::lemma2_to64();
    }
    if raised >= 1075 {
        let power: u128 = power_of_two((raised - 1075) as u32);
        proof {
            let e = (raised - 1075) as nat;
            vstd::arithmetic::power2::lemma_pow2_adds(64, 10);
            if e < 74 {
                vstd::arithmetic::power2::lemma_pow2_strictly_increases(e, 74);
            }
            assert(m < 0x20_0000_0000_0000);
            assert(power <= 0x400 * 0x1_0000_0000_0000_0000);
            assert(m * power <= 0x1f_ffff_ffff_ffff * (0x400 * 0x1_0000_0000_0000_0000)) by (
            nonlinear_arith)
                requires
                    m <= 0x1f_ffff_ffff_ffff,
                    power <= 0x400 * 0x1_0000_0000_0000_0000,
            ;
        }
        (signed(m * power, negative), false)
    } else {
        let down: u64 = 1075 - raised;
        if down >= 64 {
            proof {
                if down > 64 {
                    vstd::arithmetic::power2::lemma_pow2_strictly_increases(64, down as nat);
                }
                vstd::arithmetic::div_mod::lemma_small_mod(m as nat, vstd::arithmetic::power2::pow2(down as nat));
                vstd::arithmetic::div_mod::lemma_basic_div(m as int, vstd::arithmetic::power2::pow2(down as nat) as int);
            }
            (0, m != 0)
        } else {
            let power: u128 = power_of_two(down as u32);
            proof {
                vstd::arithmetic::div_mod::lemma_div_is_ordered_by_denominator(
                    m as int,
                    1,
                    power as int,
                );
                assert(m as int / 1 == m);
            }
            (signed(m / power, negative), m % power != 0)
        }
    }
}

impl NumericSource {
    /// Whether the number is below zero, before its fraction is dropped.
    pub fn is_negative(&self) -> (below_zero: bool)
        ensures
            below_zero == negative(*self),
    {
        match self {
            NumericSource::Int(v) => *v < 0,
            NumericSource::Scaled { mantissa, .. } => *mantissa < 0,
            NumericSource::WideDecimal { negative, int_part, fraction_dropped, .. } => *negative
                && (*int_part != 0 || *fraction_dropped),
            NumericSource::Float { bits } => {
                let field: u64 = (*bits / 0x10_0000_0000_0000) % 2048;
                let fraction: u64 = *bits % 0x10_0000_0000_0000;
                let nan: bool = field == 2047 && fraction != 0;
                *bits >= 0x8000_0000_0000_0000 && *bits % 0x8000_0000_0000_0000 != 0 && !nan
            },
        }
    }

    /// The integer part toward zero, and whether a fraction was dropped;
    /// nothing for a double no integer is taken from.
    pub fn to_i128_truncating(self) -> (result: Option<(i128, bool)>)
        ensures
            match truncation(self) {
                Some(t) => result is Some && result->Some_0.0 == t.0 && result->Some_0.1 == t.1,
                None => result is None,
            },
    {
        match self {
            NumericSource::Int(v) => Some((v, false)),
            NumericSource::Scaled { mantissa, scale } => {
                let m: u128 = magnitude(mantissa);
                match checked_pow10(scale) {
                    None => {
                        proof {
                            lemma_pow10_beyond_mantissa(scale as int);
                            let d = chars::pow10(scale as int);
                            vstd::arithmetic::div_mod::lemma_basic_div(m as int, d);
                            vstd::arithmetic::div_mod::lemma_small_mod(m as nat, d as nat);
                            lemma_negated_remainder(m as int, d);
                        }
                        Some((0, mantissa != 0))
                    },
                    Some(divisor) => {
                        proof {
                            lemma_negated_remainder(m as int, divisor as int);
                            vstd::arithmetic::div_mod::lemma_div_is_ordered_by_denominator(
                                m as int,
                                1,
                                divisor as int,
                            );
                            assert(m as int / 1 == m);
                        }
                        Some((signed(m / divisor, mantissa < 0), m % divisor != 0))
                    },
                }
            },
            NumericSource::WideDecimal { int_part, fraction_dropped, .. } => Some(
                (int_part, fraction_dropped),
            ),
            NumericSource::Float { bits } => {
                if bits % 0x8000_0000_0000_0000 > INTEGER_LIMIT_BITS {
                    return None;
                }
                Some(truncate_double(bits))
            },
        }
    }
}

/// A number and its negation leave a remainder together or not at all.
proof fn lemma_negated_remainder(m: int, d: int)
    requires
        m >= 0,
        d > 0,
    ensures
        m % d != 0 <==> (-m) % d != 0,
{
    vstd::arithmetic::div_mod::lemma_fundamental_div_mod(m, d);
    vstd::arithmetic::div_mod::lemma_fundamental_div_mod(-m, d);
    if m % d == 0 {
        let q = m / d;
        assert(-m == d * (-q)) by (nonlinear_arith)
            requires
                m == d * q,
        ;
        vstd::arithmetic::div_mod::lemma_mod_multiples_basic(-q, d);
        assert((-q) * d == d * (-q)) by (nonlinear_arith);
    }
    if (-m) % d == 0 {
        let q = (-m) / d;
        assert(m == d * (-q)) by (nonlinear_arith)
            requires
                -m == d * q,
        ;
        vstd::arithmetic::div_mod::lemma_mod_multiples_basic(-q, d);
        assert((-q) * d == d * (-q)) by (nonlinear_arith);
    }
}

/// Narrows an integer to a target type; a value that does not fit is out of
/// range rather than wrapped.
pub fn narrow_i128<T: TryFrom<i128>>(v: i128) -> (result: Result<T, ConvError>)
    ensures
        <T as vstd::std_specs::convert::TryFromSpec<i128>>::obeys_try_from_spec() ==> (
        match <T as vstd::std_specs::convert::TryFromSpec<i128>>::try_from_spec(v) {
            Ok(t) => result == Ok::<T, ConvError>(t),
            Err(_) => result == Err::<T, ConvError>(ConvError::OutOfRange),
        }),
{
    match T::try_from(v) {
        Ok(t) => Ok(t),
        Err(_) => Err(ConvError::OutOfRange),
    }
}

/// Whether a double is in the range of `real`: not above its largest
/// magnitude, and zero or not below its smallest normal one. What is not a
/// number is in no range and passes.
pub open spec fn fits_real(bits: u64) -> bool {
    is_nan(bits) || magnitude_bits(bits) == 0 || REAL_MIN_POSITIVE_BITS <= magnitude_bits(bits)
        <= REAL_MAX_BITS
}

/// Checks that a double may be narrowed to `real`.
pub fn check_real_range(bits: u64) -> (result: Result<(), ConvError>)
    ensures
        result == (if fits_real(bits) {
            Ok::<(), ConvError>(())
        } else {
            Err(ConvError::OutOfRange)
        }),
{
    let m: u64 = bits % 0x8000_0000_0000_0000;
    let field: u64 = (bits / 0x10_0000_0000_0000) % 2048;
    let fraction: u64 = bits % 0x10_0000_0000_0000;
    let nan: bool = field == 2047 && fraction != 0;
    if nan || m == 0 || (REAL_MIN_POSITIVE_BITS <= m && m <= REAL_MAX_BITS) {
        Ok(())
    } else {
        Err(ConvError::OutOfRange)
    }
}

/// The text without leading blanks.
pub open spec fn without_leading_blanks(s: Seq<char>) -> Seq<char>
    decreases s.len(),
{
    if s.len() > 0 && s[0] == ' ' {
        without_leading_blanks(s.drop_first())
    } else {
        s
    }
}

/// The text without trailing blanks.
pub open spec fn without_trailing_blanks(s: Seq<char>) -> Seq<char>
    decreases s.len(),
{
    if s.len() > 0 && s.last() == ' ' {
        without_trailing_blanks(s.drop_last())
    } else {
        s
    }
}

/// The part of a text that is read as a number: what stands before the first
/// NUL, without surrounding blanks. No other white space is padding.
pub open spec fn number_text(text: Seq<char>) -> Seq<char> {
    without_trailing_blanks(without_leading_blanks(chars::before(text, '\0')))
}

/// Whether a number starts with a minus sign.
pub open spec fn has_minus(s: Seq<char>) -> bool {
    s.len() > 0 && s[0] == '-'
}

/// A number without its sign.
pub open spec fn unsigned_text(s: Seq<char>) -> Seq<char> {
    if s.len() > 0 && (s[0] == '-' || s[0] == '+') {
        s.skip(1)
    } else {
        s
    }
}

/// The digits before the decimal point.
pub open spec fn integer_digits(s: Seq<char>) -> Seq<char> {
    chars::before(unsigned_text(s), '.')
}

/// The digits behind the decimal point.
pub open spec fn fraction_digits(s: Seq<char>) -> Seq<char> {
    if chars::occurs(unsigned_text(s), '.') {
        chars::after(unsigned_text(s), '.')
    } else {
        Seq::<char>::empty()
    }
}

/// Whether the text is a plain decimal: an optional sign, digits, and an
/// optional point among or around them.
pub open spec fn is_plain_decimal(s: Seq<char>) -> bool {
    &&& integer_digits(s).len() > 0 || fraction_digits(s).len() > 0
    &&& chars::all_digits(integer_digits(s))
    &&& chars::all_digits(fraction_digits(s))
}

/// A plain decimal whose digits together fit a mantissa.
pub open spec fn decimal_of(s: Seq<char>) -> Option<NumericSource> {
    let value = chars::decimal_value(integer_digits(s) + fraction_digits(s));
    if is_plain_decimal(s) && value <= i128::MAX {
        Some(
            NumericSource::Scaled {
                mantissa: (if has_minus(s) {
                    -value
                } else {
                    value
                }) as i128,
                scale: fraction_digits(s).len() as u32,
            },
        )
    } else {
        None
    }
}

/// A plain decimal with a point whose integer part fits a mantissa, given the
/// double nearest to it.
pub open spec fn wide_decimal_of(s: Seq<char>, double: Option<u64>) -> Option<NumericSource> {
    let value = chars::decimal_value(integer_digits(s));
    if is_plain_decimal(s) && chars::occurs(unsigned_text(s), '.') && value <= i128::MAX
        && double is Some {
        Some(
            NumericSource::WideDecimal {
                approx_bits: double->Some_0,
                negative: has_minus(s),
                int_part: (if has_minus(s) {
                    -value
                } else {
                    value
                }) as i128,
                fraction_dropped: exists|k: int|
                    0 <= k < fraction_digits(s).len() && #[trigger] fraction_digits(s)[k] != '0',
            },
        )
    } else {
        None
    }
}

/// Whether a number text can parse to a double at all: an empty one and one
/// that holds white space cannot.
pub open spec fn may_be_a_number(s: Seq<char>) -> bool {
    s.len() > 0 && forall|k: int|
        0 <= k < s.len() ==> !chars::spec_is_whitespace(#[trigger] s[k])
}

/// The number a text denotes, given the double its number text parses to, if
/// it parses to one. Only what no exact form holds is taken from the double,
/// and nothing is where the number text cannot have one.
pub open spec fn numeric_of(text: Seq<char>, double: Option<u64>) -> Result<
    NumericSource,
    ConvError,
> {
    let s = number_text(text);
    if decimal_of(s) is Some {
        Ok(decimal_of(s)->Some_0)
    } else if wide_decimal_of(s, double) is Some {
        Ok(wide_decimal_of(s, double)->Some_0)
    } else if !may_be_a_number(s) {
        Err(ConvError::InvalidCharacterValue)
    } else if double is Some && is_finite(double->Some_0) {
        Ok(NumericSource::Float { bits: double->Some_0 })
    } else if double is Some && exists|k: int|
        0 <= k < s.len() && chars::spec_is_digit(#[trigger] s[k]) {
        Err(ConvError::OutOfRange)
    } else {
        Err(ConvError::InvalidCharacterValue)
    }
}

/// The part of a text that is read as a number.
fn number_slice(text: &[char]) -> (s: &[char])
    ensures
        s@ == number_text(text@),
{
    let nul: usize = find(text, '\0');
    let head = slice_subrange(text, 0, nul);
    assert(head@ =~= chars::before(text@, '\0'));
    let mut start: usize = 0;
    assert(head@.skip(0) =~= head@);
    while start < head.len() && head[start] == ' '
        invariant
            start <= head@.len(),
            without_leading_blanks(head@.skip(start as int)) == without_leading_blanks(head@),
        decreases head@.len() - start,
    {
        assert(head@.skip(start as int).drop_first() =~= head@.skip(start + 1));
        start = start + 1;
    }
    let rest = slice_subrange(head, start, head.len());
    assert(rest@ =~= head@.skip(start as int));
    let mut end: usize = rest.len();
    assert(rest@.take(end as int) =~= rest@);
    while end > 0 && rest[end - 1] == ' '
        invariant
            end <= rest@.len(),
            without_trailing_blanks(rest@.take(end as int)) == without_trailing_blanks(rest@),
        decreases end,
    {
        assert(rest@.take(end as int).drop_last() =~= rest@.take(end - 1));
        end = end - 1;
    }
    let s = slice_subrange(rest, 0, end);
    assert(s@ =~= rest@.take(end as int));
    s
}

/// The characters of a text that are read as a number.
pub fn number_chars(text: &str) -> (s: Vec<char>)
    ensures
        s@ == number_text(text@),
{
    let all: Vec<char> = chars_of(text);
    number_chars_of(all.as_slice())
}

/// The characters among `text` that are read as a number.
pub fn number_chars_of(text: &[char]) -> (s: Vec<char>)
    ensures
        s@ == number_text(text@),
{
    let slice = number_slice(text);
    let mut s: Vec<char> = Vec::new();
    let mut k: usize = 0;
    while k < slice.len()
        invariant
            k <= slice@.len(),
            s@ == slice@.take(k as int),
        decreases slice@.len() - k,
    {
        s.push(slice[k]);
        assert(s@ =~= slice@.take(k + 1));
        k = k + 1;
    }
    assert(slice@.take(k as int) =~= slice@);
    s
}

/// The number that two rows of digits denote one behind the other, if a
/// mantissa can hold it.
fn digits_value(first: &[char], second: &[char]) -> (value: Option<i128>)
    requires
        chars::all_digits(first@),
        chars::all_digits(second@),
    ensures
        match value {
            Some(v) => v == chars::decimal_value(first@ + second@) && v >= 0,
            None => chars::decimal_value(first@ + second@) > i128::MAX,
        },
{
    let ghost whole = first@ + second@;
    let mut value: i128 = 0;
    let mut k: usize = 0;
    assert(chars::all_digits(whole));
    assert(whole.take(0) =~= Seq::<char>::empty());
    while k < first.len()
        invariant
            k <= first@.len(),
            whole == first@ + second@,
            chars::all_digits(whole),
            value == chars::decimal_value(whole.take(k as int)),
            value >= 0,
        decreases first@.len() - k,
    {
        assert(whole[k as int] == first@[k as int]);
        let digit: i128 = (first[k] as u32 - '0' as u32) as i128;
        proof {
            assert(whole.take(k + 1).drop_last() =~= whole.take(k as int));
            chars::lemma_decimal_value_grows(whole, k + 1);
        }
        if value > (i128::MAX - digit) / 10 {
            return None;
        }
        value = value * 10 + digit;
        k = k + 1;
    }
    let mut j: usize = 0;
    while j < second.len()
        invariant
            j <= second@.len(),
            k == first@.len(),
            whole == first@ + second@,
            chars::all_digits(whole),
            value == chars::decimal_value(whole.take(k + j)),
            value >= 0,
        decreases second@.len() - j,
    {
        assert(whole[k + j] == second@[j as int]);
        let digit: i128 = (second[j] as u32 - '0' as u32) as i128;
        proof {
            assert(whole.take(k + j + 1).drop_last() =~= whole.take(k + j));
            chars::lemma_decimal_value_grows(whole, k + j + 1);
        }
        if value > (i128::MAX - digit) / 10 {
            return None;
        }
        value = value * 10 + digit;
        j = j + 1;
    }
    assert(whole.take(k + j) =~= whole);
    Some(value)
}

/// Splits a number into sign, integer digits, fraction digits and whether it
/// has a point.
fn split_decimal(s: &[char]) -> (parts: (bool, &[char], &[char], bool))
    ensures
        parts.0 == has_minus(s@),
        parts.1@ == integer_digits(s@),
        parts.2@ == fraction_digits(s@),
        parts.3 == chars::occurs(unsigned_text(s@), '.'),
{
    let minus: bool = s.len() > 0 && s[0] == '-';
    let signed_text: bool = s.len() > 0 && (s[0] == '-' || s[0] == '+');
    let body = if signed_text {
        slice_subrange(s, 1, s.len())
    } else {
        slice_subrange(s, 0, s.len())
    };
    assert(body@ =~= unsigned_text(s@));
    let point: usize = find(body, '.');
    let int_digits = slice_subrange(body, 0, point);
    assert(int_digits@ =~= integer_digits(s@));
    if point < body.len() {
        let frac_digits = slice_subrange(body, point + 1, body.len());
        assert(frac_digits@ =~= fraction_digits(s@));
        (minus, int_digits, frac_digits, true)
    } else {
        let frac_digits = slice_subrange(body, point, point);
        assert(frac_digits@ =~= fraction_digits(s@));
        (minus, int_digits, frac_digits, false)
    }
}

/// Reads a plain decimal whose digits together fit a mantissa.
fn parse_decimal_chars(s: &[char]) -> (source: Option<NumericSource>)
    ensures
        source == decimal_of(s@),
{
    let (minus, int_digits, frac_digits, _) = split_decimal(s);
    if int_digits.len() == 0 && frac_digits.len() == 0 {
        return None;
    }
    if !only_digits(int_digits) || !only_digits(frac_digits) {
        return None;
    }
    match digits_value(int_digits, frac_digits) {
        Some(value) => {
            let mantissa: i128 = if minus {
                -value
            } else {
                value
            };
            Some(NumericSource::Scaled { mantissa, scale: frac_digits.len() as u32 })
        },
        None => None,
    }
}

/// Reads a plain decimal with a point whose integer part fits a mantissa.
fn parse_wide_decimal_chars(s: &[char], double: Option<u64>) -> (source: Option<NumericSource>)
    ensures
        source == wide_decimal_of(s@, double),
{
    let (minus, int_digits, frac_digits, has_point) = split_decimal(s);
    if !has_point || (int_digits.len() == 0 && frac_digits.len() == 0) {
        return None;
    }
    if !only_digits(int_digits) || !only_digits(frac_digits) {
        return None;
    }
    let none = slice_subrange(int_digits, 0, 0);
    assert(int_digits@ + none@ =~= int_digits@);
    let value: i128 = match digits_value(int_digits, none) {
        Some(value) => value,
        None => {
            return None;
        },
    };
    let approx_bits: u64 = match double {
        Some(bits) => bits,
        None => {
            return None;
        },
    };
    let mut fraction_dropped: bool = false;
    let mut k: usize = 0;
    while k < frac_digits.len()
        invariant
            k <= frac_digits@.len(),
            fraction_dropped <==> exists|j: int| 0 <= j < k && #[trigger] frac_digits@[j] != '0',
        decreases frac_digits@.len() - k,
    {
        if frac_digits[k] != '0' {
            fraction_dropped = true;
        }
        k = k + 1;
    }
    let int_part: i128 = if minus {
        -value
    } else {
        value
    };
    Some(NumericSource::WideDecimal { approx_bits, negative: minus, int_part, fraction_dropped })
}

/// Reads a plain decimal (`-12.34`, `+7`, `.5`) exactly. Exponents are not
/// read here.
pub fn parse_decimal_literal(text: &str) -> (source: Option<NumericSource>)
    ensures
        source == decimal_of(text@),
{
    let all: Vec<char> = chars_of(text);
    parse_decimal_chars(all.as_slice())
}

/// Reads a plain decimal whose digits exceed a mantissa, given the double
/// nearest to it.
pub fn parse_wide_decimal(text: &str, double: Option<u64>) -> (source: Option<NumericSource>)
    ensures
        source == wide_decimal_of(text@, double),
{
    let all: Vec<char> = chars_of(text);
    parse_wide_decimal_chars(all.as_slice(), double)
}

/// Whether the text has a digit.
fn has_digit(s: &[char]) -> (found: bool)
    ensures
        found <==> exists|k: int| 0 <= k < s@.len() && chars::spec_is_digit(#[trigger] s@[k]),
{
    let mut k: usize = 0;
    while k < s.len()
        invariant
            k <= s@.len(),
            forall|j: int| 0 <= j < k ==> !chars::spec_is_digit(#[trigger] s@[j]),
        decreases s@.len() - k,
    {
        if is_digit(s[k]) {
            return true;
        }
        k = k + 1;
    }
    false
}

/// Whether the text is not empty and holds no white space.
fn free_of_white_space(s: &[char]) -> (free: bool)
    ensures
        free == may_be_a_number(s@),
{
    let mut k: usize = 0;
    while k < s.len()
        invariant
            k <= s@.len(),
            forall|j: int| 0 <= j < k ==> !chars::spec_is_whitespace(#[trigger] s@[j]),
        decreases s@.len() - k,
    {
        if is_whitespace(s[k]) {
            return false;
        }
        k = k + 1;
    }
    s.len() > 0
}

/// Reads a text as a number. `double` holds the bits of the double that the
/// number text parses to, or nothing when it parses to none.
pub fn parse_numeric_text(text: &str, double: Option<u64>) -> (result: Result<
    NumericSource,
    ConvError,
>)
    ensures
        result == numeric_of(text@, double),
{
    let all: Vec<char> = chars_of(text);
    parse_numeric_chars(all.as_slice(), double)
}

/// Reads the characters of a text as a number.
pub fn parse_numeric_chars(text: &[char], double: Option<u64>) -> (result: Result<
    NumericSource,
    ConvError,
>)
    ensures
        result == numeric_of(text@, double),
{
    let s = number_slice(text);
    if let Some(source) = parse_decimal_chars(s) {
        return Ok(source);
    }
    if let Some(source) = parse_wide_decimal_chars(s, double) {
        return Ok(source);
    }
    if !free_of_white_space(s) {
        return Err(ConvError::InvalidCharacterValue);
    }
    match double {
        Some(bits) => {
            if (bits / 0x10_0000_0000_0000) % 2048 != 2047 {
                return Ok(NumericSource::Float { bits });
            }
            if has_digit(s) {
                return Err(ConvError::OutOfRange);
            }
            Err(ConvError::InvalidCharacterValue)
        },
        None => Err(ConvError::InvalidCharacterValue),
    }
}

/// An exact decimal never depends on the double: the same text gives the same
/// number whatever its double was.
pub proof fn exact_decimals_ignore_the_double(
    text: Seq<char>,
    double: Option<u64>,
    other: Option<u64>,
)
    requires
        decimal_of(number_text(text)) is Some,
    ensures
        numeric_of(text, double) == numeric_of(text, other),
        numeric_of(text, double) is Ok,
{
}

/// What stands behind the first NUL does not matter.
pub proof fn a_nul_ends_the_number(text: Seq<char>, tail: Seq<char>, double: Option<u64>)
    requires
        chars::occurs(text, '\0'),
    ensures
        numeric_of(text + tail, double) == numeric_of(text, double),
{
    lemma_find_in_prefix(text, tail, '\0');
    assert(chars::before(text + tail, '\0') =~= chars::before(text, '\0')) by {
        chars::lemma_find(text, '\0');
    }
}

/// Blanks that were dropped in front leave the rest of a text, which starts
/// with none.
proof fn lemma_without_leading_blanks(s: Seq<char>) -> (start: int)
    ensures
        0 <= start <= s.len(),
        without_leading_blanks(s) == s.skip(start),
        start < s.len() ==> s[start] != ' ',
    decreases s.len(),
{
    if s.len() > 0 && s[0] == ' ' {
        let start = lemma_without_leading_blanks(s.drop_first());
        assert(s.drop_first().skip(start) =~= s.skip(start + 1));
        start + 1
    } else {
        assert(s.skip(0) =~= s);
        0
    }
}

/// Blanks that were dropped behind leave the front of a text, which ends with
/// none.
proof fn lemma_without_trailing_blanks(s: Seq<char>) -> (end: int)
    ensures
        0 <= end <= s.len(),
        without_trailing_blanks(s) == s.take(end),
        end > 0 ==> s[end - 1] != ' ',
    decreases s.len(),
{
    if s.len() > 0 && s.last() == ' ' {
        let end = lemma_without_trailing_blanks(s.drop_last());
        assert(s.drop_last().take(end) =~= s.take(end));
        end
    } else {
        assert(s.take(s.len() as int) =~= s);
        s.len() as int
    }
}

/// Only the number text matters: what follows a NUL, and the blanks around,
/// change nothing.
pub proof fn only_the_number_text_matters(text: Seq<char>, double: Option<u64>)
    ensures
        number_text(number_text(text)) == number_text(text),
        numeric_of(text, double) == numeric_of(number_text(text), double),
{
    let head = chars::before(text, '\0');
    chars::lemma_find(text, '\0');
    let start = lemma_without_leading_blanks(head);
    let rest = head.skip(start);
    let end = lemma_without_trailing_blanks(rest);
    let s = rest.take(end);
    assert(s == number_text(text));
    assert forall|k: int| 0 <= k < s.len() implies s[k] != '\0' by {
        assert(s[k] == text[start + k]);
    }
    chars::lemma_find(s, '\0');
    assert(chars::before(s, '\0') =~= s);
    assert(without_leading_blanks(s) == s);
    assert(without_trailing_blanks(s) == s);
}

/// A number text that is empty or holds white space is no number, whatever
/// double is given with it.
pub proof fn white_space_is_no_number(text: Seq<char>, double: Option<u64>)
    requires
        number_text(text).len() == 0 || exists|k: int|
            0 <= k < number_text(text).len() && chars::spec_is_whitespace(
                #[trigger] number_text(text)[k],
            ),
    ensures
        numeric_of(text, double) == Err::<NumericSource, ConvError>(
            ConvError::InvalidCharacterValue,
        ),
{
    let s = number_text(text);
    let u = unsigned_text(s);
    chars::lemma_find(u, '.');
    if s.len() > 0 {
        let k = choose|k: int| 0 <= k < s.len() && chars::spec_is_whitespace(#[trigger] s[k]);
        let j = if u.len() < s.len() {
            k - 1
        } else {
            k
        };
        assert(u[j] == s[k]);
        if j < chars::spec_find(u, '.') {
            assert(integer_digits(s)[j] == s[k]);
        } else {
            assert(fraction_digits(s)[j - chars::spec_find(u, '.') - 1] == s[k]);
        }
    }
}

/// The number that two rows of digits denote together.
proof fn lemma_digits_behind_digits(front: Seq<char>, back: Seq<char>)
    requires
        chars::all_digits(front),
        chars::all_digits(back),
    ensures
        chars::decimal_value(front + back) == chars::decimal_value(front) * chars::pow10(
            back.len() as int,
        ) + chars::decimal_value(back),
        0 <= chars::decimal_value(back) < chars::pow10(back.len() as int),
        chars::decimal_value(back) != 0 <==> exists|k: int|
            0 <= k < back.len() && #[trigger] back[k] != '0',
    decreases back.len(),
{
    if back.len() == 0 {
        assert(front + back =~= front);
    } else {
        let shorter = back.drop_last();
        assert((front + back).drop_last() =~= front + shorter);
        lemma_digits_behind_digits(front, shorter);
        let f = chars::decimal_value(front);
        let p = chars::pow10(shorter.len() as int);
        assert((f * p) * 10 == f * (10 * p)) by (nonlinear_arith);
        if exists|k: int| 0 <= k < back.len() && #[trigger] back[k] != '0' {
            let k = choose|k: int| 0 <= k < back.len() && #[trigger] back[k] != '0';
            if k < shorter.len() {
                assert(shorter[k] == back[k]);
            } else {
                assert(chars::spec_is_digit(back[k]));
            }
        }
        if chars::decimal_value(back) != 0 {
            if chars::decimal_value(shorter) != 0 {
                let k = choose|k: int| 0 <= k < shorter.len() && #[trigger] shorter[k] != '0';
                assert(back[k] != '0');
            } else {
                assert(back[back.len() - 1] != '0');
            }
        }
    }
}

/// A plain decimal with a point has the same integer part, the same sign, and
/// drops a fraction alike in its wide form and in its exact one.
pub proof fn wide_and_exact_decimals_truncate_alike(s: Seq<char>, double: Option<u64>)
    requires
        decimal_of(s) is Some,
        chars::occurs(unsigned_text(s), '.'),
        double is Some,
        fraction_digits(s).len() <= u32::MAX,
    ensures
        wide_decimal_of(s, double) is Some,
        truncation(wide_decimal_of(s, double)->Some_0) == truncation(decimal_of(s)->Some_0),
        negative(wide_decimal_of(s, double)->Some_0) == negative(decimal_of(s)->Some_0),
{
    let front = integer_digits(s);
    let back = fraction_digits(s);
    let scale = back.len() as int;
    let d = chars::pow10(scale);
    let whole = chars::decimal_value(front);
    let fraction = chars::decimal_value(back);
    let value = chars::decimal_value(front + back);
    lemma_digits_behind_digits(front, back);
    chars::lemma_decimal_value_nonneg(front);
    lemma_pow10_grows(0, scale);
    assert(whole <= whole * d) by (nonlinear_arith)
        requires
            whole >= 0,
            d >= 1,
    ;
    assert(value == d * whole + fraction) by (nonlinear_arith)
        requires
            value == whole * d + fraction,
    ;
    vstd::arithmetic::div_mod::lemma_fundamental_div_mod_converse(value, d, whole, fraction);
    lemma_negated_remainder(value, d);
    assert(decimal_of(s)->Some_0 == NumericSource::Scaled {
        mantissa: (if has_minus(s) {
            -value
        } else {
            value
        }) as i128,
        scale: scale as u32,
    });
    if value == 0 {
        assert(whole == 0 && fraction == 0) by (nonlinear_arith)
            requires
                0 == whole * d + fraction,
                whole >= 0,
                d >= 1,
                fraction >= 0,
        ;
    }
}

/// A separator found in a text is found at the same place in a longer one.
proof fn lemma_find_in_prefix(text: Seq<char>, tail: Seq<char>, sep: char)
    requires
        chars::occurs(text, sep),
    ensures
        chars::spec_find(text + tail, sep) == chars::spec_find(text, sep),
    decreases text.len(),
{
    if text.len() > 0 && text[0] != sep {
        assert((text + tail).drop_first() =~= text.drop_first() + tail);
        lemma_find_in_prefix(text.drop_first(), tail, sep);
    }
}

/// Dropping the fraction never changes a number's sign: the integer part of a
/// number below zero is not above zero, and that of any other number is not
/// below.
pub proof fn truncation_keeps_the_sign(mantissa: i128, scale: u32)
    ensures
        ({
            let source = NumericSource::Scaled { mantissa, scale };
            let t = truncation(source)->Some_0;
            &&& negative(source) ==> t.0 <= 0
            &&& !negative(source) ==> t.0 >= 0
            &&& t.0 == 0 && negative(source) ==> t.1
        }),
{
    lemma_pow10_grows(0, scale as int);
    let d = chars::pow10(scale as int);
    let m = if mantissa >= 0 {
        mantissa as int
    } else {
        -(mantissa as int)
    };
    vstd::arithmetic::div_mod::lemma_div_pos_is_pos(m, d);
    vstd::arithmetic::div_mod::lemma_fundamental_div_mod(m, d);
    lemma_negated_remainder(m, d);
    if m / d == 0 {
        assert(d * 0 == 0);
    }
}

/// Whether a text is blanks only.
pub open spec fn only_blanks(s: Seq<char>) -> bool {
    forall|k: int| 0 <= k < s.len() ==> #[trigger] s[k] == ' '
}

/// Blanks in front are dropped up to the first other character.
proof fn lemma_leading_blanks_go(lead: Seq<char>, s: Seq<char>)
    requires
        only_blanks(lead),
        s.len() == 0 || s[0] != ' ',
    ensures
        without_leading_blanks(lead + s) == s,
    decreases lead.len(),
{
    if lead.len() == 0 {
        assert(lead + s =~= s);
    } else {
        let rest = lead.drop_first();
        assert forall|k: int| 0 <= k < rest.len() implies #[trigger] rest[k] == ' ' by {
            assert(rest[k] == lead[k + 1]);
        }
        assert((lead + s).drop_first() =~= rest + s);
        assert((lead + s)[0] == lead[0]);
        lemma_leading_blanks_go(rest, s);
    }
}

/// Blanks behind are dropped back to the last other character.
proof fn lemma_trailing_blanks_go(s: Seq<char>, trail: Seq<char>)
    requires
        only_blanks(trail),
        s.len() == 0 || s.last() != ' ',
    ensures
        without_trailing_blanks(s + trail) == s,
    decreases trail.len(),
{
    if trail.len() == 0 {
        assert(s + trail =~= s);
    } else {
        let rest = trail.drop_last();
        assert forall|k: int| 0 <= k < rest.len() implies #[trigger] rest[k] == ' ' by {
            assert(rest[k] == trail[k]);
        }
        assert((s + trail).drop_last() =~= s + rest);
        assert((s + trail).last() == trail[trail.len() - 1]);
        lemma_trailing_blanks_go(s, rest);
    }
}

/// A number stands between blanks, and ends where a NUL does: neither the blanks
/// nor what follows the NUL are part of it.
pub proof fn a_number_stands_between_blanks(
    lead: Seq<char>,
    s: Seq<char>,
    trail: Seq<char>,
    tail: Seq<char>,
)
    requires
        only_blanks(lead),
        only_blanks(trail),
        s.len() > 0,
        s[0] != ' ',
        s.last() != ' ',
        forall|k: int| 0 <= k < s.len() ==> #[trigger] s[k] != '\0',
        tail.len() == 0 || tail[0] == '\0',
    ensures
        number_text(lead + s + trail + tail) == s,
{
    let head = lead + s + trail;
    let text = head + tail;
    chars::lemma_find(text, '\0');
    let at = chars::spec_find(text, '\0');
    assert forall|k: int| 0 <= k < head.len() implies #[trigger] head[k] != '\0' by {
        if k < lead.len() {
            assert(lead[k] == ' ');
        } else if k < lead.len() + s.len() {
            assert(head[k] == s[k - lead.len()]);
        } else {
            assert(trail[k - lead.len() - s.len()] == ' ');
        }
    }
    if at < head.len() {
        assert(text[at] == head[at]);
    }
    if tail.len() > 0 {
        assert(text[head.len() as int] == tail[0]);
    }
    assert(at == head.len());
    assert(chars::before(text, '\0') =~= head);
    assert(head =~= lead + (s + trail));
    assert((s + trail)[0] == s[0]);
    lemma_leading_blanks_go(lead, s + trail);
    lemma_trailing_blanks_go(s, trail);
}

/// The spelling of a plain decimal: a sign or none, digits, and a point with
/// digits behind it or none.
pub open spec fn spelled(
    sign: Seq<char>,
    whole: Seq<char>,
    point: bool,
    fraction: Seq<char>,
) -> Seq<char> {
    sign + whole + (if point {
        seq!['.'] + fraction
    } else {
        Seq::empty()
    })
}

/// Whether these are the parts of a plain decimal.
pub open spec fn spells_a_decimal(
    sign: Seq<char>,
    whole: Seq<char>,
    point: bool,
    fraction: Seq<char>,
) -> bool {
    &&& sign == Seq::<char>::empty() || sign == seq!['-'] || sign == seq!['+']
    &&& chars::all_digits(whole)
    &&& chars::all_digits(fraction)
    &&& whole.len() + fraction.len() > 0
    &&& !point ==> fraction.len() == 0
    &&& fraction.len() <= u32::MAX
}

/// The parts of a plain decimal are found in its spelling.
proof fn lemma_spelled(sign: Seq<char>, whole: Seq<char>, point: bool, fraction: Seq<char>)
    requires
        spells_a_decimal(sign, whole, point, fraction),
    ensures
        ({
            let s = spelled(sign, whole, point, fraction);
            &&& has_minus(s) == (sign == seq!['-'])
            &&& integer_digits(s) == whole
            &&& fraction_digits(s) == fraction
            &&& chars::occurs(unsigned_text(s), '.') == point
            &&& is_plain_decimal(s)
            &&& number_text(s) == s
        }),
{
    let s = spelled(sign, whole, point, fraction);
    let tail = if point {
        seq!['.'] + fraction
    } else {
        Seq::empty()
    };
    let body = whole + tail;
    assert(s =~= sign + body);
    assert(body.len() > 0);
    assert(body[0] != '-' && body[0] != '+' && body[0] != ' ') by {
        if whole.len() > 0 {
            assert(chars::spec_is_digit(whole[0]));
            assert(body[0] == whole[0]);
        }
    }
    if sign.len() > 0 {
        assert(s[0] == sign[0]);
        assert(s.skip(1) =~= body);
    } else {
        assert(s =~= body);
    }
    assert(unsigned_text(s) == body);
    chars::lemma_find(body, '.');
    let at = chars::spec_find(body, '.');
    if at < whole.len() {
        assert(body[at] == whole[at]);
        assert(chars::spec_is_digit(whole[at]));
    }
    if point {
        assert(body[whole.len() as int] == '.');
    }
    assert(at == whole.len());
    assert(body.take(at) =~= whole);
    if point {
        assert(chars::after(body, '.') =~= fraction);
    } else {
        assert(fraction =~= Seq::<char>::empty());
    }
    assert forall|k: int| 0 <= k < s.len() implies #[trigger] s[k] != '\0' && s[k] != ' ' by {
        let j = k - sign.len();
        if j >= 0 {
            if j < whole.len() {
                assert(s[k] == whole[j]);
                assert(chars::spec_is_digit(whole[j]));
            } else if j > whole.len() {
                assert(s[k] == fraction[j - whole.len() - 1]);
                assert(chars::spec_is_digit(fraction[j - whole.len() - 1]));
            }
        }
    }
    let none = Seq::<char>::empty();
    a_number_stands_between_blanks(none, s, none, none);
    assert(none + s + none + none =~= s);
}

/// A plain decimal is read as the number it spells: its integer part is what its
/// digits before the point denote, with its sign, and a fraction is dropped
/// exactly where a digit behind the point is not zero. A number that no exact
/// form holds needs its double to be read at all.
pub proof fn a_plain_decimal_is_the_number_it_spells(
    sign: Seq<char>,
    whole: Seq<char>,
    point: bool,
    fraction: Seq<char>,
    double: Option<u64>,
)
    requires
        spells_a_decimal(sign, whole, point, fraction),
        chars::decimal_value(whole) <= i128::MAX,
        point && double is Some || chars::decimal_value(whole) * chars::pow10(
            fraction.len() as int,
        ) + chars::decimal_value(fraction) <= i128::MAX,
    ensures
        ({
            let read = numeric_of(spelled(sign, whole, point, fraction), double);
            let minus = sign == seq!['-'];
            let n = chars::decimal_value(whole);
            let dropped = exists|k: int|
                0 <= k < fraction.len() && #[trigger] fraction[k] != '0';
            &&& read matches Ok(source)
            &&& truncation(source) == Some(
                (
                    if minus {
                        -n
                    } else {
                        n
                    },
                    dropped,
                ),
            )
            &&& negative(source) == (minus && (n != 0 || dropped))
        }),
{
    let s = spelled(sign, whole, point, fraction);
    lemma_spelled(sign, whole, point, fraction);
    lemma_digits_behind_digits(whole, fraction);
    chars::lemma_decimal_value_nonneg(whole);
    let n = chars::decimal_value(whole);
    let f = chars::decimal_value(fraction);
    let d = chars::pow10(fraction.len() as int);
    if decimal_of(s) is Some {
        lemma_pow10_grows(0, fraction.len() as int);
        let value = chars::decimal_value(whole + fraction);
        assert(value == d * n + f) by (nonlinear_arith)
            requires
                value == n * d + f,
        ;
        assert(0 <= n * d) by (nonlinear_arith)
            requires
                n >= 0,
                d >= 1,
        ;
        vstd::arithmetic::div_mod::lemma_fundamental_div_mod_converse(value, d, n, f);
        lemma_negated_remainder(value, d);
        if value == 0 {
            assert(n == 0 && f == 0) by (nonlinear_arith)
                requires
                    0 == n * d + f,
                    n >= 0,
                    d >= 1,
                    f >= 0,
            ;
        }
    }
}

/// A plain decimal that fits is read exactly: what its digits denote together,
/// with its sign, over the power of ten of the digits behind the point.
pub proof fn a_plain_decimal_is_read_exactly(
    sign: Seq<char>,
    whole: Seq<char>,
    point: bool,
    fraction: Seq<char>,
    double: Option<u64>,
)
    requires
        spells_a_decimal(sign, whole, point, fraction),
    ensures
        ({
            let value = chars::decimal_value(whole) * chars::pow10(fraction.len() as int)
                + chars::decimal_value(fraction);
            let read = numeric_of(spelled(sign, whole, point, fraction), double);
            value <= i128::MAX ==> (read matches Ok(NumericSource::Scaled { mantissa, scale })
                && scale == fraction.len() && mantissa == if sign == seq!['-'] {
                -value
            } else {
                value
            })
        }),
{
    lemma_spelled(sign, whole, point, fraction);
    lemma_digits_behind_digits(whole, fraction);
    chars::lemma_decimal_value_nonneg(whole + fraction);
}

/// Dropping a fraction leaves the integer part toward zero: what is left over is
/// less than one, of the number's own sign, and reported exactly where it is not
/// nothing.
pub proof fn truncation_drops_less_than_one(mantissa: i128, scale: u32)
    ensures
        ({
            let t = truncation(NumericSource::Scaled { mantissa, scale })->Some_0;
            let one = chars::pow10(scale as int);
            let left = mantissa - t.0 * one;
            &&& truncation(NumericSource::Scaled { mantissa, scale }) is Some
            &&& -one < left < one
            &&& mantissa >= 0 ==> left >= 0
            &&& mantissa <= 0 ==> left <= 0
            &&& t.1 <==> left != 0
        }),
{
    lemma_pow10_grows(0, scale as int);
    let d = chars::pow10(scale as int);
    let m = if mantissa >= 0 {
        mantissa as int
    } else {
        -(mantissa as int)
    };
    vstd::arithmetic::div_mod::lemma_fundamental_div_mod(m, d);
    vstd::arithmetic::div_mod::lemma_mod_bound(m, d);
    lemma_negated_remainder(m, d);
    let q = m / d;
    assert(d * q == q * d) by (nonlinear_arith);
    assert((-q) * d == -(q * d)) by (nonlinear_arith);
}

/// An integer is its own integer part.
pub proof fn an_integer_has_no_fraction(v: i128, mantissa: i128)
    ensures
        truncation(NumericSource::Int(v)) == Some((v as int, false)),
        negative(NumericSource::Int(v)) == (v < 0),
        truncation(NumericSource::Scaled { mantissa, scale: 0 }) == Some((mantissa as int, false)),
{
    truncation_drops_less_than_one(mantissa, 0);
    let t = truncation(NumericSource::Scaled { mantissa, scale: 0 })->Some_0;
    assert(chars::pow10(0) == 1);
    assert(t.0 * 1 == t.0);
}

/// The bits of the double with this sign, this exponent field and this
/// significand of 53 bits, whose value is the significand times two to the power
/// of the field less 1075.
pub open spec fn is_double(bits: u64, minus: bool, field: int, significand: int) -> bool {
    &&& 1 <= field <= 2046
    &&& 0x10_0000_0000_0000 <= significand < 0x20_0000_0000_0000
    &&& bits == (if minus {
        0x8000_0000_0000_0000int
    } else {
        0
    }) + field * 0x10_0000_0000_0000 + (significand - 0x10_0000_0000_0000)
}

/// The fields of a double are found in its bits.
proof fn lemma_double_fields(bits: u64, minus: bool, field: int, m: int)
    requires
        is_double(bits, minus, field, m),
    ensures
        sign_bit(bits) == minus,
        exponent_field(bits) == field,
        fraction_field(bits) == m - 0x10_0000_0000_0000,
        magnitude_bits(bits) == field * 0x10_0000_0000_0000 + (m - 0x10_0000_0000_0000),
{
    let rest = m - 0x10_0000_0000_0000;
    let top = if minus {
        2048 + field
    } else {
        field
    };
    assert(bits as int == top * 0x10_0000_0000_0000 + rest);
    assert(bits as int / 0x10_0000_0000_0000 == top);
    assert(top % 2048 == field);
}

/// The integer part of a double is the whole number next to its value toward
/// zero, and a fraction is reported exactly where the value is not whole. No
/// integer is taken from a double above 1.7e38, and from every other one is.
pub proof fn a_double_has_the_integer_part_of_its_value(
    bits: u64,
    minus: bool,
    field: int,
    m: int,
)
    requires
        is_double(bits, minus, field, m),
    ensures
        truncation(NumericSource::Float { bits }) is Some <==> field < 1149 || field == 1149 && m
            <= 0x1f_f933_c78c_dfad,
        truncation(NumericSource::Float { bits }) matches Some(t) ==> {
            let whole = if minus {
                -t.0
            } else {
                t.0
            };
            &&& field >= 1075 ==> whole == m * vstd::arithmetic::power2::pow2(
                (field - 1075) as nat,
            ) && !t.1
            &&& field < 1075 ==> {
                let one = vstd::arithmetic::power2::pow2((1075 - field) as nat) as int;
                &&& one * whole <= m < one * (whole + 1)
                &&& t.1 <==> m != one * whole
            }
        },
        negative(NumericSource::Float { bits }) == minus,
{
    lemma_double_fields(bits, minus, field, m);
    if field < 1075 {
        let k = (1075 - field) as nat;
        let one = vstd::arithmetic::power2::pow2(k) as int;
        vstd::arithmetic::power2::lemma_pow2_pos(k);
        vstd::arithmetic::div_mod::lemma_fundamental_div_mod(m, one);
        vstd::arithmetic::div_mod::lemma_mod_bound(m, one);
        let q = m / one;
        assert(one * (q + 1) == one * q + one) by (nonlinear_arith);
    }
}

/// A double is in the range of `real` exactly where its magnitude is at least the
/// smallest normal one, 2 to the power of -126, and at most the largest one, 24
/// ones in binary times 2 to the power of 104; its sign does not matter.
pub proof fn a_real_has_its_range(bits: u64, minus: bool, field: int, m: int)
    requires
        is_double(bits, minus, field, m),
    ensures
        fits_real(bits) <==> 1023 - 126 <= field && (field < 1023 + 127 || field == 1023 + 127 && m
            <= 0xff_ffff * 0x2000_0000),
{
    lemma_double_fields(bits, minus, field, m);
}

/// Zero and what is not a number fit a `real`, and an infinity does not.
pub proof fn special_doubles_and_reals(bits: u64)
    ensures
        bits == 0 || bits == 0x8000_0000_0000_0000 ==> fits_real(bits),
        bits == 0x7ff0_0000_0000_0000 || bits == 0xfff0_0000_0000_0000 ==> !fits_real(bits)
            && !is_finite(bits) && !is_nan(bits),
        0x7ff0_0000_0000_0000 < bits < 0x8000_0000_0000_0000 || 0xfff0_0000_0000_0000 < bits
            ==> fits_real(bits) && !is_finite(bits) && is_nan(bits) && !negative(
            NumericSource::Float { bits },
        ),
        bits < 0x7ff0_0000_0000_0000 || 0x8000_0000_0000_0000 <= bits < 0xfff0_0000_0000_0000
            ==> is_finite(bits),
        bits == 0 || bits == 0x8000_0000_0000_0000 ==> !negative(NumericSource::Float { bits }),
{
}

/// A number text that is no plain decimal is read as its double, where it has a
/// finite one; beyond every double it is out of range if it has digits; and
/// without a double it is no number.
pub proof fn what_is_no_plain_decimal_is_its_double(text: Seq<char>, double: Option<u64>)
    requires
        ({
            let s = number_text(text);
            &&& s.len() > 0
            &&& forall|k: int| 0 <= k < s.len() ==> !chars::spec_is_whitespace(#[trigger] s[k])
            &&& !is_plain_decimal(s)
        }),
    ensures
        double is None ==> numeric_of(text, double) == Err::<NumericSource, ConvError>(
            ConvError::InvalidCharacterValue,
        ),
        double matches Some(bits) ==> {
            let size = bits as int % 0x8000_0000_0000_0000;
            &&& size < 0x7ff0_0000_0000_0000 ==> numeric_of(text, double) == Ok::<
                NumericSource,
                ConvError,
            >(NumericSource::Float { bits })
            &&& size >= 0x7ff0_0000_0000_0000 ==> numeric_of(text, double) == Err::<
                NumericSource,
                ConvError,
            >(
                if exists|k: int|
                    0 <= k < number_text(text).len() && '0' <= #[trigger] number_text(text)[k]
                        && number_text(text)[k] <= '9' {
                    ConvError::OutOfRange
                } else {
                    ConvError::InvalidCharacterValue
                },
            )
        },
{
    let s = number_text(text);
    if let Some(bits) = double {
        assert(is_finite(bits) <==> bits as int % 0x8000_0000_0000_0000 < 0x7ff0_0000_0000_0000);
    }
    if exists|k: int| 0 <= k < s.len() && '0' <= #[trigger] s[k] && s[k] <= '9' {
        let k = choose|k: int| 0 <= k < s.len() && '0' <= #[trigger] s[k] && s[k] <= '9';
        assert(chars::spec_is_digit(s[k]));
    }
}

/// Without a double, a number is read from nothing but a sign, digits and a point:
/// at most one sign, in front, at most one point, and a digit at least.
pub proof fn only_plain_decimals_need_no_double(text: Seq<char>, i: int, j: int)
    requires
        numeric_of(text, None) is Ok,
        0 <= i < number_text(text).len(),
        0 <= j < number_text(text).len(),
    ensures
        ({
            let s = number_text(text);
            &&& '0' <= s[i] <= '9' || s[i] == '.' || i == 0 && (s[i] == '-' || s[i] == '+')
            &&& s[i] == '.' && s[j] == '.' ==> i == j
            &&& exists|k: int| 0 <= k < s.len() && '0' <= #[trigger] s[k] <= '9'
        }),
{
    let s = number_text(text);
    let u = unsigned_text(s);
    let skipped = s.len() - u.len();
    chars::lemma_find(u, '.');
    let at = chars::spec_find(u, '.');
    lemma_plain_character(s, i);
    lemma_plain_character(s, j);
    if integer_digits(s).len() > 0 {
        assert(chars::spec_is_digit(integer_digits(s)[0]));
        assert(s[skipped as int] == integer_digits(s)[0]);
    } else {
        assert(chars::spec_is_digit(fraction_digits(s)[0]));
        assert(s[skipped + at + 1] == fraction_digits(s)[0]);
    }
}

/// A character of a plain decimal is its sign, its point or a digit.
proof fn lemma_plain_character(s: Seq<char>, i: int)
    requires
        is_plain_decimal(s),
        0 <= i < s.len(),
    ensures
        '0' <= s[i] <= '9' || s[i] == '.' && i == s.len() - unsigned_text(s).len()
            + chars::spec_find(unsigned_text(s), '.') || i == 0 && (s[i] == '-' || s[i] == '+'),
{
    let u = unsigned_text(s);
    let skipped = s.len() - u.len();
    chars::lemma_find(u, '.');
    let at = chars::spec_find(u, '.');
    let j = i - skipped;
    if j >= 0 {
        assert(s[i] == u[j]);
        if j < at {
            assert(chars::spec_is_digit(integer_digits(s)[j]));
            assert(integer_digits(s)[j] == u[j]);
        } else if j > at {
            assert(chars::spec_is_digit(fraction_digits(s)[j - at - 1]));
            assert(fraction_digits(s)[j - at - 1] == u[j]);
        }
    }
}

} // verus!
