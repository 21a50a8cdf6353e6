//! Memory sizes as text: reading `1.5G`, writing `1.5GiB`.
use crate::bignat::BigNat;
use crate::number::{self, NumberError, Real};
use crate::{rounding, text};
use vstd::arithmetic::div_mod::*;
use vstd::arithmetic::mul::*;
use vstd::arithmetic::power2::*;
use vstd::prelude::*;
use vstd::slice::slice_subrange;
use vstd::string::*;

verus! {

/// Why a text is no size.
#[derive(Debug, PartialEq, Eq)]
pub enum SizeError {
    Empty,
    Number { number: String, cause: NumberError },
    Unit { unit: String },
    Range,
}

/// What a [`SizeError`] says.
pub enum SizeFault {
    Empty,
    Number { number: Seq<char>, cause: NumberError },
    Unit { unit: Seq<char> },
    Range,
}

impl View for SizeError {
    type V = SizeFault;

    open spec fn view(&self) -> SizeFault {
        match *self {
            SizeError::Empty => SizeFault::Empty,
            SizeError::Number { number, cause } => SizeFault::Number { number: number@, cause },
            SizeError::Unit { unit } => SizeFault::Unit { unit: unit@ },
            SizeError::Range => SizeFault::Range,
        }
    }
}

/// A character that can stand in the number of a size.
pub open spec fn is_number_char(c: char) -> bool {
    text::is_digit(c) || c == '.' || c == '+' || c == '-' || c == 'e' || c == 'E'
}

/// How many characters the number of a size has.
pub open spec fn number_len(s: Seq<char>) -> nat
    decreases s.len(),
{
    if s.len() > 0 && is_number_char(s.first()) {
        1 + number_len(s.drop_first())
    } else {
        0
    }
}

/// The power of two that a unit stands for.
pub open spec fn unit_power(unit: Seq<char>) -> Option<nat> {
    if unit == ""@ || unit == "b"@ {
        Some(0)
    } else if unit == "k"@ || unit == "kb"@ || unit == "kib"@ {
        Some(10)
    } else if unit == "m"@ || unit == "mb"@ || unit == "mib"@ {
        Some(20)
    } else if unit == "g"@ || unit == "gb"@ || unit == "gib"@ {
        Some(30)
    } else if unit == "t"@ || unit == "tb"@ || unit == "tib"@ {
        Some(40)
    } else {
        None
    }
}

/// `units * 2^k`, in bytes: the nearest whole number, halves upward, up to the largest count.
pub open spec fn whole_bytes(units: nat, k: nat) -> nat {
    let bytes = rounding::half_up(units * pow2(k), number::units_in_one());
    if bytes > u64::MAX {
        u64::MAX as nat
    } else {
        bytes
    }
}

/// The bytes that a number and a power of two make.
pub open spec fn scaled_bytes(value: number::Double, k: nat) -> Result<nat, SizeFault> {
    match value {
        number::Double::Finite { negative, units } => if negative && units > 0 {
            Err(SizeFault::Range)
        } else {
            Ok(whole_bytes(units, k))
        },
        _ => Err(SizeFault::Range),
    }
}

/// The number of bytes that a text denotes: a decimal number, then a unit if any, with white
/// space around either.
pub open spec fn size_from_text(input: Seq<char>) -> Result<nat, SizeFault> {
    let s = text::trim(input);
    let at = number_len(s) as int;
    let digits = s.take(at);
    let unit = text::ascii_lower(text::trim(s.skip(at)));
    if s.len() == 0 {
        Err(SizeFault::Empty)
    } else {
        match number::double_from_text(digits) {
            Ok(value) => match unit_power(unit) {
                Some(k) => scaled_bytes(value, k),
                None => Err(SizeFault::Unit { unit }),
            },
            Err(cause) => Err(SizeFault::Number { number: digits, cause }),
        }
    }
}

/// How many characters the number of a size has.
fn count_number(s: &[char]) -> (n: usize)
    ensures
        n == number_len(s@),
        n <= s.len(),
{
    let mut i: usize = 0;
    assert(s@.skip(0) =~= s@);
    while i < s.len() && (text::digit(s[i]) || s[i] == '.' || s[i] == '+' || s[i] == '-' || s[i]
        == 'e' || s[i] == 'E')
        invariant
            i <= s.len(),
            number_len(s@) == i + number_len(s@.skip(i as int)),
        decreases s.len() - i,
    {
        assert(s@.skip(i as int).drop_first() =~= s@.skip(i + 1));
        i = i + 1;
    }
    i
}

/// The power of two that a unit stands for.
fn power_of_unit(unit: &[char]) -> (k: Option<u32>)
    ensures
        match k {
            Some(k) => unit_power(unit@) == Some(k as nat) && k <= 40,
            None => unit_power(unit@) is None,
        },
{
    if text::spells(unit, "") || text::spells(unit, "b") {
        Some(0)
    } else if text::spells(unit, "k") || text::spells(unit, "kb") || text::spells(unit, "kib") {
        Some(10)
    } else if text::spells(unit, "m") || text::spells(unit, "mb") || text::spells(unit, "mib") {
        Some(20)
    } else if text::spells(unit, "g") || text::spells(unit, "gb") || text::spells(unit, "gib") {
        Some(30)
    } else if text::spells(unit, "t") || text::spells(unit, "tb") || text::spells(unit, "tib") {
        Some(40)
    } else {
        None
    }
}

/// The bytes that a number of units and a power of two make.
fn round_bytes(mantissa: u64, shift: u32, k: u32) -> (b: u64)
    requires
        shift <= rounding::RATIO_BITS,
        k <= 40,
    ensures
        b == whole_bytes(mantissa as nat * pow2(shift as nat), k as nat),
{
    let ghost units = mantissa as nat * pow2(shift as nat);
    let ghost one = number::units_in_one();
    let mut size = BigNat::from_u64(mantissa);
    size.shift(shift);
    size.shift(k);
    let mut limit = BigNat::from_u64(1);
    limit.shift(1074 + 64);
    let ghost x = units * pow2(k as nat);
    proof {
        lemma_pow2_pos(1074);
        lemma_pow2_adds(1074, 64);
        lemma_pow2_adds(1, 64);
        lemma2_to64();
        lemma2_to64_rest();
    }
    if !size.less(&limit) {
        proof {
            let m: nat = 0x1_0000_0000_0000_0000;
            assert(x >= m * one) by (nonlinear_arith)
                requires
                    x >= one * m,
            ;
            lemma_div_is_ordered((m * one) as int, x as int, one as int);
            lemma_div_by_multiple(m as int, one as int);
        }
        return u64::MAX;
    }
    let mut whole = BigNat::from_u64(1);
    whole.shift(1074);
    let q = rounding::round_half_up(size, &whole, 64);
    if q > u64::MAX as u128 {
        u64::MAX
    } else {
        q as u64
    }
}

/// The number of bytes that a text denotes.
pub fn parse_size(input: &str) -> (r: Result<u64, SizeError>)
    ensures
        match r {
            Ok(bytes) => size_from_text(input@) == Ok::<nat, SizeFault>(bytes as nat),
            Err(e) => size_from_text(input@) == Err::<nat, SizeFault>(e@),
        },
{
    let chars = text::to_chars(input);
    let trimmed = text::trimmed(chars.as_slice());
    if trimmed.len() == 0 {
        return Err(SizeError::Empty);
    }
    let at = count_number(trimmed);
    let digits = slice_subrange(trimmed, 0, at);
    let rest = slice_subrange(trimmed, at, trimmed.len());
    proof {
        assert(digits@ =~= trimmed@.take(at as int));
        assert(rest@ =~= trimmed@.skip(at as int));
    }
    let value = match number::parse_real(digits) {
        Ok(value) => value,
        Err(cause) => {
            return Err(SizeError::Number { number: text::from_chars(digits), cause });
        },
    };
    let unit = text::to_ascii_lower(text::trimmed(rest));
    let k = match power_of_unit(unit.as_slice()) {
        Some(k) => k,
        None => {
            return Err(SizeError::Unit { unit: text::from_chars(unit.as_slice()) });
        },
    };
    match value {
        Real::Finite { negative, mantissa, shift } => {
            proof {
                lemma_pow2_pos(shift as nat);
                if mantissa > 0 {
                    lemma_mul_strictly_positive(mantissa as int, pow2(shift as nat) as int);
                } else {
                    assert(0nat * pow2(shift as nat) == 0);
                }
            }
            if negative && mantissa > 0 {
                Err(SizeError::Range)
            } else {
                Ok(round_bytes(mantissa, shift, k))
            }
        },
        _ => Err(SizeError::Range),
    }
}

/// The words for a fault of a size.
pub open spec fn size_error_text(e: SizeFault) -> Seq<char> {
    match e {
        SizeFault::Empty => "size cannot be empty"@,
        SizeFault::Number { number, cause } => "invalid numeric size: "@ + text::debug_text(number)
            + ": "@ + number::number_error_text(cause),
        SizeFault::Unit { unit } => "unknown size unit: "@ + unit,
        SizeFault::Range => "size must be a non-negative finite number"@,
    }
}

impl SizeError {
    /// The words for the fault.
    pub fn message(&self) -> (r: String)
        ensures
            r@ == size_error_text(self@),
    {
        match self {
            SizeError::Empty => "size cannot be empty".to_string(),
            SizeError::Number { number, cause } => {
                text::quoted_fault(
                    "invalid numeric size: ",
                    text::quoted(number.as_str()).as_str(),
                    cause.message().as_str(),
                )
            },
            SizeError::Unit { unit } => text::concat("unknown size unit: ", unit.as_str()),
            SizeError::Range => "size must be a non-negative finite number".to_string(),
        }
    }
}

/// A count of tenths, as a decimal number with one place.
pub open spec fn tenths_text(tenths: nat) -> Seq<char> {
    text::decimal(tenths / 10) + "."@ + text::decimal(tenths % 10)
}

/// A number of bytes counted in units of `2^k` bytes, with one decimal place: the count is first
/// rounded to double precision, then to the nearest tenth.
pub open spec fn in_units(bytes: nat, k: nat) -> Seq<char> {
    tenths_text(rounding::half_even(10 * rounding::nearest(bytes, 1), pow2(k)))
}

/// A number of bytes for people to read.
pub open spec fn bytes_text(bytes: nat) -> Seq<char> {
    if bytes >= 0x4000_0000 {
        in_units(bytes, 30) + "GiB"@
    } else if bytes >= 0x10_0000 {
        in_units(bytes, 20) + "MiB"@
    } else {
        text::decimal(bytes) + "B"@
    }
}

/// A number of bytes counted in units of `2^k` bytes, with one decimal place.
fn count_in_units(bytes: u64, k: u32) -> (r: String)
    requires
        20 <= k <= 30,
    ensures
        r@ == in_units(bytes as nat, k as nat),
{
    let one = BigNat::from_u64(1);
    proof {
        lemma2_to64();
        lemma2_to64_rest();
        lemma_pow2_strictly_increases(64, 4000);
        number::lemma_nearest_within(bytes as nat, 1, 64);
    }
    let (mantissa, shift) = rounding::round_ratio(BigNat::from_u64(bytes), &one);
    let mut top = BigNat::from_u64(mantissa);
    top.shift(shift);
    top.mul_add(10, 0);
    let mut bottom = BigNat::from_u64(1);
    bottom.shift(k);
    proof {
        lemma_pow2_pos(k as nat);
        assert(bottom@ * pow2(68) >= pow2(68)) by (nonlinear_arith)
            requires
                bottom@ >= 1,
        ;
        lemma_pow2_adds(64, 4);
    }
    let tenths = rounding::round_half_even(top, &bottom, 68);
    let mut r = text::decimal_string(tenths / 10);
    r.append(".");
    r.append(text::decimal_string(tenths % 10).as_str());
    r
}

/// A number of bytes for people to read.
pub fn format_bytes(bytes: u64) -> (r: String)
    ensures
        r@ == bytes_text(bytes as nat),
{
    if bytes >= 1024 * 1024 * 1024 {
        let mut r = count_in_units(bytes, 30);
        r.append("GiB");
        r
    } else if bytes >= 1024 * 1024 {
        let mut r = count_in_units(bytes, 20);
        r.append("MiB");
        r
    } else {
        let mut r = text::decimal_string(bytes as u128);
        r.append("B");
        r
    }
}

} // verus!
