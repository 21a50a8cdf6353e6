//! Whole sizes and whole spans of time mean exactly what they say, although they are read in double
//! precision.
use crate::number::{self, Double};
use crate::{duration, rounding, size, text};
use vstd::arithmetic::div_mod::*;
use vstd::arithmetic::mul::*;
use vstd::arithmetic::power2::*;
use vstd::prelude::*;
use vstd::string::*;

verus! {

/// A whole number up to `2^53` is a double-precision number.
pub proof fn lemma_whole_is_exact(n: nat)
    requires
        n <= pow2(53),
    ensures
        rounding::nearest(n * number::units_in_one(), 1) == n * number::units_in_one(),
        n * number::units_in_one() < number::units_limit(),
{
    let one = number::units_in_one();
    let x = n * one;
    let e = number::lemma_spacing_exists(x, 1, 0);
    let step = pow2(e);
    rounding::lemma_nearest_at(x, 1, e);
    lemma_pow2_pos(1074);
    lemma_pow2_pos(e);
    assert(1 * step == step);
    assert(x <= pow2(53) * one) by (nonlinear_arith)
        requires
            n <= pow2(53),
            x == n * one,
            one > 0,
    ;
    lemma_pow2_adds(53, 1074);
    lemma_pow2_strictly_increases(1127, 2098);
    let m = if e > 1074 {
        lemma_pow2_adds(52, e);
        if 1127 < 52 + e {
            lemma_pow2_strictly_increases(1127, 52 + e);
        }
        pow2(52)
    } else {
        let b = pow2((1074 - e) as nat);
        lemma_pow2_adds(e, (1074 - e) as nat);
        assert(x == (n * b) * step) by (nonlinear_arith)
            requires
                x == n * one,
                one == step * b,
        ;
        n * b
    };
    assert(x == m * step);
    lemma_div_by_multiple(m as int, step as int);
    lemma_mod_multiples_basic(m as int, step as int);
    assert(rounding::half_even(x, step) == m);
}

pub proof fn lemma_digits_len(s: Seq<char>)
    requires
        forall|i: int| 0 <= i < s.len() ==> text::is_digit(#[trigger] s[i]),
    ensures
        text::digits_len(s) == s.len(),
    decreases s.len(),
{
    if s.len() > 0 {
        assert(text::is_digit(s[0]));
        let rest = s.drop_first();
        assert forall|i: int| 0 <= i < rest.len() implies text::is_digit(#[trigger] rest[i]) by {
            assert(rest[i] == s[i + 1]);
        }
        lemma_digits_len(rest);
    }
}

/// The digits of a whole number up to `2^53` denote that number.
pub proof fn lemma_digits_denote(n: nat)
    requires
        n <= pow2(53),
    ensures
        number::double_from_text(text::decimal(n)) == Ok::<Double, number::NumberError>(
            Double::Finite { negative: false, units: n * number::units_in_one() },
        ),
{
    let s = text::decimal(n);
    text::lemma_decimal_value(n);
    assert(text::is_digit(s[0]));
    assert(number::unsigned(s) == s);
    lemma_digits_len(s);
    let a = text::digits_len(s) as int;
    assert(s.take(a) =~= s);
    assert(s.skip(a) =~= Seq::<char>::empty());
    assert(s.take(a) + Seq::<char>::empty() =~= s);
    assert(number::plain_number(s) == Some((n, 0int)));
    lemma_whole_is_exact(n);
    assert(number::ten(0) == 1);
    assert(n * 1 == n);
}

/// Text that neither begins nor ends with white space is left alone.
pub proof fn lemma_nothing_to_trim(s: Seq<char>)
    requires
        s.len() > 0,
        !text::is_white(s.first()),
        !text::is_white(s.last()),
    ensures
        text::trim(s) == s,
{
}

/// A letter of a unit of size.
pub open spec fn is_unit_letter(c: char) -> bool {
    c == 'b' || c == 'k' || c == 'm' || c == 'g' || c == 't' || c == 'i'
}

proof fn lemma_unit_letters(unit: Seq<char>)
    requires
        size::unit_power(unit) is Some,
    ensures
        forall|i: int| 0 <= i < unit.len() ==> is_unit_letter(#[trigger] unit[i]),
{
    reveal_strlit("");
    reveal_strlit("b");
    reveal_strlit("k");
    reveal_strlit("kb");
    reveal_strlit("kib");
    reveal_strlit("m");
    reveal_strlit("mb");
    reveal_strlit("mib");
    reveal_strlit("g");
    reveal_strlit("gb");
    reveal_strlit("gib");
    reveal_strlit("t");
    reveal_strlit("tb");
    reveal_strlit("tib");
}

/// The number of a size ends where its unit begins.
proof fn lemma_number_len(digits: Seq<char>, unit: Seq<char>)
    requires
        forall|i: int| 0 <= i < digits.len() ==> text::is_digit(#[trigger] digits[i]),
        unit.len() > 0 ==> !size::is_number_char(unit[0]),
    ensures
        size::number_len(digits + unit) == digits.len(),
    decreases digits.len(),
{
    let s = digits + unit;
    if digits.len() > 0 {
        assert(text::is_digit(digits[0]));
        let rest = digits.drop_first();
        assert forall|i: int| 0 <= i < rest.len() implies text::is_digit(#[trigger] rest[i]) by {
            assert(rest[i] == digits[i + 1]);
        }
        lemma_number_len(rest, unit);
        assert(s.drop_first() =~= rest + unit);
    } else {
        assert(s =~= unit);
    }
}

/// Whether there is nothing but white space.
pub open spec fn is_blank(s: Seq<char>) -> bool {
    forall|i: int| 0 <= i < s.len() ==> text::is_white(#[trigger] s[i])
}

/// White space in front does not matter.
proof fn lemma_blank_front(front: Seq<char>, s: Seq<char>)
    requires
        is_blank(front),
    ensures
        text::trim_start(front + s) == text::trim_start(s),
    decreases front.len(),
{
    if front.len() > 0 {
        let rest = front.drop_first();
        assert forall|i: int| 0 <= i < rest.len() implies text::is_white(#[trigger] rest[i]) by {
            assert(rest[i] == front[i + 1]);
        }
        lemma_blank_front(rest, s);
        assert(text::is_white(front[0]));
        assert((front + s).drop_first() =~= rest + s);
    } else {
        assert(front + s =~= s);
    }
}

/// White space at the end does not matter.
proof fn lemma_blank_back(s: Seq<char>, back: Seq<char>)
    requires
        is_blank(back),
    ensures
        text::trim_end(s + back) == text::trim_end(s),
    decreases back.len(),
{
    if back.len() > 0 {
        let rest = back.drop_last();
        lemma_blank_back(s, rest);
        assert(text::is_white(back[back.len() - 1]));
        assert((s + back).drop_last() =~= s + rest);
    } else {
        assert(s + back =~= s);
    }
}

/// White space at the end does not matter where the front is trimmed too.
proof fn lemma_blank_end(s: Seq<char>, back: Seq<char>)
    requires
        is_blank(back),
    ensures
        text::trim(s + back) == text::trim(s),
    decreases s.len(),
{
    if s.len() == 0 {
        assert(s + back =~= back + s);
        lemma_blank_front(back, s);
    } else if text::is_white(s.first()) {
        lemma_blank_end(s.drop_first(), back);
        assert((s + back).drop_first() =~= s.drop_first() + back);
    } else {
        lemma_blank_back(s, back);
    }
}

/// White space around a text is trimmed away.
pub proof fn lemma_blank_around(front: Seq<char>, s: Seq<char>, back: Seq<char>)
    requires
        is_blank(front),
        is_blank(back),
    ensures
        text::trim(front + s + back) == text::trim(s),
{
    lemma_blank_front(front, s + back);
    assert(front + s + back =~= front + (s + back));
    lemma_blank_end(s, back);
}

/// White space around a size, or around a span of time, makes no difference.
pub proof fn law_white_space_makes_no_difference(
    front: Seq<char>,
    s: Seq<char>,
    back: Seq<char>,
)
    requires
        is_blank(front),
        is_blank(back),
    ensures
        size::size_from_text(front + s + back) == size::size_from_text(s),
        duration::duration_from_text(front + s + back) == duration::duration_from_text(s),
{
    lemma_blank_around(front, s, back);
}

/// A whole number up to `2^53` with a unit of `2^k` bytes, in letters of either case, denotes
/// exactly that many times `2^k` bytes, as far as these can be counted. White space may stand
/// before the unit.
pub proof fn law_whole_sizes_are_exact(n: nat, space: Seq<char>, unit: Seq<char>, k: nat)
    requires
        n <= pow2(53),
        is_blank(space),
        size::unit_power(text::ascii_lower(unit)) == Some(k),
    ensures
        size::size_from_text(text::decimal(n) + space + unit) == Ok::<nat, size::SizeFault>(
            if n * pow2(k) > u64::MAX {
                u64::MAX as nat
            } else {
                n * pow2(k)
            },
        ),
{
    let digits = text::decimal(n);
    let tail = if unit.len() > 0 {
        space + unit
    } else {
        unit
    };
    let s = digits + tail;
    let lower = text::ascii_lower(unit);
    text::lemma_decimal_value(n);
    lemma_unit_letters(lower);
    assert(text::is_digit(digits[0]));
    if unit.len() > 0 {
        assert(is_unit_letter(lower[0]));
        assert(lower[0] == text::lower(unit[0]));
        assert(is_unit_letter(lower[unit.len() - 1]));
        assert(lower[unit.len() - 1] == text::lower(unit[unit.len() - 1]));
        assert(s.last() == unit[unit.len() - 1]);
        lemma_nothing_to_trim(unit);
        assert(digits + space + unit =~= s);
        if space.len() > 0 {
            assert(text::is_white(space[0]));
            assert(tail[0] == space[0]);
        } else {
            assert(tail =~= unit);
        }
        lemma_blank_around(space, unit, Seq::empty());
        assert(space + unit + Seq::<char>::empty() =~= tail);
    } else {
        assert(text::is_digit(digits[digits.len() - 1]));
        assert(s =~= digits);
        assert(digits + space + unit =~= digits + space);
        lemma_blank_around(Seq::empty(), digits, space);
        assert(Seq::<char>::empty() + digits + space =~= digits + space);
    }
    assert(s.first() == digits[0]);
    lemma_nothing_to_trim(s);
    assert(text::trim(digits + space + unit) == s);
    lemma_number_len(digits, tail);
    assert(s.take(digits.len() as int) =~= digits);
    assert(s.skip(digits.len() as int) =~= tail);
    assert(text::trim(tail) == unit);
    lemma_digits_denote(n);
    let one = number::units_in_one();
    lemma_pow2_pos(1074);
    let bytes = n * pow2(k);
    assert((n * one) * pow2(k) == bytes * one) by (nonlinear_arith)
        requires
            bytes == n * pow2(k),
    ;
    lemma_div_by_multiple(bytes as int, one as int);
    lemma_mod_multiples_basic(bytes as int, one as int);
    assert(rounding::half_up((n * one) * pow2(k), one) == bytes);
}

/// A whole number of units has that many whole seconds.
pub proof fn lemma_whole_seconds(n: nat)
    requires
        n <= pow2(53),
    ensures
        duration::nanos_in(Double::Finite { negative: false, units: n * number::units_in_one() })
            == Ok::<nat, duration::DurationFault>(n * 1_000_000_000),
{
    let one = number::units_in_one();
    lemma_pow2_pos(1074);
    lemma_pow2_strictly_increases(53, 64);
    assert(n * one < pow2(64) * one) by (nonlinear_arith)
        requires
            n < pow2(64),
            one > 0,
    ;
    let nanos = n * 1_000_000_000;
    assert((n * one) * 1_000_000_000 == nanos * one) by (nonlinear_arith)
        requires
            nanos == n * 1_000_000_000,
    ;
    lemma_div_by_multiple(nanos as int, one as int);
    lemma_mod_multiples_basic(nanos as int, one as int);
}

/// A whole number up to `2^53`, alone or with `s` behind it, denotes exactly that many seconds.
pub proof fn law_whole_seconds_are_exact(n: nat)
    requires
        n <= pow2(53),
    ensures
        duration::duration_from_text(text::decimal(n)) == Ok::<nat, duration::DurationFault>(
            n * 1_000_000_000,
        ),
        duration::duration_from_text(text::decimal(n) + "s"@) == Ok::<
            nat,
            duration::DurationFault,
        >(n * 1_000_000_000),
{
    let digits = text::decimal(n);
    text::lemma_decimal_value(n);
    lemma_digits_denote(n);
    lemma_whole_seconds(n);
    reveal_strlit("ms");
    reveal_strlit("s");
    reveal_strlit("m");
    assert(text::is_digit(digits[0]));
    assert(text::is_digit(digits[digits.len() - 1]));
    lemma_nothing_to_trim(digits);
    lemma_last_char(digits, "ms"@);
    lemma_last_char(digits, "s"@);
    lemma_last_char(digits, "m"@);
    let s = digits + "s"@;
    assert(s.first() == digits[0]);
    assert(s.last() == 's');
    lemma_nothing_to_trim(s);
    assert(s.skip(s.len() - 1) =~= "s"@);
    assert(s.take(s.len() - 1) =~= digits);
    if text::ends_with(s, "ms"@) {
        assert(s.skip(s.len() - 2)[0] == digits[digits.len() - 1]);
    }
}

/// A text ends in its last character.
pub proof fn lemma_last_char(s: Seq<char>, end: Seq<char>)
    requires
        end.len() > 0,
        s.len() > 0,
        s.last() != end.last(),
    ensures
        !text::ends_with(s, end),
{
    if text::ends_with(s, end) {
        assert(s.skip(s.len() - end.len()).last() == s.last());
    }
}

/// A whole number of minutes, of `2^53` seconds at most, denotes exactly that many minutes.
pub proof fn law_whole_minutes_are_exact(n: nat)
    requires
        n * 60 <= pow2(53),
    ensures
        duration::duration_from_text(text::decimal(n) + "m"@) == Ok::<
            nat,
            duration::DurationFault,
        >(n * 60 * 1_000_000_000),
{
    let digits = text::decimal(n);
    let one = number::units_in_one();
    text::lemma_decimal_value(n);
    lemma_digits_denote(n);
    lemma_whole_seconds(n * 60);
    lemma_whole_is_exact(n * 60);
    assert((n * one) * 60 == (n * 60) * one) by (nonlinear_arith);
    reveal_strlit("ms");
    reveal_strlit("s");
    reveal_strlit("m");
    let s = digits + "m"@;
    assert(text::is_digit(digits[0]));
    assert(s.first() == digits[0]);
    assert(s.last() == 'm');
    lemma_nothing_to_trim(s);
    lemma_last_char(s, "ms"@);
    lemma_last_char(s, "s"@);
    assert(s.skip(s.len() - 1) =~= "m"@);
    assert(s.take(s.len() - 1) =~= digits);
}

/// Rounding to a whole number is off by half at most.
pub proof fn lemma_half_even_off(n: nat, d: nat)
    requires
        d > 0,
    ensures
        2 * (rounding::half_even(n, d) * d - n) <= d,
        2 * (n - rounding::half_even(n, d) * d) <= d,
{
    let q = n / d;
    let r = n % d;
    lemma_fundamental_div_mod(n as int, d as int);
    lemma_mod_bound(n as int, d as int);
    assert(d * q == q * d) by (nonlinear_arith);
    assert((q + 1) * d == q * d + d) by (nonlinear_arith);
}

/// What is off by less than half is rounded away.
proof fn lemma_half_even_near(v: nat, d: nat, m: nat)
    requires
        d > 0,
        2 * (v - m * d) < d,
        2 * (m * d - v) < d,
    ensures
        rounding::half_even(v, d) == m,
{
    if v >= m * d {
        let r = v - m * d;
        lemma_fundamental_div_mod_converse(v as int, d as int, m as int, r);
    } else {
        let r = d - (m * d - v);
        assert((m - 1) * d == m * d - d) by (nonlinear_arith);
        assert(m > 0) by (nonlinear_arith)
            requires
                v < m * d,
                v >= 0,
        ;
        lemma_fundamental_div_mod_converse(v as int, d as int, m - 1, r);
    }
}

/// A thousandth of a whole number of seconds, rounded to double precision, is off by less than half
/// a nanosecond.
proof fn lemma_milliseconds(n: nat)
    requires
        n < 8_388_608_000,
    ensures
        duration::nanos_in(number::double_near(false, n * number::units_in_one(), 1000)) == Ok::<
            nat,
            duration::DurationFault,
        >(n * 1_000_000),
{
    let one = number::units_in_one();
    let x = n * one;
    let units = rounding::nearest(x, 1000);
    let e = number::lemma_spacing_exists(x, 1000, 0);
    let step = pow2(e);
    let d: nat = 1000 * step;
    rounding::lemma_nearest_at(x, 1000, e);
    lemma_pow2_pos(e);
    lemma_pow2_pos(1074);
    lemma_half_even_off(x, d);
    let h = rounding::half_even(x, d);
    assert(h * d == 1000 * units) by (nonlinear_arith)
        requires
            units == h * step,
            d == 1000 * step,
    ;
    if e > 1044 {
        lemma_pow2_adds(52, e);
        lemma_pow2_adds(23, 1074);
        lemma2_to64();
        if 1097 < 52 + e {
            lemma_pow2_strictly_increases(1097, 52 + e);
        }
        assert(pow2(52) * d == 1000 * pow2(52 + e)) by (nonlinear_arith)
            requires
                d == 1000 * step,
                pow2(52 + e) == pow2(52) * step,
        ;
        assert(x < 1000 * pow2(1097)) by (nonlinear_arith)
            requires
                x == n * one,
                n < 1000 * pow2(23),
                pow2(1097) == pow2(23) * one,
                one > 0,
        ;
    }
    if e < 1044 {
        lemma_pow2_strictly_increases(e, 1044);
    }
    lemma_pow2_adds(30, 1044);
    lemma_pow2_pos(1044);
    lemma2_to64();
    assert(1_000_000_000 * step < one) by (nonlinear_arith)
        requires
            step <= pow2(1044),
            one == 0x4000_0000 * pow2(1044),
            pow2(1044) > 0,
    ;
    let off = if 1000 * units >= x {
        1000 * units - x
    } else {
        x - 1000 * units
    };
    assert(2_000_000 * off < one);
    let nanos = n * 1_000_000;
    assert(nanos * one == 1_000_000 * x) by (nonlinear_arith)
        requires
            nanos == n * 1_000_000,
            x == n * one,
    ;
    lemma_half_even_near(units * 1_000_000_000, one, nanos);
    let p = pow2(52);
    lemma2_to64_rest();
    assert(x < p * one) by (nonlinear_arith)
        requires
            x == n * one,
            n < p,
            one > 0,
    ;
    lemma_pow2_adds(52, 1074);
    lemma_pow2_strictly_increases(1126, 2098);
    lemma_pow2_strictly_increases(52, 64);
    assert(p * one + one <= pow2(64) * one) by (nonlinear_arith)
        requires
            p < pow2(64),
            one > 0,
    ;
    lemma_pow2_strictly_increases(1074, 1126);
    lemma_pow2_unfold(1127);
    lemma_pow2_strictly_increases(1127, 2098);
    assert(units < number::units_limit());
    assert(units < pow2(64) * one);
}

/// A whole number of milliseconds, of less than `2^23` seconds, denotes exactly that many
/// milliseconds.
pub proof fn law_whole_milliseconds_are_exact(n: nat)
    requires
        n < 8_388_608_000,
    ensures
        duration::duration_from_text(text::decimal(n) + "ms"@) == Ok::<
            nat,
            duration::DurationFault,
        >(n * 1_000_000),
{
    let digits = text::decimal(n);
    text::lemma_decimal_value(n);
    lemma2_to64_rest();
    lemma_digits_denote(n);
    lemma_milliseconds(n);
    reveal_strlit("ms");
    let s = digits + "ms"@;
    assert(text::is_digit(digits[0]));
    assert(s.first() == digits[0]);
    assert(s.last() == 's');
    lemma_nothing_to_trim(s);
    assert(s.skip(s.len() - 2) =~= "ms"@);
    assert(s.take(s.len() - 2) =~= digits);
}

/// Whether a text is made of the given small letters, each of them small or capital.
pub open spec fn in_either_case(s: Seq<char>, small: Seq<char>) -> bool {
    s.len() == small.len() && forall|i: int|
        0 <= i < s.len() ==> (#[trigger] s[i]) == small[i] || s[i] as int == small[i] as int - 32
}

pub proof fn lemma_either_case(s: Seq<char>, small: Seq<char>)
    requires
        in_either_case(s, small),
        forall|i: int| 0 <= i < small.len() ==> is_unit_letter(#[trigger] small[i]),
    ensures
        text::ascii_lower(s) == small,
{
    assert forall|i: int| 0 <= i < s.len() implies text::lower(#[trigger] s[i]) == small[i] by {
        assert(is_unit_letter(small[i]));
        let c = s[i];
        if c != small[i] {
            assert(c as int + 32 == small[i] as int);
            assert('A' <= c && c <= 'Z');
            vstd::utf8::char_u32_cast(small[i], small[i] as u32);
        }
    }
    assert(text::ascii_lower(s) =~= small);
}

/// How many bytes the units of size stand for, in small letters: 1024 once for `k`, twice for `m`,
/// three times for `g` and four times for `t`, with `b` or `ib` behind the letter or without. One
/// byte is `b`, or nothing.
pub open spec fn is_unit(small: Seq<char>, factor: nat) -> bool {
    ||| factor == 1 && (small == Seq::<char>::empty() || small == seq!['b'])
    ||| factor == 1024 && (small == seq!['k'] || small == seq!['k', 'b'] || small == seq![
        'k',
        'i',
        'b',
    ])
    ||| factor == 1024 * 1024 && (small == seq!['m'] || small == seq!['m', 'b'] || small
        == seq!['m', 'i', 'b'])
    ||| factor == 1024 * 1024 * 1024 && (small == seq!['g'] || small == seq!['g', 'b']
        || small == seq!['g', 'i', 'b'])
    ||| factor == 1024 * 1024 * 1024 * 1024 && (small == seq!['t'] || small == seq![
        't',
        'b',
    ] || small == seq!['t', 'i', 'b'])
}

/// A unit has the power of two that makes its factor.
pub proof fn lemma_unit(unit: Seq<char>, small: Seq<char>, factor: nat) -> (k: nat)
    requires
        in_either_case(unit, small),
        is_unit(small, factor),
    ensures
        size::unit_power(text::ascii_lower(unit)) == Some(k),
        pow2(k) == factor,
        k <= 40,
        unit.len() > 0 ==> is_unit_letter(text::lower(unit[0])),
        unit.len() > 0 ==> is_unit_letter(text::lower(unit.last())),
{
    reveal_strlit("");
    reveal_strlit("b");
    reveal_strlit("k");
    reveal_strlit("kb");
    reveal_strlit("kib");
    reveal_strlit("m");
    reveal_strlit("mb");
    reveal_strlit("mib");
    reveal_strlit("g");
    reveal_strlit("gb");
    reveal_strlit("gib");
    reveal_strlit("t");
    reveal_strlit("tb");
    reveal_strlit("tib");
    lemma_either_case(unit, small);
    lemma2_to64();
    lemma2_to64_rest();
    assert(small =~= ""@ || small =~= "b"@ || small =~= "k"@ || small =~= "kb"@ || small =~= "kib"@
        || small =~= "m"@ || small =~= "mb"@ || small =~= "mib"@ || small =~= "g"@ || small
        =~= "gb"@ || small =~= "gib"@ || small =~= "t"@ || small =~= "tb"@ || small =~= "tib"@);
    let k: nat = if factor == 1 {
        0
    } else if factor == 1024 {
        10
    } else if factor == 1024 * 1024 {
        20
    } else if factor == 1024 * 1024 * 1024 {
        30
    } else {
        40
    };
    assert(pow2(k) == factor);
    assert(size::unit_power(small) == Some(k)) by {
        assert("b"@[0] == 'b' && "b"@.len() == 1);
        assert("k"@[0] == 'k' && "k"@.len() == 1);
        assert("kb"@[0] == 'k' && "kb"@.len() == 2);
        assert("kib"@[0] == 'k' && "kib"@.len() == 3);
        assert("m"@[0] == 'm' && "m"@.len() == 1);
        assert("mb"@[0] == 'm' && "mb"@.len() == 2);
        assert("mib"@[0] == 'm' && "mib"@.len() == 3);
        assert("g"@[0] == 'g' && "g"@.len() == 1);
        assert("gb"@[0] == 'g' && "gb"@.len() == 2);
        assert("gib"@[0] == 'g' && "gib"@.len() == 3);
        assert("t"@[0] == 't' && "t"@.len() == 1);
        assert("tb"@[0] == 't' && "tb"@.len() == 2);
        assert("tib"@[0] == 't' && "tib"@.len() == 3);
    }
    if unit.len() > 0 {
        assert(text::ascii_lower(unit)[0] == text::lower(unit[0]));
        assert(text::ascii_lower(unit)[unit.len() - 1] == text::lower(unit[unit.len() - 1]));
        lemma_unit_letters(small);
    }
    k
}

/// A whole number with a unit is that number of bytes times 1024 once for `K`, twice for `M`, three
/// times for `G` and four times for `T`; `B` or `iB` behind the letter makes no difference, nor do
/// capital letters. Without a unit, or with `B` alone, the number is that of the bytes.
pub proof fn law_units_of_size(
    n: nat,
    space: Seq<char>,
    unit: Seq<char>,
    small: Seq<char>,
    factor: nat,
)
    requires
        n <= 0x20_0000_0000_0000,
        is_blank(space),
        in_either_case(unit, small),
        is_unit(small, factor),
    ensures
        size::size_from_text(text::decimal(n) + space + unit) == Ok::<nat, size::SizeFault>(
            if n * factor > u64::MAX {
                u64::MAX as nat
            } else {
                n * factor
            },
        ),
{
    lemma2_to64_rest();
    let k = lemma_unit(unit, small, factor);
    law_whole_sizes_are_exact(n, space, unit, k);
}

} // verus!
