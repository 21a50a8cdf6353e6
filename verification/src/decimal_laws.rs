//! Sizes and spans of time with decimal places mean what they say, to within one byte or one
//! nanosecond.
use crate::exact::{self, in_either_case, is_blank};
use crate::number::{self, Double, NumberError};
use crate::{duration, rounding, size, text};
use vstd::arithmetic::div_mod::*;
use vstd::arithmetic::mul::*;
use vstd::arithmetic::power2::*;
use vstd::prelude::*;

verus! {

/// How far two numbers are apart.
pub open spec fn apart(a: int, b: int) -> int {
    if a >= b {
        a - b
    } else {
        b - a
    }
}

/// Rounding to double precision is off by one part in `2^53` at most.
pub proof fn law_double_precision_is_near(x: nat, d: nat)
    requires
        d > 0,
        x >= pow2(52) * d,
    ensures
        pow2(53) * apart(rounding::nearest(x, d) * d as int, x as int) <= x,
{
    let e = number::lemma_spacing_exists(x, d, 0);
    let step = pow2(e);
    lemma_pow2_pos(e);
    lemma_pow2_pos(52);
    lemma_pow2_unfold(53);
    lemma2_to64();
    rounding::lemma_nearest_at(x, d, e);
    let ds: nat = d * step;
    assert(ds > 0) by (nonlinear_arith)
        requires
            ds == d * step,
            d > 0,
            step > 0,
    ;
    exact::lemma_half_even_off(x, ds);
    let h = rounding::half_even(x, ds);
    let u = rounding::nearest(x, d);
    assert(h * ds == u * d) by (nonlinear_arith)
        requires
            u == h * step,
            ds == d * step,
    ;
    let off = apart(u * d as int, x as int);
    let p = pow2(52);
    if e == 0 {
        assert(step == 1);
        assert(ds == d) by (nonlinear_arith)
            requires
                ds == d * step,
                step == 1,
        ;
    }
    assert(p * ds <= x);
    assert(2 * off <= ds);
    assert(2 * p * off <= x) by (nonlinear_arith)
        requires
            2 * off <= ds,
            p * ds <= x,
            p > 0,
            off >= 0,
    ;
}

proof fn lemma_ten(k: nat)
    ensures
        number::ten(k) > 0,
        number::ten(k) <= pow2(4 * k),
    decreases k,
{
    lemma2_to64();
    if k > 0 {
        lemma_ten((k - 1) as nat);
        lemma_pow2_adds(4, 4 * (k - 1) as nat);
        assert(4 + 4 * (k - 1) as nat == 4 * k);
    }
}

/// The number that digits denote, with the last `k` of them behind the decimal point, is read to
/// within one part in `2^53`.
proof fn lemma_decimal_near(m: nat, k: nat)
    requires
        m > 0,
        k <= 250,
    ensures
        ({
            let one = number::units_in_one();
            let u = rounding::nearest(m * one, number::ten(k));
            &&& pow2(53) * apart(u * number::ten(k) as int, m * one as int) <= m * one
            &&& number::ten(k) > 0
        }),
{
    let one = number::units_in_one();
    let d = number::ten(k);
    lemma_ten(k);
    lemma_pow2_pos(52);
    if 4 * k < 1000 {
        lemma_pow2_strictly_increases(4 * k, 1000);
    }
    lemma_pow2_adds(52, 1000);
    lemma_pow2_strictly_increases(1052, 1074);
    assert(m * one >= pow2(52) * d) by (nonlinear_arith)
        requires
            m >= 1,
            one >= pow2(52) * pow2(1000),
            d <= pow2(1000),
            pow2(52) > 0,
            one > 0,
    ;
    law_double_precision_is_near(m * one, d);
}

/// A number with decimal places: digits, a point, and digits.
pub open spec fn with_places(n: nat, places: Seq<char>) -> Seq<char> {
    text::decimal(n) + seq!['.'] + places
}

/// Whether a text is a row of digits.
pub open spec fn is_row(s: Seq<char>) -> bool {
    s.len() > 0 && forall|i: int| 0 <= i < s.len() ==> '0' <= #[trigger] s[i] && s[i] <= '9'
}

proof fn lemma_digits_before(a: Seq<char>, rest: Seq<char>)
    requires
        forall|i: int| 0 <= i < a.len() ==> text::is_digit(#[trigger] a[i]),
        rest.len() > 0 ==> !text::is_digit(rest[0]),
    ensures
        text::digits_len(a + rest) == a.len(),
    decreases a.len(),
{
    if a.len() > 0 {
        let tail = a.drop_first();
        assert(text::is_digit(a[0]));
        assert forall|i: int| 0 <= i < tail.len() implies text::is_digit(#[trigger] tail[i]) by {
            assert(tail[i] == a[i + 1]);
        }
        lemma_digits_before(tail, rest);
        assert((a + rest).drop_first() =~= tail + rest);
    } else {
        assert(a + rest =~= rest);
    }
}

proof fn lemma_value_of_concat(a: Seq<char>, b: Seq<char>)
    ensures
        text::decimal_value(a + b) == text::decimal_value(a) * number::ten(b.len())
            + text::decimal_value(b),
    decreases b.len(),
{
    if b.len() == 0 {
        assert(a + b =~= a);
        assert(text::decimal_value(a) * 1 == text::decimal_value(a));
    } else {
        let front = b.drop_last();
        lemma_value_of_concat(a, front);
        assert((a + b).drop_last() =~= a + front);
        let x = text::decimal_value(a);
        let t = number::ten(front.len());
        assert(number::ten(b.len()) == 10 * t);
        assert(10 * (x * t) == x * (10 * t)) by (nonlinear_arith);
    }
}

/// How a number with decimal places is read.
proof fn lemma_with_places(n: nat, places: Seq<char>)
    requires
        is_row(places),
    ensures
        number::double_from_text(with_places(n, places)) == Ok::<Double, NumberError>(
            number::double_near(
                false,
                (n * number::ten(places.len()) + text::decimal_value(places))
                    * number::units_in_one(),
                number::ten(places.len()),
            ),
        ),
{
    let s = with_places(n, places);
    let digits = text::decimal(n);
    text::lemma_decimal_value(n);
    assert(text::is_digit(digits[0]));
    assert(s[0] == digits[0]);
    assert(number::unsigned(s) == s);
    let rest = seq!['.'] + places;
    assert(s =~= digits + rest);
    lemma_digits_before(digits, rest);
    let a = digits.len() as int;
    assert(s.skip(a) =~= rest);
    assert(s.take(a) =~= digits);
    assert(rest.drop_first() =~= places);
    assert forall|i: int| 0 <= i < places.len() implies text::is_digit(#[trigger] places[i]) by {}
    exact::lemma_digits_len(places);
    assert(places.take(places.len() as int) =~= places);
    assert(places.skip(places.len() as int) =~= Seq::<char>::empty());
    lemma_value_of_concat(digits, places);
    let m = n * number::ten(places.len()) + text::decimal_value(places);
    assert(number::plain_number(s) == Some((m, 0 - places.len() as int)));
}

proof fn lemma_half_up_off(n: nat, d: nat)
    requires
        d > 0,
    ensures
        2 * apart(rounding::half_up(n, d) * d as int, n as int) <= d,
{
    let q = n / d;
    lemma_fundamental_div_mod(n as int, d as int);
    lemma_mod_bound(n as int, d as int);
    assert(d * q == q * d) by (nonlinear_arith);
    assert((q + 1) * d == q * d + d) by (nonlinear_arith);
}

proof fn lemma_within_one(m: nat, d: nat, f: nat, one: nat, u: nat, b: nat, c: nat)
    requires
        one > 0,
        d > 0,
        c > 0,
        pow2(53) * apart(u * d as int, m * one as int) <= c * (m * one),
        2 * apart(b * one as int, u * f as int) <= one,
        c * (m * f) <= pow2(52) * d,
    ensures
        apart(b * d as int, m * f as int) <= d,
        2 * pow2(52) * apart(b * d as int, m * f as int) <= pow2(52) * d + c * (m * f),
{
    let off = apart(u * d as int, m * one as int);
    let gap = apart(b * one as int, u * f as int);
    let p = pow2(52);
    lemma_pow2_pos(52);
    lemma_pow2_unfold(53);
    assert(2 * (off * f) <= d * one) by (nonlinear_arith)
        requires
            2 * p * off <= c * (m * one),
            c * (m * f) <= p * d,
            p > 0,
            off >= 0,
            f >= 0,
            one > 0,
            d > 0,
    {
        assert((2 * p * off) * f <= (c * (m * one)) * f);
        assert((c * (m * one)) * f == (c * (m * f)) * one);
        assert((c * (m * f)) * one <= (p * d) * one);
        assert(p * (2 * (off * f)) == (2 * p * off) * f);
        assert((p * d) * one == p * (d * one));
    }
    assert(2 * (gap * d) <= one * d) by (nonlinear_arith)
        requires
            2 * gap <= one,
            d > 0,
    ;
    let x = b * one * d;
    let y = u * f * d;
    let z = m * one * f;
    assert(apart(x as int, y as int) == gap * d) by (nonlinear_arith)
        requires
            x == b * one * d,
            y == u * f * d,
            gap == apart(b * one as int, u * f as int),
            d > 0,
    {
        if b * one >= u * f {
            assert((b * one - u * f) * d == b * one * d - u * f * d);
            assert(x >= y);
        } else {
            assert((u * f - b * one) * d == u * f * d - b * one * d);
            assert(y >= x);
        }
    }
    assert(apart(y as int, z as int) == off * f) by (nonlinear_arith)
        requires
            y == u * f * d,
            z == m * one * f,
            off == apart(u * d as int, m * one as int),
            f >= 0,
    {
        assert(u * f * d == (u * d) * f);
        if u * d >= m * one {
            assert((u * d - m * one) * f == (u * d) * f - m * one * f);
            assert(y >= z);
        } else {
            assert((m * one - u * d) * f == m * one * f - (u * d) * f);
            assert(z >= y);
        }
    }
    let w = apart(b * d as int, m * f as int);
    assert(apart(x as int, z as int) == w * one) by (nonlinear_arith)
        requires
            x == b * one * d,
            z == m * one * f,
            w == apart(b * d as int, m * f as int),
            one > 0,
    {
        assert(b * one * d == (b * d) * one);
        assert(m * one * f == (m * f) * one);
        if b * d >= m * f {
            assert((b * d - m * f) * one == (b * d) * one - (m * f) * one);
            assert(x >= z);
        } else {
            assert((m * f - b * d) * one == (m * f) * one - (b * d) * one);
            assert(z >= x);
        }
    }
    assert(w * one <= d * one);
    assert(w <= d) by (nonlinear_arith)
        requires
            w * one <= d * one,
            one > 0,
    ;
    let g = off * f;
    assert(2 * (w * one) <= d * one + 2 * g);
    assert(2 * p * g <= (c * (m * f)) * one) by (nonlinear_arith)
        requires
            2 * p * off <= c * (m * one),
            g == off * f,
            f >= 0,
    {
        assert((2 * p * off) * f <= (c * (m * one)) * f);
        assert((c * (m * one)) * f == (c * (m * f)) * one);
        assert((2 * p * off) * f == 2 * p * g);
    }
    assert(2 * p * w <= p * d + c * (m * f)) by (nonlinear_arith)
        requires
            2 * (w * one) <= d * one + 2 * g,
            2 * p * g <= (c * (m * f)) * one,
            one > 0,
            p > 0,
    {
        assert(p * (2 * (w * one)) <= p * (d * one + 2 * g));
        assert(p * (2 * (w * one)) == (2 * p * w) * one);
        assert(p * (d * one + 2 * g) == (p * d) * one + 2 * p * g);
        assert((2 * p * w) * one <= (p * d + c * (m * f)) * one) by {
            assert((p * d + c * (m * f)) * one == (p * d) * one + (c * (m * f)) * one);
        }
    }
}

proof fn lemma_number_chars(t: Seq<char>, rest: Seq<char>)
    requires
        forall|i: int| 0 <= i < t.len() ==> size::is_number_char(#[trigger] t[i]),
        rest.len() > 0 ==> !size::is_number_char(rest[0]),
    ensures
        size::number_len(t + rest) == t.len(),
    decreases t.len(),
{
    if t.len() > 0 {
        let tail = t.drop_first();
        assert(size::is_number_char(t[0]));
        assert forall|i: int| 0 <= i < tail.len() implies size::is_number_char(
            #[trigger] tail[i],
        ) by {
            assert(tail[i] == t[i + 1]);
        }
        lemma_number_chars(tail, rest);
        assert((t + rest).drop_first() =~= tail + rest);
    } else {
        assert(t + rest =~= rest);
    }
}

/// A number and a unit are read apart.
proof fn lemma_number_and_unit(
    t: Seq<char>,
    space: Seq<char>,
    unit: Seq<char>,
    small: Seq<char>,
    factor: nat,
) -> (k: nat)
    requires
        t.len() > 0,
        forall|i: int| 0 <= i < t.len() ==> size::is_number_char(#[trigger] t[i]),
        is_blank(space),
        in_either_case(unit, small),
        exact::is_unit(small, factor),
    ensures
        pow2(k) == factor,
        size::size_from_text(t + space + unit) == (match number::double_from_text(t) {
            Ok(value) => size::scaled_bytes(value, k),
            Err(cause) => Err::<nat, size::SizeFault>(size::SizeFault::Number { number: t, cause }),
        }),
{
    let k = exact::lemma_unit(unit, small, factor);
    let tail = if unit.len() > 0 {
        space + unit
    } else {
        unit
    };
    let s = t + tail;
    assert(size::is_number_char(t[0]));
    assert(size::is_number_char(t[t.len() - 1]));
    assert(!text::is_white(t[0]) && !text::is_white(t[t.len() - 1]));
    if unit.len() > 0 {
        assert(exact::is_unit_letter(text::lower(unit[0])));
        assert(exact::is_unit_letter(text::lower(unit.last())));
        assert(!text::is_white(unit[0]) && !size::is_number_char(unit[0]));
        assert(!text::is_white(unit.last()));
        exact::lemma_nothing_to_trim(unit);
        assert(t + space + unit =~= s);
        if space.len() > 0 {
            assert(text::is_white(space[0]));
            assert(tail[0] == space[0]);
        } else {
            assert(tail =~= unit);
        }
        assert(s.last() == unit.last());
        exact::lemma_blank_around(space, unit, Seq::empty());
        assert(space + unit + Seq::<char>::empty() =~= tail);
    } else {
        assert(s =~= t);
        assert(t + space + unit =~= t + space);
        exact::lemma_blank_around(Seq::empty(), t, space);
        assert(Seq::<char>::empty() + t + space =~= t + space);
    }
    assert(s.first() == t[0]);
    exact::lemma_nothing_to_trim(s);
    assert(text::trim(t + space + unit) == s);
    lemma_number_chars(t, tail);
    assert(s.take(t.len() as int) =~= t);
    assert(s.skip(t.len() as int) =~= tail);
    assert(text::trim(tail) == unit);
    k
}

/// A size with decimal places is the number of bytes that it says, rounded to the nearest
/// byte but for one part in `2^52`: the digits count as one number, divided by ten for each place. The
/// size has to be below `2^52` bytes.
pub proof fn law_decimal_sizes_are_near(
    n: nat,
    places: Seq<char>,
    space: Seq<char>,
    unit: Seq<char>,
    small: Seq<char>,
    factor: nat,
)
    requires
        is_row(places),
        places.len() <= 250,
        is_blank(space),
        in_either_case(unit, small),
        exact::is_unit(small, factor),
        n * number::ten(places.len()) + text::decimal_value(places) > 0,
        (n * number::ten(places.len()) + text::decimal_value(places)) * factor <= pow2(52)
            * number::ten(places.len()),
    ensures
        size::size_from_text(with_places(n, places) + space + unit) matches Ok(b) && apart(
            b * number::ten(places.len()) as int,
            (n * number::ten(places.len()) + text::decimal_value(places)) * factor as int,
        ) <= number::ten(places.len()) && 2 * pow2(52) * apart(
            b * number::ten(places.len()) as int,
            (n * number::ten(places.len()) + text::decimal_value(places)) * factor as int,
        ) <= pow2(52) * number::ten(places.len()) + (n * number::ten(places.len())
            + text::decimal_value(places)) * factor,
{
    let t = with_places(n, places);
    let d = number::ten(places.len());
    let m = n * d + text::decimal_value(places);
    let one = number::units_in_one();
    let digits = text::decimal(n);
    text::lemma_decimal_value(n);
    assert forall|i: int| 0 <= i < t.len() implies size::is_number_char(#[trigger] t[i]) by {
        if i < digits.len() {
            assert(text::is_digit(digits[i]));
        } else if i > digits.len() {
            let j = i - digits.len() - 1;
            assert(t[i] == places[j]);
        }
    }
    let k = lemma_number_and_unit(t, space, unit, small, factor);
    lemma_with_places(n, places);
    lemma_decimal_near(m, places.len());
    lemma_pow2_pos(1074);
    let u = rounding::nearest(m * one, d);
    lemma_units_in_range(m, d, u, factor);
    let b = rounding::half_up(u * factor, one);
    lemma_half_up_off(u * factor, one);
    lemma_within_one(m, d, factor, one, u, b, 1);
    assert(b <= pow2(52) + 1) by (nonlinear_arith)
        requires
            b * d <= m * factor + d,
            m * factor <= pow2(52) * d,
            d > 0,
    ;
    lemma2_to64_rest();
}

/// Such a number is far from too large for double precision.
proof fn lemma_units_in_range(m: nat, d: nat, u: nat, factor: nat)
    requires
        d > 0,
        factor > 0,
        m * factor <= pow2(52) * d,
        pow2(53) * apart(u * d as int, m * number::units_in_one() as int) <= m
            * number::units_in_one(),
    ensures
        u < number::units_limit(),
        u < pow2(64) * number::units_in_one(),
{
    let one = number::units_in_one();
    let p = pow2(52);
    lemma_pow2_pos(1074);
    lemma_pow2_pos(53);
    lemma_pow2_adds(53, 1074);
    lemma_pow2_unfold(53);
    lemma_pow2_strictly_increases(1127, 2098);
    lemma_pow2_strictly_increases(53, 64);
    assert(m <= p * d) by (nonlinear_arith)
        requires
            m * factor <= p * d,
            factor > 0,
    ;
    let off = apart(u * d as int, m * one as int);
    assert(off <= m * one) by (nonlinear_arith)
        requires
            pow2(53) * off <= m * one,
            pow2(53) > 0,
            off >= 0,
    ;
    assert(u * d <= 2 * (m * one));
    assert(m * one <= (p * d) * one) by (nonlinear_arith)
        requires
            m <= p * d,
            one > 0,
    ;
    assert(u <= 2 * p * one) by (nonlinear_arith)
        requires
            u * d <= 2 * (m * one),
            m * one <= (p * d) * one,
            d > 0,
            one > 0,
    {
        assert((p * d) * one == (p * one) * d);
        assert(u * d <= (2 * p * one) * d);
    }
    assert(2 * p * one == pow2(53) * one);
    assert(pow2(53) * one < pow2(64) * one) by (nonlinear_arith)
        requires
            pow2(53) < pow2(64),
            one > 0,
    ;
}

/// A number of seconds with decimal places, with or without `s` behind it, is the number of
/// nanoseconds that it says, rounded to the nearest one but for one part in `2^52`. The span has to be
/// below `2^52` nanoseconds.
pub proof fn law_decimal_seconds_are_near(n: nat, places: Seq<char>, marked: bool)
    requires
        is_row(places),
        places.len() <= 250,
        n * number::ten(places.len()) + text::decimal_value(places) > 0,
        (n * number::ten(places.len()) + text::decimal_value(places)) * 1_000_000_000 <= pow2(52)
            * number::ten(places.len()),
    ensures
        duration::duration_from_text(
            with_places(n, places) + (if marked {
                seq!['s']
            } else {
                Seq::empty()
            }),
        ) matches Ok(b) && apart(
            b * number::ten(places.len()) as int,
            (n * number::ten(places.len()) + text::decimal_value(places)) * 1_000_000_000int,
        ) <= number::ten(places.len()) && 2 * pow2(52) * apart(
            b * number::ten(places.len()) as int,
            (n * number::ten(places.len()) + text::decimal_value(places)) * 1_000_000_000int,
        ) <= pow2(52) * number::ten(places.len()) + 1 * ((n * number::ten(places.len())
            + text::decimal_value(places)) * 1_000_000_000),
{
    let t = with_places(n, places);
    let s = t + (if marked {
        seq!['s']
    } else {
        Seq::empty()
    });
    let d = number::ten(places.len());
    let m = n * d + text::decimal_value(places);
    let one = number::units_in_one();
    let digits = text::decimal(n);
    text::lemma_decimal_value(n);
    assert(text::is_digit(digits[0]));
    assert('0' <= places[places.len() - 1] && places[places.len() - 1] <= '9');
    assert(s[0] == digits[0]);
    assert(t.last() == places[places.len() - 1]);
    exact::lemma_nothing_to_trim(s);
    reveal_strlit("ms");
    reveal_strlit("s");
    reveal_strlit("m");
    if marked {
        assert(s.skip(s.len() - 1) =~= "s"@);
        assert(s.take(s.len() - 1) =~= t);
        if text::ends_with(s, "ms"@) {
            assert(s.skip(s.len() - 2)[0] == t.last());
        }
    } else {
        assert(s =~= t);
        exact::lemma_last_char(s, "ms"@);
        exact::lemma_last_char(s, "s"@);
        exact::lemma_last_char(s, "m"@);
    }
    lemma_with_places(n, places);
    lemma_decimal_near(m, places.len());
    lemma_pow2_pos(1074);
    let u = rounding::nearest(m * one, d);
    lemma_units_in_range(m, d, u, 1_000_000_000);
    let b = rounding::half_even(u * 1_000_000_000, one);
    exact::lemma_half_even_off(u * 1_000_000_000, one);
    lemma_within_one(m, d, 1_000_000_000, one, u, b, 1);
}

/// A unit that is none is refused, and named in small letters.
pub proof fn law_other_units_are_refused(n: nat, unit: Seq<char>)
    requires
        n <= pow2(53),
        unit.len() > 0,
        !text::is_white(unit[0]),
        !text::is_white(unit.last()),
        !size::is_number_char(unit[0]),
        forall|f: nat| !exact::is_unit(text::ascii_lower(unit), f),
    ensures
        size::size_from_text(text::decimal(n) + unit) == Err::<nat, size::SizeFault>(
            size::SizeFault::Unit { unit: text::ascii_lower(unit) },
        ),
{
    let t = text::decimal(n);
    let s = t + unit;
    let small = text::ascii_lower(unit);
    text::lemma_decimal_value(n);
    exact::lemma_digits_denote(n);
    assert(text::is_digit(t[0]));
    assert(s.first() == t[0] && s.last() == unit.last());
    exact::lemma_nothing_to_trim(s);
    exact::lemma_nothing_to_trim(unit);
    assert forall|i: int| 0 <= i < t.len() implies size::is_number_char(#[trigger] t[i]) by {
        assert(text::is_digit(t[i]));
    }
    lemma_number_chars(t, unit);
    assert(s.take(t.len() as int) =~= t);
    assert(s.skip(t.len() as int) =~= unit);
    assert(!exact::is_unit(small, 1) && !exact::is_unit(small, 1024) && !exact::is_unit(
        small,
        1024 * 1024,
    ) && !exact::is_unit(small, 1024 * 1024 * 1024) && !exact::is_unit(
        small,
        1024 * 1024 * 1024 * 1024,
    ));
    reveal_strlit("");
    reveal_strlit("b");
    reveal_strlit("k");
    reveal_strlit("kb");
    reveal_strlit("kib");
    reveal_strlit("m");
    reveal_strlit("mb");
    reveal_strlit("mib");
    reveal_strlit("g");
    reveal_strlit("gb");
    reveal_strlit("gib");
    reveal_strlit("t");
    reveal_strlit("tb");
    reveal_strlit("tib");
    assert("b"@ =~= seq!['b']);
    assert("k"@ =~= seq!['k'] && "kb"@ =~= seq!['k', 'b'] && "kib"@ =~= seq!['k', 'i', 'b']);
    assert("m"@ =~= seq!['m'] && "mb"@ =~= seq!['m', 'b'] && "mib"@ =~= seq!['m', 'i', 'b']);
    assert("g"@ =~= seq!['g'] && "gb"@ =~= seq!['g', 'b'] && "gib"@ =~= seq!['g', 'i', 'b']);
    assert("t"@ =~= seq!['t'] && "tb"@ =~= seq!['t', 'b'] && "tib"@ =~= seq!['t', 'i', 'b']);
    assert(small.len() == unit.len());
}

/// A size or a span of time below zero is refused; zero with a minus sign is zero.
pub proof fn law_negative_amounts_are_refused(n: nat)
    requires
        n <= pow2(53),
    ensures
        n > 0 ==> size::size_from_text(seq!['-'] + text::decimal(n)) == Err::<
            nat,
            size::SizeFault,
        >(size::SizeFault::Range),
        n > 0 ==> duration::duration_from_text(seq!['-'] + text::decimal(n)) == Err::<
            nat,
            duration::DurationFault,
        >(duration::DurationFault::Range),
        n == 0 ==> size::size_from_text(seq!['-'] + text::decimal(n)) == Ok::<
            nat,
            size::SizeFault,
        >(0),
{
    let digits = text::decimal(n);
    let s = seq!['-'] + digits;
    let one = number::units_in_one();
    text::lemma_decimal_value(n);
    assert(text::is_digit(digits[digits.len() - 1]));
    assert(s.last() == digits[digits.len() - 1]);
    exact::lemma_nothing_to_trim(s);
    assert(number::unsigned(s) =~= digits);
    exact::lemma_digits_denote(n);
    assert(number::unsigned(digits) == digits) by {
        assert(text::is_digit(digits[0]));
    }
    exact::lemma_digits_len(digits);
    assert(digits.take(digits.len() as int) =~= digits);
    assert(digits.skip(digits.len() as int) =~= Seq::<char>::empty());
    assert(digits + Seq::<char>::empty() =~= digits);
    assert(number::plain_number(digits) == Some((n, 0int)));
    exact::lemma_whole_is_exact(n);
    assert(number::ten(0) == 1);
    assert(n * 1 == n);
    assert(number::double_from_text(s) == Ok::<Double, NumberError>(
        Double::Finite { negative: true, units: n * one },
    ));
    lemma_pow2_pos(1074);
    assert(n > 0 ==> n * one > 0) by (nonlinear_arith)
        requires
            one > 0,
    ;
    assert forall|i: int| 0 <= i < s.len() implies size::is_number_char(#[trigger] s[i]) by {
        if i > 0 {
            assert(text::is_digit(digits[i - 1]));
        }
    }
    lemma_number_chars(s, Seq::empty());
    assert(s + Seq::<char>::empty() =~= s);
    assert(s.take(s.len() as int) =~= s);
    let rest = s.skip(s.len() as int);
    assert(rest =~= Seq::empty());
    assert(text::trim(rest) =~= Seq::empty());
    reveal_strlit("");
    assert(text::ascii_lower(text::trim(rest)) =~= ""@);
    reveal_strlit("ms");
    reveal_strlit("s");
    reveal_strlit("m");
    exact::lemma_last_char(s, "ms"@);
    exact::lemma_last_char(s, "s"@);
    exact::lemma_last_char(s, "m"@);
    if n == 0 {
        assert(n * one == 0) by (nonlinear_arith)
            requires
                n == 0,
        ;
        assert(0 * pow2(0) == 0);
        assert(rounding::half_up(0, one) == 0) by {
            lemma_fundamental_div_mod(0, one as int);
            lemma_basic_div(0, one as int);
            lemma_small_mod(0, one);
        }
    }
}

/// Nothing but white space is no size and no span of time.
pub proof fn law_blanks_are_refused(s: Seq<char>)
    requires
        is_blank(s),
    ensures
        size::size_from_text(s) == Err::<nat, size::SizeFault>(size::SizeFault::Empty),
        duration::duration_from_text(s) == Err::<nat, duration::DurationFault>(
            duration::DurationFault::Empty,
        ),
{
    exact::lemma_blank_around(s, Seq::empty(), Seq::empty());
    assert(s + Seq::<char>::empty() + Seq::<char>::empty() =~= s);
    assert(text::trim(Seq::empty()) =~= Seq::empty());
}

/// Sizes are shown in whole bytes below `2^20`, in tenths of `2^20` bytes below `2^30`, and in tenths
/// of `2^30` bytes from there on. The tenths shown are those nearest to the size.
pub proof fn law_sizes_are_shown_to_a_tenth(bytes: nat) -> (tenths: nat)
    requires
        bytes <= pow2(53),
    ensures
        bytes < 1024 * 1024 ==> size::bytes_text(bytes) == text::decimal(bytes) + seq!['B'],
        bytes >= 1024 * 1024 ==> ({
            let unit: nat = if bytes >= 1024 * 1024 * 1024 {
                1024 * 1024 * 1024
            } else {
                1024 * 1024
            };
            &&& 2 * apart(tenths * unit as int, 10 * bytes as int) <= unit
            &&& size::bytes_text(bytes) == text::decimal(tenths / 10) + seq!['.'] + text::decimal(
                tenths % 10,
            ) + (if bytes >= 1024 * 1024 * 1024 {
                seq!['G', 'i', 'B']
            } else {
                seq!['M', 'i', 'B']
            })
        }),
{
    reveal_strlit("B");
    reveal_strlit("GiB");
    reveal_strlit("MiB");
    reveal_strlit(".");
    assert("B"@ =~= seq!['B']);
    assert("GiB"@ =~= seq!['G', 'i', 'B']);
    assert("MiB"@ =~= seq!['M', 'i', 'B']);
    assert("."@ =~= seq!['.']);
    lemma2_to64();
    lemma2_to64_rest();
    let e = number::lemma_spacing_exists(bytes, 1, 0);
    rounding::lemma_nearest_at(bytes, 1, e);
    lemma_pow2_pos(e);
    assert(1 * pow2(e) == pow2(e));
    lemma_exact_when_small(bytes, e);
    if bytes >= 1024 * 1024 * 1024 {
        exact::lemma_half_even_off(10 * bytes, pow2(30));
        rounding::half_even(10 * bytes, pow2(30))
    } else {
        exact::lemma_half_even_off(10 * bytes, pow2(20));
        rounding::half_even(10 * bytes, pow2(20))
    }
}

/// Whole numbers up to `2^53` are kept by rounding to double precision.
proof fn lemma_exact_when_small(n: nat, e: nat)
    requires
        n <= pow2(53),
        rounding::is_spacing(n, 1, e),
    ensures
        rounding::half_even(n, 1 * pow2(e)) * pow2(e) == n,
{
    let step = pow2(e);
    lemma_pow2_pos(e);
    lemma_pow2_pos(52);
    lemma2_to64();
    lemma_pow2_unfold(53);
    assert(1 * step == step);
    if e == 0 {
        assert(step == 1);
        lemma_half_even_of_multiple(n, 1);
        assert(n * 1 == n);
    } else {
        lemma_pow2_adds(52, e);
        if e > 1 {
            lemma_pow2_strictly_increases(1, e);
            assert(pow2(52) * step > pow2(52) * 2) by (nonlinear_arith)
                requires
                    step > 2,
                    pow2(52) > 0,
            ;
        }
        assert(step == 2 && n == pow2(52) * 2);
        lemma_half_even_of_multiple(pow2(52), 2);
    }
}

proof fn lemma_half_even_of_multiple(m: nat, d: nat)
    requires
        d > 0,
    ensures
        rounding::half_even(m * d, d) == m,
{
    lemma_div_by_multiple(m as int, d as int);
    lemma_mod_multiples_basic(m as int, d as int);
}

/// A whole number, with a plus sign in front if there is to be one, and with a power of ten behind it
/// if there is to be one.
pub open spec fn written(n: nat, plus: bool, exponent: Option<(char, nat)>) -> Seq<char> {
    (if plus {
        seq!['+']
    } else {
        Seq::empty()
    }) + text::decimal(n) + (match exponent {
        Some((e, k)) => seq![e] + text::decimal(k),
        None => Seq::empty(),
    })
}

/// The number that is written so.
pub open spec fn meant(n: nat, exponent: Option<(char, nat)>) -> nat {
    match exponent {
        Some((_, k)) => n * number::ten(k),
        None => n,
    }
}

proof fn lemma_written(n: nat, plus: bool, exponent: Option<(char, nat)>)
    requires
        exponent matches Some((e, _)) ==> e == 'e' || e == 'E',
        meant(n, exponent) <= pow2(53),
    ensures
        number::double_from_text(written(n, plus, exponent)) == Ok::<Double, NumberError>(
            Double::Finite {
                negative: false,
                units: meant(n, exponent) * number::units_in_one(),
            },
        ),
        forall|i: int|
            0 <= i < written(n, plus, exponent).len() ==> size::is_number_char(
                #[trigger] written(n, plus, exponent)[i],
            ),
        written(n, plus, exponent).len() > 0,
{
    let s = written(n, plus, exponent);
    let digits = text::decimal(n);
    text::lemma_decimal_value(n);
    assert(text::is_digit(digits[0]));
    let rest = match exponent {
        Some((e, k)) => seq![e] + text::decimal(k),
        None => Seq::empty(),
    };
    let body = digits + rest;
    assert(number::unsigned(s) =~= body);
    assert(!number::negative(s));
    lemma_digits_before(digits, rest);
    let a = digits.len() as int;
    assert(body.skip(a) =~= rest);
    assert(body.take(a) =~= digits);
    assert(digits + Seq::<char>::empty() =~= digits);
    let m = meant(n, exponent);
    exact::lemma_whole_is_exact(m);
    match exponent {
        Some((_, k)) => {
            let power = text::decimal(k);
            text::lemma_decimal_value(k);
            assert(rest.drop_first() =~= power);
            assert(text::is_digit(power[0]));
            exact::lemma_digits_len(power);
            assert(number::unsigned(power) == power);
            assert(number::exponent_part(rest) == Some(k as int));
            assert(number::plain_number(body) == Some((n, k as int)));
        },
        None => {
            assert(number::plain_number(body) == Some((n, 0int)));
            assert(number::ten(0) == 1);
            assert(n * 1 == n);
        },
    }
    assert forall|i: int| 0 <= i < s.len() implies size::is_number_char(#[trigger] s[i]) by {
        let lead: int = if plus {
            1
        } else {
            0
        };
        if i >= lead && i < lead + digits.len() {
            assert(s[i] == digits[i - lead]);
            assert(text::is_digit(digits[i - lead]));
        } else if i > lead + digits.len() {
            let power = text::decimal((exponent->0).1);
            text::lemma_decimal_value((exponent->0).1);
            let j = i - lead - digits.len() - 1;
            assert(s[i] == power[j]);
            assert(text::is_digit(power[j]));
        }
    }
}

/// A plus sign makes no difference, and `e` or `E` with a number behind it stands for that power of
/// ten: in sizes as in spans of time, as long as the number is `2^53` at most.
pub proof fn law_signs_and_powers_of_ten(
    n: nat,
    plus: bool,
    exponent: Option<(char, nat)>,
    space: Seq<char>,
    unit: Seq<char>,
    small: Seq<char>,
    factor: nat,
)
    requires
        exponent matches Some((e, _)) ==> e == 'e' || e == 'E',
        meant(n, exponent) <= pow2(53),
        is_blank(space),
        in_either_case(unit, small),
        exact::is_unit(small, factor),
    ensures
        size::size_from_text(written(n, plus, exponent) + space + unit) == Ok::<
            nat,
            size::SizeFault,
        >(
            if meant(n, exponent) * factor > u64::MAX {
                u64::MAX as nat
            } else {
                meant(n, exponent) * factor
            },
        ),
        duration::duration_from_text(written(n, plus, exponent)) == Ok::<
            nat,
            duration::DurationFault,
        >(meant(n, exponent) * 1_000_000_000),
{
    let t = written(n, plus, exponent);
    let m = meant(n, exponent);
    let one = number::units_in_one();
    lemma_written(n, plus, exponent);
    let k = lemma_number_and_unit(t, space, unit, small, factor);
    lemma_pow2_pos(1074);
    let bytes = m * factor;
    assert((m * one) * factor == bytes * one) by (nonlinear_arith)
        requires
            bytes == m * factor,
    ;
    lemma_div_by_multiple(bytes as int, one as int);
    lemma_mod_multiples_basic(bytes as int, one as int);
    assert(rounding::half_up((m * one) * pow2(k), one) == bytes);
    exact::lemma_whole_seconds(m);
    assert(size::is_number_char(t[0]));
    assert(size::is_number_char(t[t.len() - 1]));
    exact::lemma_nothing_to_trim(t);
    reveal_strlit("ms");
    reveal_strlit("s");
    reveal_strlit("m");
    exact::lemma_last_char(t, "ms"@);
    exact::lemma_last_char(t, "s"@);
    exact::lemma_last_char(t, "m"@);
}

/// A number of double precision that is near to something is at least half of it.
proof fn lemma_at_least_half(m: nat, k: nat, u: nat)
    requires
        m > 0,
        k <= 250,
        u == rounding::nearest(m * number::units_in_one(), number::ten(k)),
    ensures
        u >= pow2(73),
        2 * (u * number::ten(k)) >= m * number::units_in_one(),
        u * number::ten(k) <= 2 * (m * number::units_in_one()),
{
    let one = number::units_in_one();
    let d = number::ten(k);
    lemma_decimal_near(m, k);
    lemma_ten(k);
    lemma_pow2_unfold(53);
    lemma_pow2_pos(52);
    let off = apart(u * d as int, m * one as int);
    let x = m * one;
    assert(2 * off <= x) by (nonlinear_arith)
        requires
            2 * pow2(52) * off <= x,
            pow2(52) >= 1,
            off >= 0,
    ;
    if 4 * k < 1000 {
        lemma_pow2_strictly_increases(4 * k, 1000);
    }
    lemma_pow2_adds(74, 1000);
    lemma_pow2_unfold(74);
    lemma_pow2_pos(1000);
    lemma_pow2_pos(73);
    assert(x >= one) by (nonlinear_arith)
        requires
            x == m * one,
            m >= 1,
    ;
    assert(u >= pow2(73)) by (nonlinear_arith)
        requires
            2 * (u * d) >= one,
            one == 2 * pow2(73) * pow2(1000),
            d <= pow2(1000),
            d > 0,
            pow2(73) > 0,
            pow2(1000) > 0,
    {
        if u < pow2(73) {
            assert(u * d <= u * pow2(1000));
            assert((u + 1) * pow2(1000) <= pow2(73) * pow2(1000));
        }
    }
}

/// Two roundings in a row are off by a little more than one.
proof fn lemma_twice_rounded(p: int, u: int, v: int, d: int, x: int)
    requires
        p > 0,
        d > 0,
        p * apart(u * d, x) <= x,
        p * apart(v, 60 * u) <= 60 * u,
        u * d <= 2 * x,
    ensures
        p * apart(v * d, 60 * x) <= 3 * (60 * x),
{
    let near = apart(u * d, x);
    let far = apart(v, 60 * u);
    assert(apart(v * d, (60 * u) * d) == far * d) by (nonlinear_arith)
        requires
            far == apart(v, 60 * u),
            d > 0,
    {
        if v >= 60 * u {
            assert((v - 60 * u) * d == v * d - (60 * u) * d);
        } else {
            assert((60 * u - v) * d == (60 * u) * d - v * d);
        }
    }
    assert((60 * u) * d == 60 * (u * d)) by (nonlinear_arith);
    let total = far * d + near * 60;
    let gap = apart(v * d, 60 * x);
    assert(gap <= total);
    assert(p * gap <= p * total) by (nonlinear_arith)
        requires
            gap <= total,
            p > 0,
    ;
    assert(p * total == (p * far) * d + (p * near) * 60) by (nonlinear_arith)
        requires
            total == far * d + near * 60,
    ;
    assert((p * far) * d <= (60 * u) * d) by (nonlinear_arith)
        requires
            p * far <= 60 * u,
            d > 0,
    ;
}

/// A number of minutes with decimal places is the number of nanoseconds that it says, rounded to
/// the nearest one but for three parts in `2^52`. The span has to be below a third of `2^52`
/// nanoseconds, some seventeen days.
pub proof fn law_decimal_minutes_are_near(n: nat, places: Seq<char>)
    requires
        is_row(places),
        places.len() <= 250,
        n * number::ten(places.len()) + text::decimal_value(places) > 0,
        3 * ((n * number::ten(places.len()) + text::decimal_value(places)) * 60_000_000_000)
            <= pow2(52) * number::ten(places.len()),
    ensures
        duration::duration_from_text(with_places(n, places) + seq!['m']) matches Ok(b) && apart(
            b * number::ten(places.len()) as int,
            (n * number::ten(places.len()) + text::decimal_value(places)) * 60_000_000_000int,
        ) <= number::ten(places.len()) && 2 * pow2(52) * apart(
            b * number::ten(places.len()) as int,
            (n * number::ten(places.len()) + text::decimal_value(places)) * 60_000_000_000int,
        ) <= pow2(52) * number::ten(places.len()) + 3 * ((n * number::ten(places.len())
            + text::decimal_value(places)) * 60_000_000_000),
{
    let t = with_places(n, places);
    let s = t + seq!['m'];
    let d = number::ten(places.len());
    let m = n * d + text::decimal_value(places);
    let one = number::units_in_one();
    let digits = text::decimal(n);
    text::lemma_decimal_value(n);
    assert(text::is_digit(digits[0]));
    assert(s[0] == digits[0]);
    exact::lemma_nothing_to_trim(s);
    reveal_strlit("ms");
    reveal_strlit("s");
    reveal_strlit("m");
    exact::lemma_last_char(s, "ms"@);
    exact::lemma_last_char(s, "s"@);
    assert(s.skip(s.len() - 1) =~= "m"@);
    assert(s.take(s.len() - 1) =~= t);
    lemma_with_places(n, places);
    lemma_decimal_near(m, places.len());
    lemma_pow2_pos(1074);
    let u = rounding::nearest(m * one, d);
    lemma_at_least_half(m, places.len(), u);
    lemma_units_in_range(m, d, u, 1);
    lemma_pow2_strictly_increases(52, 73);
    law_double_precision_is_near(u * 60, 1);
    let v = rounding::nearest(u * 60, 1);
    let p = pow2(53);
    lemma_pow2_pos(53);
    let mm = m * 60;
    assert(v * 1 == v);
    lemma_twice_rounded(p as int, u as int, v as int, d as int, (m * one) as int);
    assert(mm * one == 60 * (m * one)) by (nonlinear_arith)
        requires
            mm == m * 60,
    ;
    lemma_units_in_range_after(mm, d, v);
    let b = rounding::half_even(v * 1_000_000_000, one);
    exact::lemma_half_even_off(v * 1_000_000_000, one);
    lemma_within_one(mm, d, 1_000_000_000, one, v, b, 3);
}

proof fn lemma_units_in_range_after(m: nat, d: nat, u: nat)
    requires
        d > 0,
        m <= pow2(52) * d,
        pow2(53) * apart(u * d as int, m * number::units_in_one() as int) <= 3 * (m
            * number::units_in_one()),
    ensures
        u < number::units_limit(),
        u < pow2(64) * number::units_in_one(),
{
    let one = number::units_in_one();
    let p = pow2(52);
    lemma_pow2_pos(1074);
    lemma_pow2_pos(53);
    lemma_pow2_adds(54, 1074);
    lemma_pow2_unfold(53);
    lemma_pow2_unfold(54);
    lemma_pow2_strictly_increases(1128, 2098);
    lemma_pow2_strictly_increases(54, 64);
    lemma2_to64_rest();
    let off = apart(u * d as int, m * one as int);
    assert(off <= m * one) by (nonlinear_arith)
        requires
            pow2(53) * off <= 3 * (m * one),
            pow2(53) >= 3,
            off >= 0,
            m * one >= 0,
    ;
    assert(m * one <= (p * d) * one) by (nonlinear_arith)
        requires
            m <= p * d,
            one > 0,
    ;
    assert(u <= 2 * p * one) by (nonlinear_arith)
        requires
            u * d <= 2 * (m * one),
            m * one <= (p * d) * one,
            d > 0,
            one > 0,
    {
        assert((p * d) * one == (p * one) * d);
        assert(u * d <= (2 * p * one) * d);
    }
    assert(2 * p * one < pow2(54) * one) by (nonlinear_arith)
        requires
            2 * p < pow2(54),
            one > 0,
    ;
    assert(pow2(54) * one < pow2(64) * one) by (nonlinear_arith)
        requires
            pow2(54) < pow2(64),
            one > 0,
    ;
}

/// Rounding, and then dividing by a thousand and rounding again, is off by a little more than one
/// rounding.
proof fn lemma_divided_and_rounded(p: int, u: int, v: int, d: int, x: int)
    requires
        p > 0,
        d > 0,
        p * apart(u * d, x) <= x,
        p * apart(v * 1000, u) <= u,
        u * d <= 2 * x,
    ensures
        p * apart(v * (1000 * d), x) <= 3 * x,
{
    let near = apart(u * d, x);
    let far = apart(v * 1000, u);
    assert(apart((v * 1000) * d, u * d) == far * d) by (nonlinear_arith)
        requires
            far == apart(v * 1000, u),
            d > 0,
    {
        if v * 1000 >= u {
            assert((v * 1000 - u) * d == (v * 1000) * d - u * d);
        } else {
            assert((u - v * 1000) * d == u * d - (v * 1000) * d);
        }
    }
    assert((v * 1000) * d == v * (1000 * d)) by (nonlinear_arith);
    let total = far * d + near;
    let gap = apart(v * (1000 * d), x);
    assert(gap <= total);
    assert(p * gap <= p * total) by (nonlinear_arith)
        requires
            gap <= total,
            p > 0,
    ;
    assert(p * total == (p * far) * d + p * near) by (nonlinear_arith)
        requires
            total == far * d + near,
    ;
    assert((p * far) * d <= u * d) by (nonlinear_arith)
        requires
            p * far <= u,
            d > 0,
    ;
}

/// A number of milliseconds with decimal places is the number of nanoseconds that it says, rounded
/// to the nearest one but for three parts in `2^52`. The span has to be below a third of `2^52`
/// nanoseconds, some seventeen days.
pub proof fn law_decimal_milliseconds_are_near(n: nat, places: Seq<char>)
    requires
        is_row(places),
        places.len() <= 250,
        n * number::ten(places.len()) + text::decimal_value(places) > 0,
        3 * ((n * number::ten(places.len()) + text::decimal_value(places)) * 1_000_000) <= pow2(52)
            * number::ten(places.len()),
    ensures
        duration::duration_from_text(with_places(n, places) + seq!['m', 's']) matches Ok(b)
            && apart(
            b * number::ten(places.len()) as int,
            (n * number::ten(places.len()) + text::decimal_value(places)) * 1_000_000int,
        ) <= number::ten(places.len()) && 2 * pow2(52) * apart(
            b * number::ten(places.len()) as int,
            (n * number::ten(places.len()) + text::decimal_value(places)) * 1_000_000int,
        ) <= pow2(52) * number::ten(places.len()) + 3 * ((n * number::ten(places.len())
            + text::decimal_value(places)) * 1_000_000),
{
    let t = with_places(n, places);
    let s = t + seq!['m', 's'];
    let d = number::ten(places.len());
    let m = n * d + text::decimal_value(places);
    let one = number::units_in_one();
    let digits = text::decimal(n);
    text::lemma_decimal_value(n);
    assert(text::is_digit(digits[0]));
    assert(s[0] == digits[0]);
    assert(s.last() == 's');
    exact::lemma_nothing_to_trim(s);
    reveal_strlit("ms");
    assert(s.skip(s.len() - 2) =~= "ms"@);
    assert(s.take(s.len() - 2) =~= t);
    lemma_with_places(n, places);
    lemma_decimal_near(m, places.len());
    lemma_pow2_pos(1074);
    lemma_pow2_pos(52);
    lemma_pow2_pos(53);
    let u = rounding::nearest(m * one, d);
    lemma_at_least_half(m, places.len(), u);
    assert(m <= 1_000_000 * m);
    lemma_units_in_range(m, d, u, 1);
    lemma2_to64();
    lemma_pow2_adds(52, 10);
    lemma_pow2_strictly_increases(62, 73);
    law_double_precision_is_near(u, 1000);
    let v = rounding::nearest(u, 1000);
    lemma_divided_and_rounded(pow2(53) as int, u as int, v as int, d as int, (m * one) as int);
    let dd: nat = 1000 * d;
    assert(pow2(52) * d <= pow2(52) * dd) by (nonlinear_arith)
        requires
            dd == 1000 * d,
            pow2(52) > 0,
    ;
    lemma_units_in_range_after(m, dd, v);
    let b = rounding::half_even(v * 1_000_000_000, one);
    exact::lemma_half_even_off(v * 1_000_000_000, one);
    assert(3 * (m * 1_000_000_000) <= pow2(52) * dd) by (nonlinear_arith)
        requires
            3 * (m * 1_000_000) <= pow2(52) * d,
            dd == 1000 * d,
    ;
    lemma_within_one(m, dd, 1_000_000_000, one, v, b, 3);
    assert(b * dd == 1000 * (b * d)) by (nonlinear_arith)
        requires
            dd == 1000 * d,
    ;
    let p = pow2(52);
    let w = apart(b * d as int, m * 1_000_000int);
    let wide = apart(b * dd as int, m * 1_000_000_000int);
    assert(wide == 1000 * w);
    assert(2 * p * w <= p * d + 3 * (m * 1_000_000)) by (nonlinear_arith)
        requires
            2 * p * wide <= p * dd + 3 * (m * 1_000_000_000),
            wide == 1000 * w,
            dd == 1000 * d,
    {
        assert(2 * p * wide == 1000 * (2 * p * w));
        assert(p * dd == 1000 * (p * d));
    }
}

/// How the digits of a whole number are read, however large it is.
proof fn lemma_whole(n: nat)
    ensures
        number::double_from_text(text::decimal(n)) == Ok::<Double, NumberError>(
            number::double_near(false, n * number::units_in_one(), 1),
        ),
        forall|i: int|
            0 <= i < text::decimal(n).len() ==> size::is_number_char(
                #[trigger] text::decimal(n)[i],
            ),
        text::decimal(n).len() > 0,
{
    let s = text::decimal(n);
    text::lemma_decimal_value(n);
    assert(text::is_digit(s[0]));
    assert(number::unsigned(s) == s);
    exact::lemma_digits_len(s);
    assert(s.take(s.len() as int) =~= s);
    assert(s.skip(s.len() as int) =~= Seq::<char>::empty());
    assert(s + Seq::<char>::empty() =~= s);
    assert(number::plain_number(s) == Some((n, 0int)));
    assert(number::ten(0) == 1);
    assert(n * 1 == n);
    assert forall|i: int| 0 <= i < s.len() implies size::is_number_char(#[trigger] s[i]) by {
        assert(text::is_digit(s[i]));
    }
}

proof fn lemma_whole_near(n: nat, u: nat)
    requires
        n > 0,
        u == rounding::nearest(n * number::units_in_one(), 1),
    ensures
        pow2(53) * apart(u as int, n * number::units_in_one() as int) <= n
            * number::units_in_one(),
{
    let one = number::units_in_one();
    lemma_pow2_pos(1074);
    lemma_pow2_strictly_increases(52, 1074);
    assert(n * one >= one) by (nonlinear_arith)
        requires
            n >= 1,
            one > 0,
    ;
    law_double_precision_is_near(n * one, 1);
    assert(u * 1 == u);
}

/// A whole size up to `2^63` bytes is the number of bytes that it says, rounded to the nearest one but
/// for one part in `2^53`.
pub proof fn law_large_sizes_are_near(
    n: nat,
    space: Seq<char>,
    unit: Seq<char>,
    small: Seq<char>,
    factor: nat,
)
    requires
        n > 0,
        n * factor <= pow2(63),
        is_blank(space),
        in_either_case(unit, small),
        exact::is_unit(small, factor),
    ensures
        size::size_from_text(text::decimal(n) + space + unit) matches Ok(b) && 2 * pow2(52)
            * apart(b as int, n * factor as int) <= n * factor + pow2(52),
{
    let t = text::decimal(n);
    let one = number::units_in_one();
    lemma_whole(n);
    let k = lemma_number_and_unit(t, space, unit, small, factor);
    let u = rounding::nearest(n * one, 1);
    lemma_whole_near(n, u);
    lemma_pow2_pos(1074);
    lemma_pow2_pos(52);
    lemma_pow2_pos(53);
    lemma_pow2_unfold(53);
    lemma2_to64();
    lemma2_to64_rest();
    let x = n * one;
    let off = apart(u as int, x as int);
    assert(off <= x) by (nonlinear_arith)
        requires
            pow2(53) * off <= x,
            pow2(53) > 0,
            off >= 0,
    ;
    assert(n <= pow2(63)) by (nonlinear_arith)
        requires
            n * factor <= pow2(63),
            factor >= 1,
    ;
    assert(x <= pow2(63) * one) by (nonlinear_arith)
        requires
            x == n * one,
            n <= pow2(63),
    ;
    lemma_pow2_adds(64, 1074);
    lemma_pow2_strictly_increases(1138, 2098);
    assert(u <= 2 * (pow2(63) * one));
    assert(2 * (pow2(63) * one) == pow2(64) * one) by (nonlinear_arith)
        requires
            pow2(64) == 2 * pow2(63),
    ;
    let b = rounding::half_up(u * factor, one);
    lemma_half_up_off(u * factor, one);
    let p = pow2(52);
    let w = apart(b as int, n * factor as int);
    lemma_scaled_near(p as int, u as int, b as int, factor as int, one as int, n as int);
    assert(b <= u64::MAX) by (nonlinear_arith)
        requires
            p * w <= n * factor + p,
            w >= b - n * factor,
            n * factor <= pow2(63),
            pow2(63) == 0x8000_0000_0000_0000,
            p >= 4,
            b >= 0,
    {
        assert(p * w <= pow2(63) + p);
        if b > 0xffff_ffff_ffff_ffff {
            assert(w >= pow2(63));
            assert(p * w >= 4 * w);
            assert(p * w >= p * pow2(63));
            assert(p * pow2(63) >= 3 * pow2(63) + p);
        }
    }
}

proof fn lemma_scaled_near(p: int, u: int, b: int, f: int, one: int, n: int)
    requires
        p > 0,
        f > 0,
        one > 0,
        n >= 0,
        2 * p * apart(u, n * one) <= n * one,
        2 * apart(b * one, u * f) <= one,
    ensures
        2 * p * apart(b, n * f) <= n * f + p,
{
    let off = apart(u, n * one);
    let gap = apart(b * one, u * f);
    let w = apart(b, n * f);
    assert(apart(u * f, (n * one) * f) == off * f) by (nonlinear_arith)
        requires
            off == apart(u, n * one),
            f > 0,
    {
        if u >= n * one {
            assert((u - n * one) * f == u * f - (n * one) * f);
        } else {
            assert((n * one - u) * f == (n * one) * f - u * f);
        }
    }
    assert((n * one) * f == (n * f) * one) by (nonlinear_arith);
    assert(apart(b * one, (n * f) * one) == w * one) by (nonlinear_arith)
        requires
            w == apart(b, n * f),
            one > 0,
    {
        if b >= n * f {
            assert((b - n * f) * one == b * one - (n * f) * one);
        } else {
            assert((n * f - b) * one == (n * f) * one - b * one);
        }
    }
    let total = gap + off * f;
    assert(w * one <= total);
    assert(2 * p * (off * f) <= (n * f) * one) by (nonlinear_arith)
        requires
            2 * p * off <= n * one,
            f > 0,
            (n * one) * f == (n * f) * one,
    {
        assert((2 * p * off) * f <= (n * one) * f);
        assert((2 * p * off) * f == 2 * p * (off * f));
    }
    assert(2 * p * gap <= p * one) by (nonlinear_arith)
        requires
            2 * gap <= one,
            p > 0,
    ;
    assert(2 * p * (w * one) <= 2 * p * total) by (nonlinear_arith)
        requires
            w * one <= total,
            p > 0,
    ;
    assert(2 * p * total == 2 * p * gap + 2 * p * (off * f)) by (nonlinear_arith)
        requires
            total == gap + off * f,
    ;
    assert(2 * p * w <= n * f + p) by (nonlinear_arith)
        requires
            2 * p * (w * one) <= p * one + (n * f) * one,
            one > 0,
            p > 0,
            n * f >= 0,
            w >= 0,
    {
        assert(2 * p * (w * one) == (2 * p * w) * one);
        assert(p * one + (n * f) * one == (p + n * f) * one);
        assert(2 * p * w <= p + n * f);
        assert(p * w >= 0);
    }
}

/// A whole number of seconds up to `2^63` is the number of nanoseconds that it says, rounded to the
/// nearest one but for one part in `2^53`; from `2^64` seconds on there is no such span of time.
pub proof fn law_long_spans_are_near(n: nat)
    requires
        n > 0,
    ensures
        n <= pow2(63) ==> (duration::duration_from_text(text::decimal(n)) matches Ok(b) && 2
            * pow2(52) * apart(b as int, n * 1_000_000_000int) <= n * 1_000_000_000 + pow2(52)),
        n >= pow2(64) ==> duration::duration_from_text(text::decimal(n)) == Err::<
            nat,
            duration::DurationFault,
        >(duration::DurationFault::Range),
{
    let t = text::decimal(n);
    let one = number::units_in_one();
    let x = n * one;
    let u = rounding::nearest(x, 1);
    lemma_whole(n);
    lemma_whole_near(n, u);
    assert(size::is_number_char(t[0]));
    assert(size::is_number_char(t[t.len() - 1]));
    exact::lemma_nothing_to_trim(t);
    reveal_strlit("ms");
    reveal_strlit("s");
    reveal_strlit("m");
    exact::lemma_last_char(t, "ms"@);
    exact::lemma_last_char(t, "s"@);
    exact::lemma_last_char(t, "m"@);
    lemma_pow2_pos(1074);
    lemma_pow2_pos(52);
    lemma_pow2_unfold(53);
    lemma2_to64();
    lemma2_to64_rest();
    lemma_pow2_adds(64, 1074);
    lemma_pow2_strictly_increases(1138, 2098);
    if n <= pow2(63) {
        let off = apart(u as int, x as int);
        assert(4 * off <= x) by (nonlinear_arith)
            requires
                2 * pow2(52) * off <= x,
                pow2(52) >= 2,
                off >= 0,
        ;
        assert(x <= pow2(63) * one) by (nonlinear_arith)
            requires
                x == n * one,
                n <= pow2(63),
        ;
        assert(2 * (pow2(63) * one) == pow2(64) * one) by (nonlinear_arith)
            requires
                pow2(64) == 2 * pow2(63),
        ;
        assert(pow2(64) * one > 0) by (nonlinear_arith)
            requires
                pow2(64) > 0,
                one > 0,
        ;
        assert(u < pow2(64) * one);
        let b = rounding::half_even(u * 1_000_000_000, one);
        exact::lemma_half_even_off(u * 1_000_000_000, one);
        lemma_scaled_near(
            pow2(52) as int,
            u as int,
            b as int,
            1_000_000_000,
            one as int,
            n as int,
        );
    }
    if n >= pow2(64) {
        assert(x >= pow2(64) * one) by (nonlinear_arith)
            requires
                x == n * one,
                n >= pow2(64),
        ;
        assert(1 * pow2(1138) == pow2(1138));
        number::lemma_nearest_reaches(x, 1, 1138);
    }
}

/// However large a size is, it is shown to within a tenth of its unit.
pub proof fn law_large_sizes_are_shown_to_a_tenth(bytes: nat) -> (tenths: nat)
    requires
        1024 * 1024 * 1024 <= bytes <= u64::MAX,
    ensures
        apart(tenths * (1024 * 1024 * 1024) as int, 10 * bytes as int) <= 1024 * 1024 * 1024,
        size::bytes_text(bytes) == text::decimal(tenths / 10) + seq!['.'] + text::decimal(
            tenths % 10,
        ) + seq!['G', 'i', 'B'],
{
    reveal_strlit("GiB");
    reveal_strlit(".");
    assert("GiB"@ =~= seq!['G', 'i', 'B']);
    assert("."@ =~= seq!['.']);
    lemma2_to64();
    lemma2_to64_rest();
    lemma_pow2_pos(52);
    let v = rounding::nearest(bytes, 1);
    let tenths = rounding::half_even(10 * v, pow2(30));
    exact::lemma_half_even_off(10 * v, pow2(30));
    if bytes <= pow2(53) {
        let e = number::lemma_spacing_exists(bytes, 1, 0);
        rounding::lemma_nearest_at(bytes, 1, e);
        lemma_exact_when_small(bytes, e);
    } else {
        law_double_precision_is_near(bytes, 1);
        assert(v * 1 == v);
        let off = apart(v as int, bytes as int);
        assert(off <= 2048) by (nonlinear_arith)
            requires
                0x20_0000_0000_0000 * off <= bytes,
                bytes <= 0xffff_ffff_ffff_ffff,
                off >= 0,
        ;
    }
    tenths
}

/// A whole number of halves is a double-precision number, as long as it is not too large.
proof fn lemma_halves_are_exact(n: nat)
    requires
        2 * n + 1 < pow2(53),
    ensures
        rounding::nearest((n * 10 + 5) * number::units_in_one(), 10) == (2 * n + 1) * pow2(1073),
{
    let one = number::units_in_one();
    let half = pow2(1073);
    let y = (2 * n + 1) * half;
    let x = (n * 10 + 5) * one;
    lemma_pow2_unfold(1074);
    lemma_pow2_pos(1073);
    assert(x == 10 * y) by (nonlinear_arith)
        requires
            x == (n * 10 + 5) * one,
            y == (2 * n + 1) * half,
            one == 2 * half,
    ;
    let e = number::lemma_spacing_exists(x, 10, 0);
    let step = pow2(e);
    let ds: nat = 10 * step;
    rounding::lemma_nearest_at(x, 10, e);
    lemma_pow2_pos(e);
    lemma_pow2_pos(52);
    if e > 1073 {
        assert(pow2(52) * ds <= x);
        lemma_pow2_unfold(53);
        lemma_pow2_strictly_increases(1073, e);
        if e > 1074 {
            lemma_pow2_strictly_increases(1074, e);
        }
        assert(step >= 2 * half);
        assert(pow2(52) * ds >= 10 * (pow2(53) * half)) by (nonlinear_arith)
            requires
                ds == 10 * step,
                step >= 2 * half,
                pow2(53) == 2 * pow2(52),
                pow2(52) > 0,
        ;
        assert(y < pow2(53) * half) by (nonlinear_arith)
            requires
                y == (2 * n + 1) * half,
                2 * n + 1 < pow2(53),
                half > 0,
        ;
    }
    let b = pow2((1073 - e) as nat);
    lemma_pow2_adds(e, (1073 - e) as nat);
    let q: nat = (2 * n + 1) * b;
    assert(y == q * step) by (nonlinear_arith)
        requires
            y == (2 * n + 1) * half,
            half == step * b,
            q == (2 * n + 1) * b,
    ;
    assert(x == q * ds) by (nonlinear_arith)
        requires
            x == 10 * y,
            y == q * step,
            ds == 10 * step,
    ;
    lemma_half_even_of_multiple(q, ds);
}

/// Half a byte counts as a whole one.
pub proof fn law_half_a_byte_counts(n: nat)
    requires
        2 * n + 1 < pow2(53),
    ensures
        size::size_from_text(text::decimal(n) + seq!['.', '5']) == Ok::<nat, size::SizeFault>(
            n + 1,
        ),
{
    let places = seq!['5'];
    let t = with_places(n, places);
    let one = number::units_in_one();
    let digits = text::decimal(n);
    assert(t =~= digits + seq!['.', '5']);
    text::lemma_decimal_value(n);
    assert(places.drop_last() =~= Seq::<char>::empty());
    assert(text::decimal_value(places.drop_last()) == 0);
    assert(text::decimal_value(places) == 5);
    assert(number::ten(0) == 1);
    assert(number::ten(1) == 10);
    lemma_with_places(n, places);
    lemma_halves_are_exact(n);
    let u = (2 * n + 1) * pow2(1073);
    assert forall|i: int| 0 <= i < t.len() implies size::is_number_char(#[trigger] t[i]) by {
        if i < digits.len() {
            assert(text::is_digit(digits[i]));
        } else if i > digits.len() {
            assert(t[i] == places[i - digits.len() - 1]);
        }
    }
    let none = Seq::<char>::empty();
    let k = lemma_number_and_unit(t, none, none, none, 1);
    assert(t + none + none =~= t);
    lemma_pow2_unfold(1074);
    lemma_pow2_pos(1073);
    lemma_pow2_adds(53, 1073);
    lemma_pow2_strictly_increases(1126, 2098);
    assert(u < pow2(53) * pow2(1073)) by (nonlinear_arith)
        requires
            u == (2 * n + 1) * pow2(1073),
            2 * n + 1 < pow2(53),
            pow2(1073) > 0,
    ;
    assert(u * 1 == u);
    let half = pow2(1073);
    assert(u == n * one + half) by (nonlinear_arith)
        requires
            u == (2 * n + 1) * half,
            one == 2 * half,
    ;
    lemma_fundamental_div_mod_converse(u as int, one as int, n as int, half as int);
    lemma2_to64_rest();
}

} // verus!
