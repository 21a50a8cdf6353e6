//! Numbers written in decimal: double-precision literals and whole numbers.
use crate::bignat::BigNat;
use crate::rounding::{self, RATIO_BITS};
use crate::text;
use vstd::arithmetic::div_mod::*;
use vstd::arithmetic::mul::*;
use vstd::arithmetic::power2::*;
use vstd::prelude::*;
use vstd::slice::slice_subrange;

verus! {

/// Why a text is no number.
#[derive(Clone, Copy, Debug, PartialEq, Eq, Structural)]
pub enum NumberError {
    Empty,
    Invalid,
}

/// A double-precision literal, before rounding.
pub enum Literal {
    NotANumber,
    Infinite { negative: bool },
    /// `mantissa * 10^exponent`, behind a sign.
    Finite { negative: bool, mantissa: nat, exponent: int },
}

/// A double-precision number. The size of a finite one is counted in units of `2^-1074`.
pub enum Double {
    NotANumber,
    Infinite { negative: bool },
    Finite { negative: bool, units: nat },
}

/// A text without the sign that it may start with.
pub open spec fn unsigned(s: Seq<char>) -> Seq<char> {
    if s.len() > 0 && (s[0] == '+' || s[0] == '-') {
        s.drop_first()
    } else {
        s
    }
}

/// Whether a text starts with a minus sign.
pub open spec fn negative(s: Seq<char>) -> bool {
    s.len() > 0 && s[0] == '-'
}

/// A text made of digits, at least one.
pub open spec fn all_digits(s: Seq<char>) -> bool {
    s.len() > 0 && text::digits_len(s) == s.len()
}

/// The exponent that a text denotes: none written, or `e`, a sign if any, and digits.
pub open spec fn exponent_part(s: Seq<char>) -> Option<int> {
    if s.len() == 0 {
        Some(0)
    } else if s[0] == 'e' || s[0] == 'E' {
        let t = s.drop_first();
        if all_digits(unsigned(t)) {
            let x = text::decimal_value(unsigned(t)) as int;
            Some(
                if negative(t) {
                    -x
                } else {
                    x
                },
            )
        } else {
            None
        }
    } else {
        None
    }
}

/// The digits behind a decimal point, and what follows them.
pub open spec fn fraction_part(s: Seq<char>) -> (Seq<char>, Seq<char>) {
    if s.len() > 0 && s[0] == '.' {
        let t = s.drop_first();
        let b = text::digits_len(t) as int;
        (t.take(b), t.skip(b))
    } else {
        (Seq::empty(), s)
    }
}

/// Mantissa and exponent of an unsigned decimal number: digits with a decimal point before,
/// between or behind them if any, then an exponent if any.
pub open spec fn plain_number(s: Seq<char>) -> Option<(nat, int)> {
    let a = text::digits_len(s) as int;
    let (fraction, rest) = fraction_part(s.skip(a));
    let digits = s.take(a) + fraction;
    match exponent_part(rest) {
        Some(x) => if digits.len() > 0 {
            Some((text::decimal_value(digits), x - fraction.len()))
        } else {
            None
        },
        None => None,
    }
}

/// The literal that a text spells.
pub open spec fn literal(s: Seq<char>) -> Result<Literal, NumberError> {
    let name = text::ascii_lower(unsigned(s));
    if s.len() == 0 {
        Err(NumberError::Empty)
    } else {
        match plain_number(unsigned(s)) {
            Some((mantissa, exponent)) => Ok(
                Literal::Finite { negative: negative(s), mantissa, exponent },
            ),
            None => if name == "nan"@ {
                Ok(Literal::NotANumber)
            } else if name == "inf"@ || name == "infinity"@ {
                Ok(Literal::Infinite { negative: negative(s) })
            } else {
                Err(NumberError::Invalid)
            },
        }
    }
}

/// `10^k`.
pub open spec fn ten(k: nat) -> nat
    decreases k,
{
    if k == 0 {
        1
    } else {
        10 * ten((k - 1) as nat)
    }
}

/// The units in one.
pub open spec fn units_in_one() -> nat {
    pow2(1074)
}

/// The least number of units that is too large for double precision.
pub open spec fn units_limit() -> nat {
    pow2(2098)
}

/// The double-precision number nearest to `n / d` units.
pub open spec fn double_near(negative: bool, n: nat, d: nat) -> Double {
    let units = rounding::nearest(n, d);
    if units >= units_limit() {
        Double::Infinite { negative }
    } else {
        Double::Finite { negative, units }
    }
}

/// Numerator and denominator of `mantissa * 10^exponent`, in units.
pub open spec fn decimal_ratio(mantissa: nat, exponent: int) -> (nat, nat) {
    if exponent >= 0 {
        (mantissa * ten(exponent as nat) * units_in_one(), 1)
    } else {
        (mantissa * units_in_one(), ten((-exponent) as nat))
    }
}

/// The double-precision number nearest to a literal.
pub open spec fn double_of(l: Literal) -> Double {
    match l {
        Literal::NotANumber => Double::NotANumber,
        Literal::Infinite { negative } => Double::Infinite { negative },
        Literal::Finite { negative, mantissa, exponent } => {
            let (n, d) = decimal_ratio(mantissa, exponent);
            double_near(negative, n, d)
        },
    }
}

/// The double-precision number that a text denotes.
pub open spec fn double_from_text(s: Seq<char>) -> Result<Double, NumberError> {
    match literal(s) {
        Ok(l) => Ok(double_of(l)),
        Err(e) => Err(e),
    }
}

/// A double-precision number: a finite one is `mantissa * 2^shift` units.
#[derive(Clone, Copy, Debug)]
pub enum Real {
    NotANumber,
    Infinite { negative: bool },
    Finite { negative: bool, mantissa: u64, shift: u32 },
}

impl View for Real {
    type V = Double;

    open spec fn view(&self) -> Double {
        match *self {
            Real::NotANumber => Double::NotANumber,
            Real::Infinite { negative } => Double::Infinite { negative },
            Real::Finite { negative, mantissa, shift } => Double::Finite {
                negative,
                units: mantissa as nat * pow2(shift as nat),
            },
        }
    }
}

impl Real {
    /// A finite number has at most 53 bits and is below the limit.
    pub open spec fn well_formed(self) -> bool {
        self matches Real::Finite { negative, mantissa, shift } ==> {
            &&& mantissa <= pow2(53)
            &&& shift <= RATIO_BITS
            &&& mantissa as nat * pow2(shift as nat) < units_limit()
        }
    }
}

/// A ratio has a spacing.
pub proof fn lemma_spacing_exists(n: nat, d: nat, from: nat) -> (e: nat)
    requires
        d > 0,
        from > 0 ==> n >= pow2(52) * (d * pow2(from)),
    ensures
        rounding::is_spacing(n, d, e),
    decreases n + 1 - from,
{
    if n < pow2(53) * (d * pow2(from)) {
        from
    } else {
        let a = pow2(from);
        lemma_pow2_unfold(from + 1);
        lemma_pow2_unfold(53);
        lemma_pow2_pos(52);
        let p = pow2(52);
        assert(p * (d * (2 * a)) == (2 * p) * (d * a)) by (nonlinear_arith);
        assert((2 * p) * (d * a) >= a) by (nonlinear_arith)
            requires
                p >= 1,
                d >= 1,
        ;
        lemma_pow2_exceeds(from);
        lemma_spacing_exists(n, d, from + 1)
    }
}

proof fn lemma_pow2_exceeds(e: nat)
    ensures
        pow2(e) > e,
    decreases e,
{
    lemma2_to64();
    if e > 0 {
        lemma_pow2_exceeds((e - 1) as nat);
        lemma_pow2_unfold(e);
    }
}

/// A ratio that reaches a power of two is not rounded below it.
pub proof fn lemma_nearest_reaches(n: nat, d: nat, k: nat)
    requires
        d > 0,
        n >= d * pow2(k),
    ensures
        rounding::nearest(n, d) >= pow2(k),
{
    let e = lemma_spacing_exists(n, d, 0);
    rounding::lemma_nearest_at(n, d, e);
    let a = pow2(e);
    lemma_pow2_pos(e);
    lemma_mul_strictly_positive(d as int, a as int);
    let s = d * a;
    let q = n / s;
    assert(rounding::half_even(n, s) >= q);
    if e <= k {
        let b = pow2((k - e) as nat);
        lemma_pow2_adds(e, (k - e) as nat);
        assert(n >= b * s) by (nonlinear_arith)
            requires
                n >= d * pow2(k),
                pow2(k) == a * b,
                s == d * a,
        ;
        lemma_div_is_ordered((b * s) as int, n as int, s as int);
        lemma_div_by_multiple(b as int, s as int);
        assert(q >= b);
        assert(rounding::half_even(n, s) * a >= b * a) by (nonlinear_arith)
            requires
                rounding::half_even(n, s) >= b,
        ;
        assert(b * a == pow2(k)) by (nonlinear_arith)
            requires
                pow2(k) == a * b,
        ;
    } else {
        lemma_pow2_strictly_increases(k, e);
        lemma_pow2_pos(52);
        assert(n >= s) by (nonlinear_arith)
            requires
                n >= pow2(52) * s,
                pow2(52) >= 1,
        ;
        lemma_div_is_ordered(s as int, n as int, s as int);
        lemma_div_by_self(s as int);
        assert(q >= 1);
        assert(rounding::half_even(n, s) * a >= a) by (nonlinear_arith)
            requires
                rounding::half_even(n, s) >= 1,
        ;
    }
}

/// A ratio up to a power of two is not rounded above it.
pub proof fn lemma_nearest_within(n: nat, d: nat, k: nat)
    requires
        d > 0,
        n <= d * pow2(k),
    ensures
        rounding::nearest(n, d) <= pow2(k),
{
    let e = lemma_spacing_exists(n, d, 0);
    rounding::lemma_nearest_at(n, d, e);
    let a = pow2(e);
    lemma_pow2_pos(e);
    lemma_mul_strictly_positive(d as int, a as int);
    let s = d * a;
    if e > k {
        lemma_pow2_strictly_increases(k, e);
        lemma_pow2_pos(52);
        assert(pow2(52) * (d * a) > d * pow2(k)) by (nonlinear_arith)
            requires
                pow2(52) >= 1,
                a > pow2(k),
                d > 0,
        ;
    }
    let b = pow2((k - e) as nat);
    lemma_pow2_adds(e, (k - e) as nat);
    assert(n <= b * s) by (nonlinear_arith)
        requires
            n <= d * pow2(k),
            pow2(k) == a * b,
            s == d * a,
    ;
    lemma_half_even_within(n, s, b);
    assert(rounding::half_even(n, s) * a <= b * a) by (nonlinear_arith)
        requires
            rounding::half_even(n, s) <= b,
    ;
    assert(b * a == pow2(k)) by (nonlinear_arith)
        requires
            pow2(k) == a * b,
    ;
}

/// A ratio up to a whole number is not rounded above it.
pub proof fn lemma_half_even_within(n: nat, s: nat, b: nat)
    requires
        s > 0,
        n <= b * s,
    ensures
        rounding::half_even(n, s) <= b,
{
    lemma_fundamental_div_mod(n as int, s as int);
    let q = n / s;
    let r = n % s;
    if q >= b {
        assert(n == s * q + r);
        assert(s * q >= b * s) by (nonlinear_arith)
            requires
                q >= b,
        ;
        assert(q == b) by (nonlinear_arith)
            requires
                s * q <= b * s,
                q >= b,
                s > 0,
        ;
    }
}

/// A ratio below one half is rounded to nothing.
pub proof fn lemma_nearest_vanishes(n: nat, d: nat)
    requires
        2 * n < d,
    ensures
        rounding::nearest(n, d) == 0,
{
    lemma2_to64();
    lemma2_to64_rest();
    assert(d * pow2(0) == d) by (nonlinear_arith)
        requires
            pow2(0) == 1,
    ;
    assert(pow2(53) * d >= d) by (nonlinear_arith)
        requires
            pow2(53) >= 1,
    ;
    rounding::lemma_nearest_at(n, d, 0);
    lemma_basic_div(n as int, d as int);
    lemma_small_mod(n, d);
}

/// Powers of ten add up.
proof fn lemma_ten_adds(a: nat, b: nat)
    ensures
        ten(a + b) == ten(a) * ten(b),
    decreases a,
{
    if a == 0 {
        assert(1 * ten(b) == ten(b));
    } else {
        lemma_ten_adds((a - 1) as nat, b);
        let x = ten((a - 1) as nat);
        let y = ten(b);
        assert((a + b - 1) as nat == (a - 1) as nat + b);
        assert((10 * x) * y == 10 * (x * y)) by (nonlinear_arith);
    }
}

proof fn lemma_ten_ordered(a: nat, b: nat)
    requires
        a <= b,
    ensures
        1 <= ten(a) <= ten(b),
    decreases b,
{
    if a < b {
        lemma_ten_ordered(a, (b - 1) as nat);
    } else if b > 0 {
        lemma_ten_ordered((b - 1) as nat, (b - 1) as nat);
    }
}

/// Ten lies between two powers of two.
proof fn lemma_ten_in_powers(k: nat)
    ensures
        pow2(3 * k) <= ten(k) <= pow2(4 * k),
    decreases k,
{
    lemma2_to64();
    if k > 0 {
        lemma_ten_in_powers((k - 1) as nat);
        lemma_pow2_adds(3, (3 * (k - 1)) as nat);
        lemma_pow2_adds(4, (4 * (k - 1)) as nat);
        assert(3 + 3 * (k - 1) == 3 * k);
        assert(4 + 4 * (k - 1) == 4 * k);
    }
}

/// Digits stand for less than the power of ten of their count.
proof fn lemma_decimal_bound(s: Seq<char>)
    requires
        forall|i: int| 0 <= i < s.len() ==> text::is_digit(#[trigger] s[i]),
    ensures
        text::decimal_value(s) < ten(s.len()),
    decreases s.len(),
{
    if s.len() > 0 {
        lemma_decimal_bound(s.drop_last());
    }
}

/// Digits without a leading zero reach the power of ten below their count.
proof fn lemma_decimal_reaches(s: Seq<char>)
    requires
        s.len() > 0,
        s[0] != '0',
        forall|i: int| 0 <= i < s.len() ==> text::is_digit(#[trigger] s[i]),
    ensures
        text::decimal_value(s) >= ten((s.len() - 1) as nat),
    decreases s.len(),
{
    if s.len() > 1 {
        lemma_decimal_reaches(s.drop_last());
    } else {
        reveal_with_fuel(text::decimal_value, 2);
    }
}

/// A zero in front changes nothing.
proof fn lemma_leading_zero(s: Seq<char>)
    requires
        s.len() > 0,
        s[0] == '0',
    ensures
        text::decimal_value(s) == text::decimal_value(s.drop_first()),
    decreases s.len(),
{
    if s.len() > 1 {
        lemma_leading_zero(s.drop_last());
        assert(s.drop_last().drop_first() =~= s.drop_first().drop_last());
    } else {
        reveal_with_fuel(text::decimal_value, 2);
    }
}

/// The leading digits are digits.
proof fn lemma_leading_digits(s: Seq<char>)
    ensures
        text::digits_len(s) <= s.len(),
        forall|i: int| 0 <= i < text::digits_len(s) ==> text::is_digit(#[trigger] s[i]),
    decreases s.len(),
{
    if s.len() > 0 && text::is_digit(s.first()) {
        lemma_leading_digits(s.drop_first());
        assert forall|i: int| 0 <= i < text::digits_len(s) implies text::is_digit(
            #[trigger] s[i],
        ) by {
            if i > 0 {
                assert(s[i] == s.drop_first()[i - 1]);
            }
        }
    }
}

/// A decimal number of many digits before its point is beyond the limit.
proof fn lemma_large(v: nat, e: int, len: nat)
    requires
        len > 0,
        v >= ten((len - 1) as nat),
        len + e > 400,
    ensures
        ({
            let (n, d) = decimal_ratio(v, e);
            n >= d * units_limit()
        }),
{
    let one = units_in_one();
    lemma_ten_in_powers(400);
    lemma_pow2_adds(1200, 1074);
    lemma_pow2_strictly_increases(2098, 2274);
    let big = ten(400);
    assert(big * one >= pow2(2274)) by (nonlinear_arith)
        requires
            big >= pow2(1200),
            one == pow2(1074),
            pow2(2274) == pow2(1200) * pow2(1074),
    ;
    let limit = units_limit();
    if e >= 0 {
        let t = ten(e as nat);
        lemma_ten_adds((len - 1) as nat, e as nat);
        lemma_ten_ordered(400, (len - 1 + e) as nat);
        assert((len - 1) as nat + e as nat == (len - 1 + e) as nat);
        assert(v * t >= ten((len - 1) as nat) * t) by (nonlinear_arith)
            requires
                v >= ten((len - 1) as nat),
        ;
        assert(v * t * one >= big * one) by (nonlinear_arith)
            requires
                v * t >= big,
        ;
    } else {
        let d = ten((-e) as nat);
        lemma_ten_adds(400, (-e) as nat);
        lemma_ten_ordered((400 - e) as nat, (len - 1) as nat);
        assert(400 + (-e) as nat == (400 - e) as nat);
        assert(v * one >= d * limit) by (nonlinear_arith)
            requires
                v >= big * d,
                big * one >= limit,
        ;
    }
}

/// A decimal number of many zeros behind its point is less than half a unit.
proof fn lemma_small(v: nat, e: int, len: nat)
    requires
        v < ten(len),
        len + e < -400,
    ensures
        ({
            let (n, d) = decimal_ratio(v, e);
            2 * n < d
        }),
{
    let one = units_in_one();
    let d = ten((-e) as nat);
    let big = ten(400);
    let t = ten(len);
    lemma_ten_in_powers(400);
    lemma_pow2_unfold(1075);
    lemma_pow2_strictly_increases(1075, 1200);
    lemma_ten_adds(len, 400);
    lemma_ten_ordered(len + 400, (-e) as nat);
    lemma_pow2_pos(1074);
    assert(2 * (v * one) < t * big) by (nonlinear_arith)
        requires
            v < t,
            2 * one < big,
            one > 0,
    ;
}

/// A decimal number of few digits before its point is within the bound for rounding.
proof fn lemma_medium(v: nat, e: int, len: nat)
    requires
        v < ten(len),
        len + e <= 400,
    ensures
        ({
            let (n, d) = decimal_ratio(v, e);
            n < d * pow2(RATIO_BITS as nat)
        }),
{
    let one = units_in_one();
    let big = ten(400);
    lemma_ten_in_powers(400);
    lemma_pow2_pos(1074);
    lemma_pow2_adds(1600, 1074);
    lemma_pow2_strictly_increases(2674, 4000);
    assert(big * one <= pow2(2674)) by (nonlinear_arith)
        requires
            big <= pow2(1600),
            one == pow2(1074),
            pow2(2674) == pow2(1600) * pow2(1074),
    ;
    let limit = pow2(4000);
    if e >= 0 {
        let t = ten(e as nat);
        lemma_ten_adds(len, e as nat);
        lemma_ten_ordered((len + e) as nat, 400);
        lemma_ten_ordered(0, e as nat);
        assert(v * t < ten(len) * t) by (nonlinear_arith)
            requires
                v < ten(len),
                t > 0,
        ;
        assert(v * t * one < big * one) by (nonlinear_arith)
            requires
                v * t < big,
                one > 0,
        ;
    } else {
        let d = ten((-e) as nat);
        lemma_ten_adds(400, (-e) as nat);
        lemma_ten_ordered(len, (400 - e) as nat);
        lemma_ten_ordered(0, (-e) as nat);
        assert(400 + (-e) as nat == (400 - e) as nat);
        assert(v * one < d * limit) by (nonlinear_arith)
            requires
                v < big * d,
                big * one <= limit,
                one > 0,
                d > 0,
        ;
    }
}

/// The bound at which the value of a written exponent is cut off.
const EXPONENT_CAP: u128 = 1_000_000_000_000_000_000_000_000_000_000;

/// The value of digits, or the cap where it is larger.
fn capped_value(s: &[char]) -> (x: u128)
    requires
        forall|i: int| 0 <= i < s.len() ==> text::is_digit(#[trigger] s[i]),
    ensures
        text::decimal_value(s@) < EXPONENT_CAP ==> x == text::decimal_value(s@),
        text::decimal_value(s@) >= EXPONENT_CAP ==> x == EXPONENT_CAP,
{
    let mut x: u128 = 0;
    for i in 0..s.len()
        invariant
            forall|i: int| 0 <= i < s.len() ==> text::is_digit(#[trigger] s[i]),
            text::decimal_value(s@.take(i as int)) < EXPONENT_CAP ==> x == text::decimal_value(
                s@.take(i as int),
            ),
            text::decimal_value(s@.take(i as int)) >= EXPONENT_CAP ==> x == EXPONENT_CAP,
            x <= EXPONENT_CAP,
    {
        let d = text::value_of_digit(s[i]);
        assert(s@.take(i + 1).drop_last() =~= s@.take(i as int));
        let y: u128 = 10 * x + d as u128;
        x = if y < EXPONENT_CAP {
            y
        } else {
            EXPONENT_CAP
        };
    }
    assert(s@.take(s.len() as int) =~= s@);
    x
}

/// The exponent that a text denotes, cut off at the cap on either side.
fn read_exponent(s: &[char]) -> (r: Option<i128>)
    ensures
        r is Some <==> exponent_part(s@) is Some,
        r matches Some(x) ==> capped(x, exponent_part(s@)->0),
{
    if s.len() == 0 {
        return Some(0);
    }
    if s[0] != 'e' && s[0] != 'E' {
        return None;
    }
    let t = slice_subrange(s, 1, s.len());
    assert(t@ =~= s@.drop_first());
    let minus = t.len() > 0 && t[0] == '-';
    let u = strip_sign(t);
    let n = text::count_digits(u);
    if n == 0 || n != u.len() {
        return None;
    }
    proof {
        lemma_leading_digits(u@);
    }
    let x = capped_value(u) as i128;
    if minus {
        Some(-x)
    } else {
        Some(x)
    }
}

/// `x` is `y`, or the cap on the side on which `y` lies beyond it.
spec fn capped(x: i128, y: int) -> bool {
    &&& -EXPONENT_CAP < y < EXPONENT_CAP ==> x == y
    &&& y >= EXPONENT_CAP ==> x == EXPONENT_CAP
    &&& y <= -EXPONENT_CAP ==> x == -EXPONENT_CAP
}

/// A text without the sign that it may start with.
fn strip_sign<'a>(s: &'a [char]) -> (r: &'a [char])
    ensures
        r@ == unsigned(s@),
{
    if s.len() > 0 && (s[0] == '+' || s[0] == '-') {
        assert(s@.subrange(1, s.len() as int) =~= s@.drop_first());
        slice_subrange(s, 1, s.len())
    } else {
        s
    }
}

/// The number that digits stand for.
fn digits_to_nat(s: &[char]) -> (n: BigNat)
    requires
        forall|i: int| 0 <= i < s.len() ==> text::is_digit(#[trigger] s[i]),
    ensures
        n@ == text::decimal_value(s@),
{
    let mut n = BigNat::from_u64(0);
    for i in 0..s.len()
        invariant
            forall|i: int| 0 <= i < s.len() ==> text::is_digit(#[trigger] s[i]),
            n@ == text::decimal_value(s@.take(i as int)),
    {
        let d = text::value_of_digit(s[i]);
        assert(s@.take(i + 1).drop_last() =~= s@.take(i as int));
        n.mul_add(10, d as u32);
    }
    assert(s@.take(s.len() as int) =~= s@);
    n
}

/// `n * 10^k`.
fn times_ten(n: &mut BigNat, k: u128)
    ensures
        final(n)@ == old(n)@ * ten(k as nat),
{
    assert(n@ * ten(0) == n@) by (nonlinear_arith)
        requires
            ten(0) == 1,
    ;
    let mut i: u128 = 0;
    while i < k
        invariant
            i <= k,
            n@ == old(n)@ * ten(i as nat),
        decreases k - i,
    {
        proof {
            let a = old(n)@;
            let t = ten(i as nat);
            assert(ten((i + 1) as nat) == 10 * t);
            assert(a * (10 * t) == (a * t) * 10) by (nonlinear_arith);
        }
        n.mul_add(10, 0);
        i = i + 1;
    }
}

/// The double-precision number nearest to `n / d` units.
pub fn real_near(negative: bool, n: BigNat, d: &BigNat) -> (r: Real)
    requires
        d@ > 0,
        n@ < d@ * pow2(RATIO_BITS as nat),
    ensures
        r@ == double_near(negative, n@, d@),
        r.well_formed(),
{
    let (mantissa, shift) = rounding::round_ratio(n, d);
    let mut size = BigNat::from_u64(mantissa);
    size.shift(shift);
    let mut limit = BigNat::from_u64(1);
    limit.shift(2098);
    if size.less(&limit) {
        Real::Finite { negative, mantissa, shift }
    } else {
        Real::Infinite { negative }
    }
}

/// The double-precision number nearest to `mantissa * 10^exponent`, for the mantissa that the
/// digits spell.
fn real_from_decimal(minus: bool, digits: &[char], exponent: i128, Ghost(exact): Ghost<int>) -> (r:
    Real)
    requires
        forall|i: int| 0 <= i < digits.len() ==> text::is_digit(#[trigger] digits[i]),
        -0x2_0000_0000_0000_0000 - EXPONENT_CAP <= exponent <= EXPONENT_CAP,
        -EXPONENT_CAP / 2 < exponent < EXPONENT_CAP / 2 ==> exact == exponent,
        exponent >= EXPONENT_CAP / 2 ==> exact >= EXPONENT_CAP / 2,
        exponent <= -EXPONENT_CAP / 2 ==> exact <= -EXPONENT_CAP / 2,
    ensures
        r@ == double_of(
            Literal::Finite {
                negative: minus,
                mantissa: text::decimal_value(digits@),
                exponent: exact,
            },
        ),
        r.well_formed(),
{
    let ghost value = text::decimal_value(digits@);
    let mut lead: usize = 0;
    assert(digits@.skip(0) =~= digits@);
    while lead < digits.len() && digits[lead] == '0'
        invariant
            lead <= digits.len(),
            text::decimal_value(digits@.skip(lead as int)) == text::decimal_value(digits@),
        decreases digits.len() - lead,
    {
        proof {
            lemma_leading_zero(digits@.skip(lead as int));
            assert(digits@.skip(lead as int).drop_first() =~= digits@.skip(lead + 1));
        }
        lead = lead + 1;
    }
    let sig = slice_subrange(digits, lead, digits.len());
    let len: i128 = sig.len() as i128;
    let ghost (n, d) = decimal_ratio(value, exact);
    let ghost one = units_in_one();
    proof {
        assert(sig@ =~= digits@.skip(lead as int));
        lemma2_to64();
        lemma_pow2_pos(2098);
        lemma_pow2_pos(1074);
        lemma_ten_ordered(0, 0);
        if exact < 0 {
            lemma_ten_ordered(0, (-exact) as nat);
        }
        assert(n as int == if exact >= 0 {
            value * ten(exact as nat) * one
        } else {
            value * one
        });
    }
    if len == 0 {
        proof {
            assert(value == 0);
            assert(n == 0) by (nonlinear_arith)
                requires
                    value == 0,
                    n as int == if exact >= 0 {
                        value * ten(exact as nat) * one
                    } else {
                        value * one
                    },
            ;
            lemma_nearest_vanishes(n, d);
            assert(0nat * pow2(0) == 0);
        }
        return Real::Finite { negative: minus, mantissa: 0, shift: 0 };
    }
    proof {
        lemma_decimal_bound(sig@);
        lemma_decimal_reaches(sig@);
    }
    if len + exponent > 400 {
        proof {
            lemma_large(value, exact, sig.len() as nat);
            lemma_nearest_reaches(n, d, 2098);
        }
        return Real::Infinite { negative: minus };
    }
    if len + exponent < -400 {
        proof {
            lemma_small(value, exact, sig.len() as nat);
            lemma_nearest_vanishes(n, d);
            assert(0nat * pow2(0) == 0);
        }
        return Real::Finite { negative: minus, mantissa: 0, shift: 0 };
    }
    let mut top = digits_to_nat(sig);
    let mut bottom = BigNat::from_u64(1);
    proof {
        lemma_medium(value, exact, sig.len() as nat);
    }
    if exponent >= 0 {
        times_ten(&mut top, exponent as u128);
    } else {
        times_ten(&mut bottom, (-exponent) as u128);
        proof {
            assert(1 * ten((-exact) as nat) == ten((-exact) as nat));
        }
    }
    top.shift(1074);
    real_near(minus, top, &bottom)
}

/// The double-precision number that a text denotes.
pub fn parse_real(s: &[char]) -> (r: Result<Real, NumberError>)
    ensures
        match r {
            Ok(x) => double_from_text(s@) == Ok::<Double, NumberError>(x@) && x.well_formed(),
            Err(e) => double_from_text(s@) == Err::<Double, NumberError>(e),
        },
{
    if s.len() == 0 {
        return Err(NumberError::Empty);
    }
    let minus = s[0] == '-';
    let t = strip_sign(s);
    match read_plain(t, minus) {
        Some(x) => Ok(x),
        None => {
            let name = text::to_ascii_lower(t);
            if text::spells(name.as_slice(), "nan") {
                Ok(Real::NotANumber)
            } else if text::spells(name.as_slice(), "inf") || text::spells(
                name.as_slice(),
                "infinity",
            ) {
                Ok(Real::Infinite { negative: minus })
            } else {
                Err(NumberError::Invalid)
            }
        },
    }
}

/// The number that an unsigned decimal text denotes.
fn read_plain(s: &[char], minus: bool) -> (r: Option<Real>)
    ensures
        match r {
            Some(x) => {
                &&& plain_number(s@) is Some
                &&& x@ == double_of(
                    Literal::Finite {
                        negative: minus,
                        mantissa: (plain_number(s@)->0).0,
                        exponent: (plain_number(s@)->0).1,
                    },
                )
                &&& x.well_formed()
            },
            None => plain_number(s@) is None,
        },
{
    let a = text::count_digits(s);
    let whole = slice_subrange(s, 0, a);
    let r = slice_subrange(s, a, s.len());
    proof {
        assert(whole@ =~= s@.take(a as int));
        assert(r@ =~= s@.skip(a as int));
        lemma_leading_digits(s@);
    }
    let mut digits = text::copy_chars(whole);
    let mut rest = r;
    let mut places: usize = 0;
    if r.len() > 0 && r[0] == '.' {
        let t = slice_subrange(r, 1, r.len());
        let b = text::count_digits(t);
        let fraction = slice_subrange(t, 0, b);
        rest = slice_subrange(t, b, t.len());
        proof {
            assert(t@ =~= r@.drop_first());
            assert(fraction@ =~= t@.take(b as int));
            assert(rest@ =~= t@.skip(b as int));
            lemma_leading_digits(t@);
        }
        for i in 0..fraction.len()
            invariant
                digits@ == s@.take(a as int) + fraction@.take(i as int),
        {
            digits.push(fraction[i]);
        }
        assert(digits@ =~= s@.take(a as int) + fraction@);
        places = b;
    } else {
        assert(s@.take(a as int) + Seq::<char>::empty() =~= s@.take(a as int));
    }
    if digits.len() == 0 {
        return None;
    }
    match read_exponent(rest) {
        Some(x) => {
            let ghost exact = (plain_number(s@)->0).1;
            Some(real_from_decimal(minus, digits.as_slice(), x - places as i128, Ghost(exact)))
        },
        None => None,
    }
}

/// Why a text is no whole number of a given range.
#[derive(Clone, Copy, Debug, PartialEq, Eq, Structural)]
pub enum WholeError {
    Empty,
    InvalidDigit,
    TooLarge,
    TooSmall,
}

/// The value of digits up to `max`, or the first thing wrong with them from the left.
pub open spec fn bounded_value(s: Seq<char>, max: nat, over: WholeError) -> Result<nat, WholeError>
    decreases s.len(),
{
    if s.len() == 0 {
        Ok(0)
    } else {
        match bounded_value(s.drop_last(), max, over) {
            Ok(v) => if !text::is_digit(s.last()) {
                Err(WholeError::InvalidDigit)
            } else if 10 * v + text::digit_value(s.last()) > max {
                Err(over)
            } else {
                Ok(10 * v + text::digit_value(s.last()))
            },
            Err(e) => Err(e),
        }
    }
}

/// The whole number from zero to `max` that a text denotes: digits, behind a plus sign if any.
pub open spec fn whole_from_text(s: Seq<char>, max: nat) -> Result<nat, WholeError> {
    if s.len() == 0 {
        Err(WholeError::Empty)
    } else if s.len() == 1 && (s[0] == '+' || s[0] == '-') {
        Err(WholeError::InvalidDigit)
    } else if s[0] == '+' {
        bounded_value(s.drop_first(), max, WholeError::TooLarge)
    } else {
        bounded_value(s, max, WholeError::TooLarge)
    }
}

/// The 32-bit signed number that a text denotes: digits, behind a sign if any.
pub open spec fn signed_from_text(s: Seq<char>) -> Result<int, WholeError> {
    if s.len() > 1 && s[0] == '-' {
        match bounded_value(s.drop_first(), 0x8000_0000, WholeError::TooSmall) {
            Ok(v) => Ok(-(v as int)),
            Err(e) => Err(e),
        }
    } else {
        match whole_from_text(s, 0x7fff_ffff) {
            Ok(v) => Ok(v as int),
            Err(e) => Err(e),
        }
    }
}

/// The value of digits up to `max`, or the first thing wrong with them from the left.
fn read_bounded(s: &[char], max: u64, over: WholeError) -> (r: Result<u64, WholeError>)
    ensures
        match r {
            Ok(v) => bounded_value(s@, max as nat, over) == Ok::<nat, WholeError>(v as nat) && v
                <= max,
            Err(e) => bounded_value(s@, max as nat, over) == Err::<nat, WholeError>(e),
        },
{
    let mut v: u64 = 0;
    for i in 0..s.len()
        invariant
            bounded_value(s@.take(i as int), max as nat, over) == Ok::<nat, WholeError>(v as nat),
            v <= max,
    {
        assert(s@.take(i + 1).drop_last() =~= s@.take(i as int));
        if !text::digit(s[i]) {
            proof {
                lemma_bounded_prefix(s@, i + 1, max as nat, over);
            }
            return Err(WholeError::InvalidDigit);
        }
        let next: u128 = 10 * v as u128 + text::value_of_digit(s[i]) as u128;
        if next > max as u128 {
            proof {
                lemma_bounded_prefix(s@, i + 1, max as nat, over);
            }
            return Err(over);
        }
        v = next as u64;
    }
    assert(s@.take(s.len() as int) =~= s@);
    Ok(v)
}

/// What is wrong with a beginning is wrong with the whole.
proof fn lemma_bounded_prefix(s: Seq<char>, i: int, max: nat, over: WholeError)
    requires
        0 <= i <= s.len(),
        bounded_value(s.take(i), max, over) is Err,
    ensures
        bounded_value(s, max, over) == bounded_value(s.take(i), max, over),
    decreases s.len(),
{
    if i < s.len() {
        assert(s.drop_last().take(i) =~= s.take(i));
        lemma_bounded_prefix(s.drop_last(), i, max, over);
    } else {
        assert(s.take(i) =~= s);
    }
}

/// The whole number from zero to `max` that a text denotes.
pub fn parse_whole(s: &[char], max: u64) -> (r: Result<u64, WholeError>)
    ensures
        match r {
            Ok(v) => whole_from_text(s@, max as nat) == Ok::<nat, WholeError>(v as nat) && v <= max,
            Err(e) => whole_from_text(s@, max as nat) == Err::<nat, WholeError>(e),
        },
{
    if s.len() == 0 {
        return Err(WholeError::Empty);
    }
    if s.len() == 1 && (s[0] == '+' || s[0] == '-') {
        return Err(WholeError::InvalidDigit);
    }
    if s[0] == '+' {
        assert(s@.subrange(1, s.len() as int) =~= s@.drop_first());
        read_bounded(slice_subrange(s, 1, s.len()), max, WholeError::TooLarge)
    } else {
        read_bounded(s, max, WholeError::TooLarge)
    }
}

/// The 32-bit signed number that a text denotes.
pub fn parse_signed(s: &[char]) -> (r: Result<i32, WholeError>)
    ensures
        match r {
            Ok(v) => signed_from_text(s@) == Ok::<int, WholeError>(v as int),
            Err(e) => signed_from_text(s@) == Err::<int, WholeError>(e),
        },
{
    if s.len() > 1 && s[0] == '-' {
        assert(s@.subrange(1, s.len() as int) =~= s@.drop_first());
        match read_bounded(slice_subrange(s, 1, s.len()), 0x8000_0000, WholeError::TooSmall) {
            Ok(v) => Ok((-(v as i64)) as i32),
            Err(e) => Err(e),
        }
    } else {
        match parse_whole(s, 0x7fff_ffff) {
            Ok(v) => Ok(v as i32),
            Err(e) => Err(e),
        }
    }
}

/// The words for a fault of a double-precision literal.
pub open spec fn number_error_text(e: NumberError) -> Seq<char> {
    match e {
        NumberError::Empty => "cannot parse float from empty string"@,
        NumberError::Invalid => "invalid float literal"@,
    }
}

/// The words for a fault of a whole number.
pub open spec fn whole_error_text(e: WholeError) -> Seq<char> {
    match e {
        WholeError::Empty => "cannot parse integer from empty string"@,
        WholeError::InvalidDigit => "invalid digit found in string"@,
        WholeError::TooLarge => "number too large to fit in target type"@,
        WholeError::TooSmall => "number too small to fit in target type"@,
    }
}

impl NumberError {
    /// The words for the fault.
    pub fn message(&self) -> (r: String)
        ensures
            r@ == number_error_text(*self),
    {
        match self {
            NumberError::Empty => "cannot parse float from empty string".to_string(),
            NumberError::Invalid => "invalid float literal".to_string(),
        }
    }
}

impl WholeError {
    /// The words for the fault.
    pub fn message(&self) -> (r: String)
        ensures
            r@ == whole_error_text(*self),
    {
        match self {
            WholeError::Empty => "cannot parse integer from empty string".to_string(),
            WholeError::InvalidDigit => "invalid digit found in string".to_string(),
            WholeError::TooLarge => "number too large to fit in target type".to_string(),
            WholeError::TooSmall => "number too small to fit in target type".to_string(),
        }
    }
}

} // verus!
