//! Spans of time, and their text form: `250ms`, `2s`, `1m`, `0.5`.
use crate::bignat::BigNat;
use crate::number::{self, Double, NumberError, Real};
use crate::{rounding, text};
use vstd::arithmetic::mul::*;
use vstd::arithmetic::power2::*;
use vstd::prelude::*;
use vstd::slice::slice_subrange;
use vstd::string::*;

verus! {

/// Nanoseconds in a second.
pub const NANOS_PER_SEC: u32 = 1_000_000_000;

/// A span of time: whole seconds, and nanoseconds short of one more.
#[derive(Clone, Copy, Debug, PartialEq, Eq, Structural)]
pub struct Duration {
    secs: u64,
    nanos: u32,
}

impl View for Duration {
    type V = nat;

    /// The span in nanoseconds.
    closed spec fn view(&self) -> nat {
        self.secs as nat * 1_000_000_000 + self.nanos as nat
    }
}

impl Duration {
    #[verifier::type_invariant]
    spec fn well_formed(self) -> bool {
        self.nanos < 1_000_000_000
    }

    /// `secs` seconds and `nanos` nanoseconds.
    pub fn new(secs: u64, nanos: u32) -> (r: Self)
        requires
            nanos < NANOS_PER_SEC,
        ensures
            r@ == secs as nat * 1_000_000_000 + nanos as nat,
    {
        Duration { secs, nanos }
    }

    /// `secs` seconds.
    pub fn from_secs(secs: u64) -> (r: Self)
        ensures
            r@ == secs as nat * 1_000_000_000,
    {
        Duration { secs, nanos: 0 }
    }

    /// `millis` thousandths of a second.
    pub fn from_millis(millis: u64) -> (r: Self)
        ensures
            r@ == millis as nat * 1_000_000,
    {
        Duration { secs: millis / 1000, nanos: (millis % 1000) as u32 * 1_000_000 }
    }

    /// The whole seconds.
    pub fn as_secs(&self) -> (r: u64)
        ensures
            r == self@ / 1_000_000_000,
    {
        proof {
            use_type_invariant(self);
        }
        self.secs
    }

    /// The nanoseconds behind the whole seconds.
    pub fn subsec_nanos(&self) -> (r: u32)
        ensures
            r == self@ % 1_000_000_000,
    {
        proof {
            use_type_invariant(self);
        }
        self.nanos
    }

    /// Whether the span is as long as `other` or longer.
    pub fn reaches(&self, other: &Duration) -> (r: bool)
        ensures
            r == (self@ >= other@),
    {
        proof {
            use_type_invariant(self);
            use_type_invariant(other);
        }
        self.secs > other.secs || (self.secs == other.secs && self.nanos >= other.nanos)
    }

    /// The shorter of two spans.
    pub fn min(self, other: Duration) -> (r: Duration)
        ensures
            r@ == if self@ <= other@ {
                self@
            } else {
                other@
            },
    {
        if other.reaches(&self) {
            self
        } else {
            other
        }
    }

    /// What is left of the span behind `other`, nothing where `other` is longer.
    pub fn saturating_sub(self, other: Duration) -> (r: Duration)
        ensures
            r@ == if self@ >= other@ {
                (self@ - other@) as nat
            } else {
                0
            },
    {
        proof {
            use_type_invariant(&self);
            use_type_invariant(&other);
        }
        if !self.reaches(&other) {
            Duration { secs: 0, nanos: 0 }
        } else if self.nanos >= other.nanos {
            Duration { secs: self.secs - other.secs, nanos: self.nanos - other.nanos }
        } else {
            Duration {
                secs: self.secs - other.secs - 1,
                nanos: self.nanos + 1_000_000_000 - other.nanos,
            }
        }
    }
}

/// The unit that a duration is written in.
#[derive(Clone, Copy, Debug, PartialEq, Eq, Structural)]
pub enum DurationUnit {
    Milliseconds,
    Seconds,
    Minutes,
    Unmarked,
}

/// Why a text is no duration.
#[derive(Debug, PartialEq, Eq)]
pub enum DurationError {
    Empty,
    Number { unit: DurationUnit, number: String, cause: NumberError },
    Range,
}

/// What a [`DurationError`] says.
pub enum DurationFault {
    Empty,
    Number { unit: DurationUnit, number: Seq<char>, cause: NumberError },
    Range,
}

impl View for DurationError {
    type V = DurationFault;

    open spec fn view(&self) -> DurationFault {
        match *self {
            DurationError::Empty => DurationFault::Empty,
            DurationError::Number { unit, number, cause } => DurationFault::Number {
                unit,
                number: number@,
                cause,
            },
            DurationError::Range => DurationFault::Range,
        }
    }
}

/// The unit of a duration, and the number before it.
pub open spec fn split_unit(s: Seq<char>) -> (DurationUnit, Seq<char>) {
    if text::ends_with(s, "ms"@) {
        (DurationUnit::Milliseconds, s.take(s.len() - 2))
    } else if text::ends_with(s, "s"@) {
        (DurationUnit::Seconds, s.take(s.len() - 1))
    } else if text::ends_with(s, "m"@) {
        (DurationUnit::Minutes, s.take(s.len() - 1))
    } else {
        (DurationUnit::Unmarked, s)
    }
}

/// A number of the given unit as a number of seconds, rounded to double precision.
pub open spec fn in_seconds(value: Double, unit: DurationUnit) -> Double {
    match value {
        Double::Finite { negative, units } => match unit {
            DurationUnit::Milliseconds => number::double_near(negative, units, 1000),
            DurationUnit::Minutes => number::double_near(negative, units * 60, 1),
            _ => value,
        },
        _ => value,
    }
}

/// A number of seconds as a span in nanoseconds: the nearest whole number of them. There is none
/// for a number below zero, and none from `2^64` seconds on.
pub open spec fn nanos_in(seconds: Double) -> Result<nat, DurationFault> {
    let one = number::units_in_one();
    match seconds {
        Double::Finite { negative, units } => if (negative && units > 0) || units >= pow2(64)
            * one {
            Err(DurationFault::Range)
        } else {
            Ok(rounding::half_even(units * 1_000_000_000, one))
        },
        _ => Err(DurationFault::Range),
    }
}

/// The span, in nanoseconds, that a text denotes: a decimal number, then `ms`, `s` or `m`, or
/// nothing for seconds, with white space around the whole.
pub open spec fn duration_from_text(input: Seq<char>) -> Result<nat, DurationFault> {
    let s = text::trim(input);
    let (unit, digits) = split_unit(s);
    if s.len() == 0 {
        Err(DurationFault::Empty)
    } else {
        match number::double_from_text(digits) {
            Ok(value) => nanos_in(in_seconds(value, unit)),
            Err(cause) => Err(DurationFault::Number { unit, number: digits, cause }),
        }
    }
}

/// A double-precision number below `2^64` stays below it by more than the last nanosecond.
proof fn lemma_last_step(mantissa: nat, shift: nat)
    requires
        mantissa <= pow2(53),
        mantissa * pow2(shift) < pow2(64) * number::units_in_one(),
    ensures
        mantissa * pow2(shift) <= (pow2(64) - pow2(11)) * number::units_in_one(),
{
    let one = number::units_in_one();
    let units = mantissa * pow2(shift);
    let step = pow2(1085);
    lemma_pow2_adds(11, 1074);
    lemma_pow2_adds(64, 1074);
    lemma_pow2_adds(53, 1085);
    lemma2_to64();
    lemma2_to64_rest();
    lemma_pow2_pos(1074);
    assert((pow2(64) - pow2(11)) * one == pow2(64) * one - pow2(11) * one) by (nonlinear_arith);
    if shift >= 1085 {
        let t = mantissa * pow2((shift - 1085) as nat);
        lemma_pow2_adds(1085, (shift - 1085) as nat);
        assert(units == t * step) by (nonlinear_arith)
            requires
                units == mantissa * pow2(shift),
                pow2(shift) == step * pow2((shift - 1085) as nat),
                t == mantissa * pow2((shift - 1085) as nat),
        ;
        assert(t < pow2(53)) by (nonlinear_arith)
            requires
                t * step < pow2(53) * step,
        ;
        assert(t * step <= pow2(53) * step - step) by (nonlinear_arith)
            requires
                t + 1 <= pow2(53),
        ;
    } else {
        lemma_pow2_adds(53, shift);
        assert(units <= pow2(53) * pow2(shift)) by (nonlinear_arith)
            requires
                units == mantissa * pow2(shift),
                mantissa <= pow2(53),
        ;
        if 53 + shift < 1137 {
            lemma_pow2_strictly_increases(53 + shift, 1137);
        }
        lemma_pow2_unfold(1138);
        lemma_pow2_strictly_increases(1085, 1137);
    }
}

/// A number of seconds as a span.
pub fn duration_from_secs(seconds: Real) -> (r: Result<Duration, DurationError>)
    requires
        seconds.well_formed(),
    ensures
        match r {
            Ok(d) => nanos_in(seconds@) == Ok::<nat, DurationFault>(d@),
            Err(e) => nanos_in(seconds@) == Err::<nat, DurationFault>(e@),
        },
{
    match seconds {
        Real::Finite { negative, mantissa, shift } => {
            let ghost units = mantissa as nat * pow2(shift as nat);
            let ghost one = number::units_in_one();
            proof {
                lemma_pow2_pos(shift as nat);
                if mantissa > 0 {
                    lemma_mul_strictly_positive(mantissa as int, pow2(shift as nat) as int);
                } else {
                    assert(0nat * pow2(shift as nat) == 0);
                }
                lemma_pow2_adds(1074, 64);
                lemma_mul_is_commutative(pow2(64) as int, one as int);
            }
            if negative && mantissa > 0 {
                return Err(DurationError::Range);
            }
            let mut size = BigNat::from_u64(mantissa);
            size.shift(shift);
            let mut limit = BigNat::from_u64(1);
            limit.shift(1074 + 64);
            if !size.less(&limit) {
                return Err(DurationError::Range);
            }
            let mut whole = BigNat::from_u64(1);
            whole.shift(1074);
            size.mul_add(NANOS_PER_SEC, 0);
            proof {
                lemma_last_step(mantissa as nat, shift as nat);
                lemma2_to64();
                lemma2_to64_rest();
                lemma_pow2_pos(1074);
                lemma_pow2_adds(64, 30);
                let top: nat = (pow2(64) - pow2(11)) as nat;
                assert(size@ <= (top * 1_000_000_000) * one) by (nonlinear_arith)
                    requires
                        size@ == units * 1_000_000_000,
                        units <= top * one,
                ;
                number::lemma_half_even_within(size@, one, top * 1_000_000_000);
                assert(size@ < one * pow2(94)) by (nonlinear_arith)
                    requires
                        size@ <= (top * 1_000_000_000) * one,
                        top * 1_000_000_000 < pow2(94),
                        one > 0,
                ;
            }
            let nanos = rounding::round_half_even(size, &whole, 94);
            Ok(
                Duration {
                    secs: (nanos / NANOS_PER_SEC as u128) as u64,
                    nanos: (nanos % NANOS_PER_SEC as u128) as u32,
                },
            )
        },
        _ => Err(DurationError::Range),
    }
}

/// A number of the given unit as a number of seconds.
fn convert(value: Real, unit: DurationUnit) -> (r: Real)
    requires
        value.well_formed(),
    ensures
        r@ == in_seconds(value@, unit),
        r.well_formed(),
{
    match value {
        Real::Finite { negative, mantissa, shift } => {
            let mut size = BigNat::from_u64(mantissa);
            size.shift(shift);
            proof {
                lemma_pow2_strictly_increases(2098, 4000);
                lemma_pow2_strictly_increases(2104, 4000);
                lemma_pow2_adds(6, 2098);
                lemma2_to64();
            }
            match unit {
                DurationUnit::Milliseconds => number::real_near(
                    negative,
                    size,
                    &BigNat::from_u64(1000),
                ),
                DurationUnit::Minutes => {
                    size.mul_add(60, 0);
                    number::real_near(negative, size, &BigNat::from_u64(1))
                },
                _ => value,
            }
        },
        _ => value,
    }
}

/// The span that a text denotes.
pub fn parse_duration(input: &str) -> (r: Result<Duration, DurationError>)
    ensures
        match r {
            Ok(d) => duration_from_text(input@) == Ok::<nat, DurationFault>(d@),
            Err(e) => duration_from_text(input@) == Err::<nat, DurationFault>(e@),
        },
{
    let chars = text::to_chars(input);
    let trimmed = text::trimmed(chars.as_slice());
    if trimmed.len() == 0 {
        return Err(DurationError::Empty);
    }
    proof {
        reveal_strlit("ms");
        reveal_strlit("s");
        reveal_strlit("m");
    }
    let (unit, len): (DurationUnit, usize) = if text::has_suffix(
        trimmed,
        text::to_chars("ms").as_slice(),
    ) {
        (DurationUnit::Milliseconds, trimmed.len() - 2)
    } else if text::has_suffix(trimmed, text::to_chars("s").as_slice()) {
        (DurationUnit::Seconds, trimmed.len() - 1)
    } else if text::has_suffix(trimmed, text::to_chars("m").as_slice()) {
        (DurationUnit::Minutes, trimmed.len() - 1)
    } else {
        (DurationUnit::Unmarked, trimmed.len())
    };
    let digits = slice_subrange(trimmed, 0, len);
    assert(digits@ =~= split_unit(trimmed@).1);
    match number::parse_real(digits) {
        Ok(value) => duration_from_secs(convert(value, unit)),
        Err(cause) => Err(
            DurationError::Number { unit, number: text::from_chars(digits), cause },
        ),
    }
}

/// The words that name a unit in a message.
pub open spec fn unit_words(unit: DurationUnit) -> Seq<char> {
    match unit {
        DurationUnit::Milliseconds => "invalid millisecond duration: "@,
        DurationUnit::Seconds => "invalid second duration: "@,
        DurationUnit::Minutes => "invalid minute duration: "@,
        DurationUnit::Unmarked => "invalid duration: "@,
    }
}

/// The words for a fault of a duration.
pub open spec fn duration_error_text(e: DurationFault) -> Seq<char> {
    match e {
        DurationFault::Empty => "duration cannot be empty"@,
        DurationFault::Number { unit, number, cause } => unit_words(unit) + text::debug_text(number)
            + ": "@ + number::number_error_text(cause),
        DurationFault::Range => "duration must be a non-negative finite number"@,
    }
}

impl DurationError {
    /// The words for the fault.
    pub fn message(&self) -> (r: String)
        ensures
            r@ == duration_error_text(self@),
    {
        match self {
            DurationError::Empty => "duration cannot be empty".to_string(),
            DurationError::Number { unit, number, cause } => {
                let words = match unit {
                    DurationUnit::Milliseconds => "invalid millisecond duration: ",
                    DurationUnit::Seconds => "invalid second duration: ",
                    DurationUnit::Minutes => "invalid minute duration: ",
                    DurationUnit::Unmarked => "invalid duration: ",
                };
                text::quoted_fault(
                    words,
                    text::quoted(number.as_str()).as_str(),
                    cause.message().as_str(),
                )
            },
            DurationError::Range => "duration must be a non-negative finite number".to_string(),
        }
    }
}

} // verus!
