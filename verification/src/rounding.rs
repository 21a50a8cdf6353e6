//! Rounding of ratios: to whole numbers and to double precision.
//!
//! A finite non-negative double-precision number is a whole multiple of
//! `2^-1074`. It is held here as that multiple, a natural number of *units*,
//! so every statement about it is one about natural numbers.
use crate::bignat::BigNat;
use vstd::arithmetic::div_mod::*;
use vstd::arithmetic::mul::*;
use vstd::arithmetic::power2::*;
use vstd::prelude::*;

verus! {

/// The whole number nearest to `n / d`; of two equally near ones, the even one.
pub open spec fn half_even(n: nat, d: nat) -> nat {
    let q = n / d;
    let r = n % d;
    if 2 * r < d || (2 * r == d && q % 2 == 0) {
        q
    } else {
        q + 1
    }
}

/// The whole number nearest to `n / d`; of two equally near ones, the larger one.
pub open spec fn half_up(n: nat, d: nat) -> nat {
    if 2 * (n % d) < d {
        n / d
    } else {
        n / d + 1
    }
}

/// `2^e` is the spacing of 53-bit numbers around `n / d`, or the least spacing, one.
pub open spec fn is_spacing(n: nat, d: nat, e: nat) -> bool {
    &&& n < pow2(53) * (d * pow2(e))
    &&& e > 0 ==> n >= pow2(52) * (d * pow2(e))
}

/// The number of at most 53 significant bits that is nearest to `n / d`; of two equally near
/// ones, the one whose last bit is zero.
pub open spec fn nearest(n: nat, d: nat) -> nat {
    let e = choose|e: nat| is_spacing(n, d, e);
    half_even(n, d * pow2(e)) * pow2(e)
}

/// Around one ratio there is one spacing.
pub proof fn lemma_spacing_unique(n: nat, d: nat, e: nat, f: nat)
    requires
        is_spacing(n, d, e),
        is_spacing(n, d, f),
    ensures
        e == f,
{
    if e < f {
        lemma_spacing_order(n, d, e, f);
    } else if f < e {
        lemma_spacing_order(n, d, f, e);
    }
}

proof fn lemma_spacing_order(n: nat, d: nat, e: nat, f: nat)
    requires
        is_spacing(n, d, e),
        e < f,
    ensures
        !is_spacing(n, d, f),
{
    let a = pow2(e);
    let b = pow2(f);
    lemma_pow2_adds(e, (f - e) as nat);
    lemma_pow2_unfold((f - e) as nat);
    lemma_pow2_pos((f - e - 1) as nat);
    let c = pow2((f - e) as nat);
    assert(c >= 2);
    lemma_pow2_unfold(53);
    let p = pow2(52);
    assert(p * (d * b) >= (2 * p) * (d * a)) by (nonlinear_arith)
        requires
            b == a * c,
            c >= 2,
    ;
}

/// `nearest` for the spacing at hand.
pub proof fn lemma_nearest_at(n: nat, d: nat, e: nat)
    requires
        is_spacing(n, d, e),
    ensures
        nearest(n, d) == half_even(n, d * pow2(e)) * pow2(e),
{
    let f = choose|f: nat| is_spacing(n, d, f);
    lemma_spacing_unique(n, d, e, f);
}

/// Quotient and remainder of `n / d`, for a quotient below `2^bits`.
pub fn div_rem(n: BigNat, d: &BigNat, bits: u32) -> (res: (u128, BigNat))
    requires
        d@ > 0,
        bits <= 127,
        n@ < d@ * pow2(bits as nat),
    ensures
        res.0 == n@ / d@,
        res.1@ == n@ % d@,
        res.0 < pow2(bits as nat),
{
    let ghost n0 = n@;
    let mut q: u128 = 0;
    let mut r: BigNat = n;
    let mut j: u32 = bits;
    proof {
        lemma2_to64();
        assert(0nat * (d@ * pow2(bits as nat)) == 0);
    }
    while j > 0
        invariant
            j <= bits,
            bits <= 127,
            d@ > 0,
            n0 == q as nat * (d@ * pow2(j as nat)) + r@,
            r@ < d@ * pow2(j as nat),
            q < pow2((bits - j) as nat),
        decreases j,
    {
        let mut t: BigNat = d.copy();
        t.shift(j - 1);
        proof {
            let a = pow2((j - 1) as nat);
            lemma_pow2_unfold(j as nat);
            lemma_pow2_unfold((bits - j + 1) as nat);
            assert(d@ * pow2(j as nat) == 2 * t@) by (nonlinear_arith)
                requires
                    pow2(j as nat) == 2 * a,
                    t@ == d@ * a,
            ;
            assert(q as nat * (2 * t@) == (2 * q as nat) * t@) by (nonlinear_arith);
            assert((2 * q as nat + 1) * t@ == (2 * q as nat) * t@ + t@) by (nonlinear_arith);
            lemma_small_power(bits, j);
        }
        if r.less(&t) {
            q = 2 * q;
        } else {
            r.subtract(&t);
            q = 2 * q + 1;
        }
        j = j - 1;
    }
    proof {
        lemma2_to64();
        assert(d@ * pow2(0) == d@) by (nonlinear_arith)
            requires
                pow2(0) == 1,
        ;
        assert(n0 == d@ * q as nat + r@) by (nonlinear_arith)
            requires
                n0 == q as nat * d@ + r@,
        ;
        lemma_fundamental_div_mod_converse(n0 as int, d@ as int, q as int, r@ as int);
    }
    (q, r)
}

/// Doubling stays within 128 bits while bits are left to find.
proof fn lemma_small_power(bits: u32, j: u32)
    requires
        0 < j <= bits <= 127,
    ensures
        2 * pow2((bits - j) as nat) <= 0x8000_0000_0000_0000_0000_0000_0000_0000,
{
    lemma_pow2_unfold((bits - j + 1) as nat);
    if bits - j + 1 < 127 {
        lemma_pow2_strictly_increases((bits - j + 1) as nat, 127);
    }
    lemma_pow2_adds(64, 63);
    lemma2_to64();
    lemma2_to64_rest();
}

/// The whole number nearest to `n / d`, for a quotient below `2^bits`.
pub fn round_half_even(n: BigNat, d: &BigNat, bits: u32) -> (m: u128)
    requires
        d@ > 0,
        bits <= 127,
        n@ < d@ * pow2(bits as nat),
    ensures
        m == half_even(n@, d@),
        m <= pow2(bits as nat),
{
    let (q, mut r) = div_rem(n, d, bits);
    proof {
        lemma_small_power(127, 1);
        if bits < 127 {
            lemma_pow2_strictly_increases(bits as nat, 127);
        }
        lemma_pow2_unfold(127);
    }
    r.mul_add(2, 0);
    if r.less(d) {
        q
    } else if !d.less(&r) && q % 2 == 0 {
        q
    } else {
        q + 1
    }
}

/// The whole number nearest to `n / d`, halves upward, for a quotient below `2^bits`.
pub fn round_half_up(n: BigNat, d: &BigNat, bits: u32) -> (m: u128)
    requires
        d@ > 0,
        bits <= 127,
        n@ < d@ * pow2(bits as nat),
    ensures
        m == half_up(n@, d@),
{
    let (q, mut r) = div_rem(n, d, bits);
    proof {
        lemma_small_power(127, 1);
        if bits < 127 {
            lemma_pow2_strictly_increases(bits as nat, 127);
        }
        lemma_pow2_unfold(127);
    }
    r.mul_add(2, 0);
    if r.less(d) {
        q
    } else {
        q + 1
    }
}

/// The bound on the ratios that are rounded to double precision.
pub const RATIO_BITS: u32 = 4000;

/// The double-precision number nearest to `n / d` units, as a mantissa and a power of two.
pub fn round_ratio(n: BigNat, d: &BigNat) -> (res: (u64, u32))
    requires
        d@ > 0,
        n@ < d@ * pow2(RATIO_BITS as nat),
    ensures
        res.0 as nat * pow2(res.1 as nat) == nearest(n@, d@),
        res.0 <= pow2(53),
        res.1 <= RATIO_BITS,
{
    let mut e: u32 = 0;
    let mut step: BigNat = d.copy();
    let mut limit: BigNat = d.copy();
    limit.shift(53);
    proof {
        lemma2_to64();
        assert(d@ * pow2(0) == d@) by (nonlinear_arith)
            requires
                pow2(0) == 1,
        ;
        lemma_mul_is_commutative(d@ as int, pow2(53) as int);
    }
    while !n.less(&limit)
        invariant
            d@ > 0,
            n@ < d@ * pow2(RATIO_BITS as nat),
            e <= RATIO_BITS,
            step@ == d@ * pow2(e as nat),
            limit@ == pow2(53) * (d@ * pow2(e as nat)),
            e > 0 ==> n@ >= pow2(52) * (d@ * pow2(e as nat)),
        ensures
            d@ > 0,
            e <= RATIO_BITS,
            step@ == d@ * pow2(e as nat),
            limit@ == pow2(53) * (d@ * pow2(e as nat)),
            e > 0 ==> n@ >= pow2(52) * (d@ * pow2(e as nat)),
            n@ < limit@,
        decreases RATIO_BITS - e,
    {
        proof {
            let a = pow2(e as nat);
            lemma_pow2_unfold((e + 1) as nat);
            lemma_pow2_unfold(53);
            let p = pow2(52);
            assert(d@ * (2 * a) == (d@ * a) * 2) by (nonlinear_arith);
            assert((2 * p) * ((d@ * a) * 2) == ((2 * p) * (d@ * a)) * 2) by (nonlinear_arith);
            assert(p * ((d@ * a) * 2) == (2 * p) * (d@ * a)) by (nonlinear_arith);
            if e == RATIO_BITS {
                lemma_pow2_pos(53);
                assert(pow2(53) * (d@ * a) >= d@ * a) by (nonlinear_arith)
                    requires
                        pow2(53) >= 1,
                ;
                assert(false);
            }
        }
        step.mul_add(2, 0);
        limit.mul_add(2, 0);
        e = e + 1;
    }
    proof {
        lemma_nearest_at(n@, d@, e as nat);
        lemma_pow2_pos(e as nat);
        lemma_mul_strictly_positive(d@ as int, pow2(e as nat) as int);
        lemma_mul_is_commutative(step@ as int, pow2(53) as int);
        lemma2_to64_rest();
    }
    let m = round_half_even(n, &step, 53);
    (m as u64, e)
}

} // verus!
