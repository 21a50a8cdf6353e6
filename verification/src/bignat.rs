//! Natural numbers of any size, as far as decimal conversion needs them.
use vstd::arithmetic::power2::*;
use vstd::prelude::*;

verus! {

/// What a little-endian sequence of 32-bit limbs stands for.
pub open spec fn limbs_value(s: Seq<u32>) -> nat
    decreases s.len(),
{
    if s.len() == 0 {
        0
    } else {
        limbs_value(s.drop_last()) + s.last() as nat * limb_weight((s.len() - 1) as nat)
    }
}

/// The weight of the limb at position `i`.
pub open spec fn limb_weight(i: nat) -> nat
    decreases i,
{
    if i == 0 {
        1
    } else {
        0x1_0000_0000 * limb_weight((i - 1) as nat)
    }
}

/// A natural number without an upper bound.
pub struct BigNat {
    limbs: Vec<u32>,
}

impl View for BigNat {
    type V = nat;

    closed spec fn view(&self) -> nat {
        limbs_value(self.limbs@)
    }
}

proof fn lemma_value_push(s: Seq<u32>, x: u32)
    ensures
        limbs_value(s.push(x)) == limbs_value(s) + x as nat * limb_weight(s.len()),
{
    assert(s.push(x).drop_last() =~= s);
}

proof fn lemma_value_take(s: Seq<u32>, i: int)
    requires
        0 <= i < s.len(),
    ensures
        limbs_value(s.take(i + 1)) == limbs_value(s.take(i)) + s[i] as nat * limb_weight(i as nat),
{
    assert(s.take(i + 1).drop_last() =~= s.take(i));
}

/// Fewer limbs than `i` stand for less than the weight of position `i`.
proof fn lemma_value_bound(s: Seq<u32>)
    ensures
        limbs_value(s) < limb_weight(s.len()),
    decreases s.len(),
{
    if s.len() > 0 {
        lemma_value_bound(s.drop_last());
        let w = limb_weight((s.len() - 1) as nat);
        let x = s.last() as nat;
        assert(x * w + w <= 0x1_0000_0000 * w) by (nonlinear_arith)
            requires
                x < 0x1_0000_0000,
        ;
    }
}

impl BigNat {
    /// The number `x`.
    pub fn from_u64(x: u64) -> (r: Self)
        ensures
            r@ == x,
    {
        let lo: u32 = (x % 0x1_0000_0000) as u32;
        let hi: u32 = (x / 0x1_0000_0000) as u32;
        let mut limbs: Vec<u32> = Vec::new();
        let ghost e = limbs@;
        limbs.push(lo);
        let ghost f = limbs@;
        limbs.push(hi);
        proof {
            lemma_value_push(e, lo);
            lemma_value_push(f, hi);
            assert(limb_weight(0) == 1);
            assert(limb_weight(1) == 0x1_0000_0000) by {
                reveal_with_fuel(limb_weight, 2);
            }
            let (w0, w1) = (limb_weight(0), limb_weight(1));
            assert(lo as nat * w0 + hi as nat * w1 == x) by (nonlinear_arith)
                requires
                    w0 == 1,
                    w1 == 0x1_0000_0000,
                    lo + hi * 0x1_0000_0000 == x,
            ;
        }
        BigNat { limbs }
    }

    /// A second copy of the number.
    pub fn copy(&self) -> (r: Self)
        ensures
            r@ == self@,
    {
        let mut limbs: Vec<u32> = Vec::new();
        for i in 0..self.limbs.len()
            invariant
                limbs@ == self.limbs@.take(i as int),
        {
            limbs.push(self.limbs[i]);
        }
        assert(limbs@ =~= self.limbs@);
        BigNat { limbs }
    }

    /// `self * m + a`.
    pub fn mul_add(&mut self, m: u32, a: u32)
        ensures
            final(self)@ == old(self)@ * m + a,
    {
        let mut out: Vec<u32> = Vec::new();
        let mut carry: u64 = a as u64;
        let n = self.limbs.len();
        proof {
            assert(carry as nat * limb_weight(0) == a) by (nonlinear_arith)
                requires
                    limb_weight(0) == 1,
                    carry == a,
            ;
            assert(limbs_value(self.limbs@.take(0)) == 0);
        }
        for i in 0..n
            invariant
                n == self.limbs.len(),
                out.len() == i,
                carry < 0x1_0000_0000,
                limbs_value(out@) + carry as nat * limb_weight(i as nat) == limbs_value(
                    self.limbs@.take(i as int),
                ) * m + a,
        {
            let x: u32 = self.limbs[i];
            proof {
                assert(0 <= x * m <= 0xffff_fffe_0000_0001) by (nonlinear_arith)
                    requires
                        x <= 0xffff_ffffu32,
                        m <= 0xffff_ffffu32,
                ;
            }
            let t: u64 = x as u64 * m as u64 + carry;
            let lo: u32 = (t % 0x1_0000_0000) as u32;
            let hi: u64 = t / 0x1_0000_0000;
            proof {
                lemma_value_push(out@, lo);
                lemma_value_take(self.limbs@, i as int);
                let w = limb_weight(i as nat);
                let w1 = limb_weight((i + 1) as nat);
                assert(w1 == 0x1_0000_0000 * w);
                let v = limbs_value(self.limbs@.take(i as int));
                assert(lo as nat * w + hi as nat * w1 == x as nat * m as nat * w + carry as nat * w)
                    by (nonlinear_arith)
                    requires
                        w1 == 0x1_0000_0000 * w,
                        lo + hi * 0x1_0000_0000 == x * m + carry,
                ;
                assert((v + x as nat * w) * m == v * m + x as nat * m as nat * w)
                    by (nonlinear_arith);
            }
            out.push(lo);
            carry = hi;
        }
        proof {
            assert(self.limbs@.take(n as int) =~= self.limbs@);
            lemma_value_push(out@, carry as u32);
        }
        out.push(carry as u32);
        self.limbs = out;
    }

    /// `self * 2^k`.
    pub fn shift(&mut self, k: u32)
        ensures
            final(self)@ == old(self)@ * pow2(k as nat),
    {
        let mut left: u32 = k;
        proof {
            lemma2_to64();
        }
        while left > 0
            invariant
                left <= k,
                self@ * pow2(left as nat) == old(self)@ * pow2(k as nat),
            decreases left,
        {
            let ghost v = self@;
            if left >= 16 {
                proof {
                    lemma_pow2_adds(16, (left - 16) as nat);
                    lemma2_to64();
                    assert(v * pow2(left as nat) == (v * 0x1_0000) * pow2((left - 16) as nat))
                        by (nonlinear_arith)
                        requires
                            pow2(left as nat) == 0x1_0000 * pow2((left - 16) as nat),
                    ;
                }
                self.mul_add(0x1_0000, 0);
                left = left - 16;
            } else {
                proof {
                    lemma_pow2_adds(1, (left - 1) as nat);
                    lemma2_to64();
                    assert(v * pow2(left as nat) == (v * 2) * pow2((left - 1) as nat))
                        by (nonlinear_arith)
                        requires
                            pow2(left as nat) == 2 * pow2((left - 1) as nat),
                    ;
                }
                self.mul_add(2, 0);
                left = left - 1;
            }
        }
        proof {
            lemma2_to64();
            assert(self@ * pow2(0) == self@) by (nonlinear_arith)
                requires
                    pow2(0) == 1,
            ;
        }
    }

    /// The limb at position `i`, zero beyond the last one.
    fn limb(&self, i: usize) -> (x: u32)
        ensures
            x == if i < self.limbs.len() {
                self.limbs[i as int]
            } else {
                0
            },
    {
        if i < self.limbs.len() {
            self.limbs[i]
        } else {
            0
        }
    }

    /// Whether `self < other`.
    pub fn less(&self, other: &Self) -> (b: bool)
        ensures
            b == (self@ < other@),
    {
        let n: usize = if self.limbs.len() < other.limbs.len() {
            other.limbs.len()
        } else {
            self.limbs.len()
        };
        let ghost p = padded(self.limbs@, n as nat);
        let ghost q = padded(other.limbs@, n as nat);
        proof {
            lemma_padded(self.limbs@, n as nat);
            lemma_padded(other.limbs@, n as nat);
            assert(p.take(n as int) =~= p);
            assert(q.take(n as int) =~= q);
        }
        let mut i: usize = n;
        while i > 0
            invariant
                i <= n,
                p == padded(self.limbs@, n as nat),
                q == padded(other.limbs@, n as nat),
                n >= self.limbs.len(),
                n >= other.limbs.len(),
                self@ == limbs_value(p),
                other@ == limbs_value(q),
                limbs_value(p) - limbs_value(p.take(i as int)) == limbs_value(q) - limbs_value(
                    q.take(i as int),
                ),
            decreases i,
        {
            let x: u32 = self.limb(i - 1);
            let y: u32 = other.limb(i - 1);
            proof {
                lemma_value_take(p, i - 1);
                lemma_value_take(q, i - 1);
                lemma_value_bound(p.take(i - 1));
                lemma_value_bound(q.take(i - 1));
                let w = limb_weight((i - 1) as nat);
                if x < y {
                    assert(x as nat * w + w <= y as nat * w) by (nonlinear_arith)
                        requires
                            x < y,
                    ;
                }
                if y < x {
                    assert(y as nat * w + w <= x as nat * w) by (nonlinear_arith)
                        requires
                            y < x,
                    ;
                }
            }
            if x != y {
                return x < y;
            }
            i = i - 1;
        }
        false
    }

    /// `self - other`, for `other` not above `self`.
    pub fn subtract(&mut self, other: &Self)
        requires
            other@ <= old(self)@,
        ensures
            final(self)@ == old(self)@ - other@,
    {
        let n: usize = if self.limbs.len() < other.limbs.len() {
            other.limbs.len()
        } else {
            self.limbs.len()
        };
        let ghost p = padded(self.limbs@, n as nat);
        let ghost q = padded(other.limbs@, n as nat);
        proof {
            lemma_padded(self.limbs@, n as nat);
            lemma_padded(other.limbs@, n as nat);
        }
        let mut out: Vec<u32> = Vec::new();
        let mut borrow: u64 = 0;
        for i in 0..n
            invariant
                p == padded(self.limbs@, n as nat),
                q == padded(other.limbs@, n as nat),
                n >= self.limbs.len(),
                n >= other.limbs.len(),
                out.len() == i,
                borrow <= 1,
                limbs_value(out@) + limbs_value(q.take(i as int)) == limbs_value(p.take(i as int))
                    + borrow as nat * limb_weight(i as nat),
        {
            let x: u64 = self.limb(i) as u64;
            let y: u64 = other.limb(i) as u64 + borrow;
            let (d, b): (u32, u64) = if x >= y {
                ((x - y) as u32, 0)
            } else {
                ((x + 0x1_0000_0000 - y) as u32, 1)
            };
            proof {
                lemma_value_push(out@, d);
                lemma_value_take(p, i as int);
                lemma_value_take(q, i as int);
                let w = limb_weight(i as nat);
                let w1 = limb_weight((i + 1) as nat);
                let y0 = other.limbs@;
                assert(w1 == 0x1_0000_0000 * w);
                assert(d as nat * w + q[i as int] as nat * w + borrow as nat * w == p[i as int] as nat
                    * w + b as nat * w1) by (nonlinear_arith)
                    requires
                        w1 == 0x1_0000_0000 * w,
                        d + q[i as int] + borrow == p[i as int] + b * 0x1_0000_0000,
                ;
            }
            out.push(d);
            borrow = b;
        }
        proof {
            assert(p.take(n as int) =~= p);
            assert(q.take(n as int) =~= q);
            lemma_value_bound(out@);
            let w = limb_weight(n as nat);
            assert(borrow == 1 ==> borrow as nat * w == w);
        }
        self.limbs = out;
    }
}

/// The limbs followed by zeros up to length `n`.
spec fn padded(s: Seq<u32>, n: nat) -> Seq<u32> {
    Seq::new(
        n,
        |i: int|
            if i < s.len() {
                s[i]
            } else {
                0u32
            },
    )
}

proof fn lemma_padded(s: Seq<u32>, n: nat)
    requires
        s.len() <= n,
    ensures
        limbs_value(padded(s, n)) == limbs_value(s),
    decreases n,
{
    if s.len() == n {
        assert(padded(s, n) =~= s);
    } else {
        lemma_padded(s, (n - 1) as nat);
        assert(padded(s, n).drop_last() =~= padded(s, (n - 1) as nat));
        let x = padded(s, n).last() as nat;
        assert(x * limb_weight((n - 1) as nat) == 0) by (nonlinear_arith)
            requires
                x == 0,
        ;
    }
}

} // verus!
