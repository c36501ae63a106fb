//! Small integer helpers: greatest common divisor, alignment rounding,
//! ceiling division, and an explicit walk over the set bits of a word.

use vstd::prelude::*;

verus! {

use vstd::arithmetic::div_mod::{lemma_fundamental_div_mod, lemma_mod_multiples_basic};
use vstd::arithmetic::power2::{
    lemma2_to64, lemma2_to64_rest, lemma_pow2_pos, lemma_pow2_unfold, pow2,
};

/// Euclid's greatest common divisor, with `spec_gcd(a, 0) == a`.
pub open spec fn spec_gcd(a: nat, b: nat) -> nat
    decreases b,
{
    if b == 0 {
        a
    } else {
        spec_gcd(b, a % b)
    }
}

/// Ceiling division: the least `q` with `q * b >= a` (for `a >= 0 < b`).
pub open spec fn div_ceil(a: int, b: int) -> int
    recommends
        a >= 0,
        b > 0,
{
    (a + b - 1) / b
}

/// `div_ceil` rounds up: it covers `a` and overshoots by less than `b`.
pub proof fn lemma_div_ceil_bounds(a: int, b: int)
    requires
        a >= 0,
        b > 0,
    ensures
        div_ceil(a, b) >= 0,
        div_ceil(a, b) * b >= a,
        div_ceil(a, b) * b < a + b,
        a == 0 ==> div_ceil(a, b) == 0,
        a > 0 ==> div_ceil(a, b) >= 1,
{
    let s = a + b - 1;
    lemma_fundamental_div_mod(s, b);
    assert(s == b * (s / b) + s % b);
    assert(div_ceil(a, b) * b == s - s % b) by (nonlinear_arith)
        requires
            b > 0,
            s == b * (s / b) + s % b,
            div_ceil(a, b) == s / b,
    ;
    assert(0 <= s % b < b);
    assert(div_ceil(a, b) >= 0 && (a > 0 ==> div_ceil(a, b) >= 1) && (a == 0 ==> div_ceil(
        a,
        b,
    ) == 0)) by (nonlinear_arith)
        requires
            b > 0,
            div_ceil(a, b) * b >= a,
            div_ceil(a, b) * b < a + b,
            a >= 0,
    ;
}

/// Ceiling base-2 logarithm: the least `n` with `v <= pow2(n)`, and 0 for
/// `v <= 1`.
pub open spec fn log2_ceil(v: int) -> nat
    decreases v,
{
    if v <= 1 {
        0
    } else {
        1 + log2_ceil((v + 1) / 2)
    }
}

/// Ceiling division never exceeds its dividend (for a positive divisor).
pub proof fn lemma_div_ceil_le(a: int, b: int)
    requires
        a >= 0,
        b >= 1,
    ensures
        div_ceil(a, b) <= a,
{
    lemma_div_ceil_bounds(a, b);
    assert(div_ceil(a, b) <= a) by (nonlinear_arith)
        requires
            a >= 0,
            b >= 1,
            div_ceil(a, b) >= 0,
            div_ceil(a, b) * b < a + b,
    ;
}

/// `pow2` is monotone.
pub proof fn lemma_pow2_le(e1: nat, e2: nat)
    requires
        e1 <= e2,
    ensures
        pow2(e1) <= pow2(e2),
{
    if e1 < e2 {
        vstd::arithmetic::power2::lemma_pow2_strictly_increases(e1, e2);
    }
}

pub proof fn lemma_log2_ceil_le(v: int, e: nat)
    requires
        v <= pow2(e),
    ensures
        log2_ceil(v) <= e,
    decreases v,
{
    if v > 1 {
        lemma_pow2_pos(e);
        if e == 0 {
            assert(pow2(0) == 1) by {
                lemma2_to64();
            }
            assert(false);
        } else {
            lemma_pow2_unfold(e);
            assert((v + 1) / 2 <= pow2((e - 1) as nat));
            lemma_log2_ceil_le((v + 1) / 2, (e - 1) as nat);
        }
    }
}

/// `pow2(log2_ceil(v))` indeed reaches `v`.
pub proof fn lemma_log2_ceil_covers(v: int)
    requires
        v >= 0,
    ensures
        v <= pow2(log2_ceil(v)),
    decreases v,
{
    if v <= 1 {
        lemma_pow2_pos(0);
    } else {
        let h = (v + 1) / 2;
        lemma_log2_ceil_covers(h);
        lemma_pow2_unfold(log2_ceil(v));
        assert(v <= 2 * h);
    }
}

/// Computes `log2_ceil` of a 32-bit value.
pub fn ilog2_ceil(v: u32) -> (r: u32)
    ensures
        r == log2_ceil(v as int),
        r <= 32,
        v <= pow2(r as nat),
{
    proof {
        lemma2_to64();
        lemma2_to64_rest();
        lemma_log2_ceil_le(v as int, 32);
        lemma_log2_ceil_covers(v as int);
    }
    let mut e: u32 = 0;
    let mut cur: u32 = v;
    while cur > 1
        invariant
            log2_ceil(v as int) == e + log2_ceil(cur as int),
            e <= log2_ceil(v as int) <= 32,
        decreases cur,
    {
        cur = (cur - 1) / 2 + 1;
        e = e + 1;
    }
    e
}

/// `spec_gcd` is a common divisor of its arguments.
pub proof fn lemma_gcd_divides(a: nat, b: nat)
    requires
        b > 0,
    ensures
        spec_gcd(a, b) > 0,
        a % spec_gcd(a, b) == 0,
        b % spec_gcd(a, b) == 0,
    decreases b,
{
    let g = spec_gcd(a, b);
    if a % b == 0 {
        assert(g == spec_gcd(b, 0));
    } else {
        lemma_gcd_divides(b, a % b);
        assert(g == spec_gcd(b, a % b));
        lemma_fundamental_div_mod(a as int, b as int);
        lemma_fundamental_div_mod(b as int, g as int);
        lemma_fundamental_div_mod((a % b) as int, g as int);
        let k = b as int / g as int;
        let m = (a % b) as int / g as int;
        let q = a as int / b as int;
        assert(a == (k * q + m) * g) by (nonlinear_arith)
            requires
                a == b * q + (a % b),
                b == g * k,
                a % b == g * m,
        ;
        lemma_mod_multiples_basic(k * q + m, g as int);
    }
}

/// Every common divisor of the arguments divides `spec_gcd`: together
/// with `lemma_gcd_divides` this pins `spec_gcd` down as the greatest
/// common divisor.
pub proof fn lemma_gcd_greatest(a: nat, b: nat, d: nat)
    requires
        d > 0,
        a % d == 0,
        b % d == 0,
    ensures
        spec_gcd(a, b) % d == 0,
    decreases b,
{
    if b == 0 {
    } else {
        assert((a % b) % d == 0) by {
            lemma_fundamental_div_mod(a as int, b as int);
            lemma_fundamental_div_mod(a as int, d as int);
            lemma_fundamental_div_mod(b as int, d as int);
            let p = a as int / d as int;
            let q = b as int / d as int;
            let t = a as int / b as int;
            assert(a % b == (p - q * t) * d) by (nonlinear_arith)
                requires
                    a == b * t + (a % b),
                    a == d * p,
                    b == d * q,
            ;
            lemma_mod_multiples_basic(p - q * t, d as int);
        }
        lemma_gcd_greatest(b, a % b, d);
    }
}

pub fn gcd(a: u64, b: u64) -> (r: u64)
    requires
        b > 0,
    ensures
        r == spec_gcd(a as nat, b as nat),
{
    let mut x = a;
    let mut y = b;
    let mut c: u64 = x % y;
    while c != 0
        invariant
            y > 0,
            c == x % y,
            spec_gcd(x as nat, y as nat) == spec_gcd(a as nat, b as nat),
        decreases y,
    {
        x = y;
        y = c;
        c = x % y;
    }
    proof {
        assert(spec_gcd(x as nat, y as nat) == spec_gcd(y as nat, 0));
    }
    y
}

pub fn align(val: u64, a: u64) -> (r: u64)
    requires
        a > 0,
        val % a != 0 ==> val - val % a + a <= u64::MAX,
    ensures
        r % a == 0,
        val <= r < val + a,
        r == if val % a == 0 {
            val as int
        } else {
            val - val % a + a
        },
{
    let tmp = val % a;
    if tmp == 0 {
        val
    } else {
        proof {
            lemma_fundamental_div_mod(val as int, a as int);
            assert(val - tmp + a == a * (val as int / a as int + 1)) by (nonlinear_arith)
                requires
                    a > 0,
                    val == a * (val as int / a as int) + tmp,
            ;
            lemma_mod_multiples_basic(val as int / a as int + 1, a as int);
        }
        val + (a - tmp)
    }
}

pub fn div_round_up(a: u64, b: u64) -> (r: u64)
    requires
        b > 0,
        a + b - 1 <= u64::MAX,
    ensures
        r == div_ceil(a as int, b as int),
        r * b >= a,
        r * b < a + b,
{
    proof {
        lemma_div_ceil_bounds(a as int, b as int);
    }
    (a + (b - 1)) / b
}

/// Walks the set bits of a word from the most significant end down.
pub struct SetBitIndices<T> {
    pub val: T,
}

impl<T> SetBitIndices<T> {
    pub fn from_msb(val: T) -> (r: Self)
        ensures
            r.val == val,
    {
        Self { val }
    }
}

impl SetBitIndices<u32> {
    /// Yields the index of the highest bit still set (the unique `pos` with
    /// `val >> pos == 1`) and clears it, or `None` once the word is zero.
    pub fn next(&mut self) -> (r: Option<u32>)
        ensures
            old(self).val == 0 ==> r is None && final(self).val == 0,
            old(self).val != 0 ==> match r {
                Some(pos) => {
                    &&& pos < 32
                    &&& old(self).val >> pos == 1u32
                    &&& final(self).val == old(self).val ^ (1u32 << pos)
                },
                None => false,
            },
    {
        if self.val == 0 {
            None
        } else {
            let mut pos: u32 = 0;
            let mut tmp: u32 = self.val;
            proof {
                let v = self.val;
                assert(v >> 0u32 == v) by (bit_vector);
            }
            while tmp >= 2
                invariant
                    1 <= tmp,
                    pos < 32,
                    self.val >> pos == tmp,
                decreases tmp,
            {
                proof {
                    let v = self.val;
                    let p = pos;
                    assert(v >> p >= 2 ==> p < 31 && (v >> p) / 2 == v >> ((p + 1) as u32))
                        by (bit_vector);
                }
                tmp = tmp / 2;
                pos = pos + 1;
            }
            self.val = self.val ^ (1u32 << pos);
            Some(pos)
        }
    }
}

} // verus!
