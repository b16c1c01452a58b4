//! Non-negative binary64 figures held as integers.
//!
//! Shares, rates and scores are quotients that are printed with one or two
//! decimals. They are computed as IEEE 754 binary64 computes them: every
//! operation gives the 53-bit value nearest to its exact result, a tie going to
//! the even one. A figure is `mant * 2^exp`, with `mant` normalised to 53 bits.

use vstd::arithmetic::power2::{lemma_pow2_adds, lemma_pow2_pos, lemma_pow2_strictly_increases, lemma_pow2_unfold, pow2};
use vstd::prelude::*;

verus! {

/// The least 53-bit mantissa.
pub const MANT_MIN: u64 = 0x10_0000_0000_0000;

/// One more than the greatest 53-bit mantissa.
pub const MANT_END: u64 = 0x20_0000_0000_0000;

/// The figure `mant * 2^exp`; zero has a zero mantissa and exponent.
#[derive(Clone, Copy, Debug, PartialEq, Eq, Structural)]
pub struct Binary64 {
    pub mant: u64,
    pub exp: i32,
}

/// The integer nearest to `num / den`, the even one of two equally near.
pub open spec fn half_even(num: nat, den: nat) -> nat {
    let q = num / den;
    let r = num % den;
    if 2 * r < den || (2 * r == den && q % 2 == 0) {
        q
    } else {
        q + 1
    }
}

/// `num / den * 2^exp` rounded to an integer multiple of `2^exp`, for a
/// quotient of 53 bits.
pub open spec fn settled(num: nat, den: nat, exp: int) -> Binary64 {
    let m = half_even(num, den);
    if m >= MANT_END {
        Binary64 { mant: MANT_MIN, exp: (exp + 1) as i32 }
    } else {
        Binary64 { mant: m as u64, exp: exp as i32 }
    }
}

/// The figure nearest to `num / den * 2^exp`, for a quotient of at most 53 bits.
pub open spec fn grown(num: nat, den: nat, exp: int) -> Binary64
    decreases (if num < den * 0x10_0000_0000_0000nat { den * 0x10_0000_0000_0000nat - num } else { 0 }),
{
    if num == 0 || num >= den * 0x10_0000_0000_0000nat {
        settled(num, den, exp)
    } else {
        grown(2 * num, den, exp - 1)
    }
}

/// The figure nearest to `num / den * 2^exp`, for a quotient of at least 53 bits.
pub open spec fn shrunk(num: nat, den: nat, exp: int) -> Binary64
    decreases (if num >= den * 0x20_0000_0000_0000nat { num - den } else { 0 }),
{
    if den == 0 || num < den * 0x20_0000_0000_0000nat {
        settled(num, den, exp)
    } else {
        shrunk(num, 2 * den, exp + 1)
    }
}

pub open spec fn zero() -> Binary64 {
    Binary64 { mant: 0, exp: 0 }
}

/// The figure nearest to the integer `n`.
pub open spec fn whole(n: nat) -> Binary64 {
    if n == 0 {
        zero()
    } else if n < 0x20_0000_0000_0000 {
        grown(n, 1, 0)
    } else {
        shrunk(n, 1, 0)
    }
}

/// The figure nearest to `a * b`.
pub open spec fn product(a: Binary64, b: Binary64) -> Binary64 {
    if a.mant == 0 || b.mant == 0 {
        zero()
    } else {
        shrunk((a.mant * b.mant) as nat, 1, a.exp + b.exp)
    }
}

/// The figure nearest to `a / b`.
pub open spec fn quotient(a: Binary64, b: Binary64) -> Binary64 {
    if a.mant == 0 {
        zero()
    } else {
        grown(a.mant as nat, b.mant as nat, a.exp - b.exp)
    }
}

/// The figure nearest to `a + b`.
pub open spec fn sum(a: Binary64, b: Binary64) -> Binary64 {
    if a.mant == 0 {
        b
    } else if b.mant == 0 {
        a
    } else if a.exp >= b.exp {
        shrunk(a.mant as nat * pow2((a.exp - b.exp) as nat) + b.mant as nat, 1, b.exp as int)
    } else {
        shrunk(b.mant as nat * pow2((b.exp - a.exp) as nat) + a.mant as nat, 1, a.exp as int)
    }
}

/// The figure nearest to `a - b`; zero where `b` is not less than `a`.
pub open spec fn difference(a: Binary64, b: Binary64) -> Binary64 {
    if b.mant == 0 {
        a
    } else if !less(b, a) {
        zero()
    } else {
        let n = whole((a.mant as nat * pow2((a.exp - b.exp) as nat) - b.mant) as nat);
        Binary64 { mant: n.mant, exp: (n.exp + b.exp) as i32 }
    }
}

/// `a < b`.
pub open spec fn less(a: Binary64, b: Binary64) -> bool {
    if a.mant == 0 || b.mant == 0 {
        a.mant < b.mant
    } else {
        a.exp < b.exp || (a.exp == b.exp && a.mant < b.mant)
    }
}

/// The integer nearest to `x * scale`, the even one of two equally near.
pub open spec fn fixed(x: Binary64, scale: nat) -> nat {
    if x.exp >= 0 {
        x.mant as nat * scale * pow2(x.exp as nat)
    } else {
        half_even(x.mant as nat * scale, pow2((-x.exp) as nat))
    }
}

/// The greatest integer that is not greater than `x`.
pub open spec fn floor(x: Binary64) -> nat {
    if x.exp >= 0 {
        x.mant as nat * pow2(x.exp as nat)
    } else {
        x.mant as nat / pow2((-x.exp) as nat)
    }
}

/// The integer nearest to `x`, the greater one of two equally near.
pub open spec fn half_up(x: Binary64) -> nat {
    if x.exp >= 0 {
        x.mant as nat * pow2(x.exp as nat)
    } else {
        (2 * x.mant as nat + pow2((-x.exp) as nat)) / (2 * pow2((-x.exp) as nat))
    }
}

impl Binary64 {
    /// Normalised, and within the range of the normal binary64 numbers.
    pub open spec fn wf(self) -> bool {
        ||| self == zero()
        ||| MANT_MIN <= self.mant < MANT_END && -1074 <= self.exp <= 971
    }
}

/// Rounding moves a quotient by at most one half.
pub proof fn lemma_half_even(num: nat, den: nat)
    requires
        den > 0,
    ensures
        2 * half_even(num, den) * den <= 2 * num + den,
        2 * num <= 2 * half_even(num, den) * den + den,
{
    let q = num / den;
    let r = num % den;
    vstd::arithmetic::div_mod::lemma_fundamental_div_mod(num as int, den as int);
    assert((q + 1) * den == q * den + den) by (nonlinear_arith);
    assert(2 * q * den == 2 * (den * q)) by (nonlinear_arith);
    assert(2 * (q + 1) * den == 2 * (q * den) + 2 * den) by (nonlinear_arith);
    assert(q * den == den * q) by (nonlinear_arith);
}

/// The nearest multiple of `den` bounds: a quotient of 53 bits rounds to 53 bits,
/// or to the one power of two above.
proof fn lemma_settled(num: nat, den: nat, exp: int)
    requires
        den > 0,
        den * 0x10_0000_0000_0000nat <= num < den * 0x20_0000_0000_0000nat,
        -1074 <= exp < 971,
    ensures
        settled(num, den, exp).wf(),
        settled(num, den, exp).exp == exp || settled(num, den, exp).exp == exp + 1,
        0x10_0000_0000_0000 <= half_even(num, den) <= 0x20_0000_0000_0000,
{
    let q = num / den;
    assert(0x10_0000_0000_0000 <= q < 0x20_0000_0000_0000) by (nonlinear_arith)
        requires
            den > 0,
            q == num / den,
            den * 0x10_0000_0000_0000nat <= num < den * 0x20_0000_0000_0000nat,
    ;
}

fn half_even_div(num: u128, den: u128) -> (r: u128)
    requires
        0 < den < 0x8000_0000_0000_0000_0000_0000_0000_0000,
    ensures
        r == half_even(num as nat, den as nat),
{
    let q: u128 = num / den;
    let r: u128 = num % den;
    if 2 * r < den || (2 * r == den && q % 2 == 0) {
        q
    } else {
        assert(q < u128::MAX) by (nonlinear_arith)
            requires
                q == num / den,
                num <= u128::MAX,
                den > 1,
        ;
        q + 1
    }
}

fn settle(num: u128, den: u128, exp: i32) -> (r: Binary64)
    requires
        0 < den < 0x8000_0000_0000_0000_0000_0000_0000_0000,
        den * 0x10_0000_0000_0000nat <= num < den * 0x20_0000_0000_0000nat,
        -1074 <= exp < 971,
    ensures
        r == settled(num as nat, den as nat, exp as int),
        r.wf(),
        r.exp == exp || r.exp == exp + 1,
        r.mant > 0,
{
    proof {
        lemma_settled(num as nat, den as nat, exp as int);
    }
    let m: u128 = half_even_div(num, den);
    if m >= MANT_END as u128 {
        Binary64 { mant: MANT_MIN, exp: exp + 1 }
    } else {
        Binary64 { mant: m as u64, exp }
    }
}

/// Doubling the numerator `k` times: while the quotient has less than 53 bits
/// it only moves the exponent.
pub proof fn lemma_grown_by(num: nat, den: nat, exp: int, k: nat)
    requires
        num > 0,
        k > 0 ==> num * pow2((k - 1) as nat) < den * 0x10_0000_0000_0000nat,
    ensures
        grown(num, den, exp) == grown(num * pow2(k), den, exp - k),
    decreases k,
{
    vstd::arithmetic::power2::lemma2_to64();
    if k > 0 {
        let j = (k - 1) as nat;
        if j > 0 {
            lemma_pow2_strictly_increases((j - 1) as nat, j);
            assert(num * pow2((j - 1) as nat) <= num * pow2(j)) by (nonlinear_arith)
                requires
                    pow2((j - 1) as nat) < pow2(j),
            ;
        }
        lemma_grown_by(num, den, exp, j);
        lemma_pow2_pos(j);
        lemma_pow2_unfold(k);
        assert(num * pow2(j) > 0) by (nonlinear_arith)
            requires
                num > 0,
                pow2(j) > 0,
        ;
        assert(num * pow2(k) == 2 * (num * pow2(j))) by (nonlinear_arith)
            requires
                pow2(k) == 2 * pow2(j),
        ;
    } else {
        assert(num * pow2(0) == num) by (nonlinear_arith)
            requires
                pow2(0) == 1,
        ;
    }
}

/// Doubling the denominator `k` times, in the same way.
pub proof fn lemma_shrunk_by(num: nat, den: nat, exp: int, k: nat)
    requires
        den > 0,
        k > 0 ==> num >= den * pow2((k - 1) as nat) * 0x20_0000_0000_0000nat,
    ensures
        shrunk(num, den, exp) == shrunk(num, den * pow2(k), exp + k),
    decreases k,
{
    vstd::arithmetic::power2::lemma2_to64();
    if k > 0 {
        let j = (k - 1) as nat;
        if j > 0 {
            lemma_pow2_strictly_increases((j - 1) as nat, j);
            assert(den * pow2((j - 1) as nat) <= den * pow2(j)) by (nonlinear_arith)
                requires
                    pow2((j - 1) as nat) < pow2(j),
            ;
        }
        lemma_shrunk_by(num, den, exp, j);
        lemma_pow2_pos(j);
        lemma_pow2_unfold(k);
        assert(den * pow2(j) > 0) by (nonlinear_arith)
            requires
                den > 0,
                pow2(j) > 0,
        ;
        assert(den * pow2(k) == 2 * (den * pow2(j))) by (nonlinear_arith)
            requires
                pow2(k) == 2 * pow2(j),
        ;
    } else {
        assert(den * pow2(0) == den) by (nonlinear_arith)
            requires
                pow2(0) == 1,
        ;
    }
}

pub proof fn lemma_exponent_below(k: nat, bound: nat)
    requires
        pow2(k) < pow2(bound),
    ensures
        k < bound,
{
    if k > bound {
        lemma_pow2_strictly_increases(bound, k);
    }
}

impl Binary64 {
    /// The figure nearest to an integer.
    pub fn whole(n: u128) -> (r: Binary64)
        ensures
            r == whole(n as nat),
            r.wf(),
            n > 0 ==> r.mant > 0,
            -52 <= r.exp <= 77,
            r.exp > 0 ==> pow2((r.exp - 1) as nat) * 0x10_0000_0000_0000 <= n,
            n < 0x10_0000_0000_0000_0000 ==> r.exp <= 17,
            n <= u64::MAX ==> r.exp <= 12,
            n < 0x20_0000_0000_0000 ==> r.exp <= 0,
            0 < n < 0x10_0000 ==> r.exp <= -32,
    {
        if n == 0 {
            Binary64 { mant: 0, exp: 0 }
        } else if n < MANT_END as u128 {
            let mut m: u128 = n;
            let mut e: i32 = 0;
            proof {
                vstd::arithmetic::power2::lemma2_to64();
                vstd::arithmetic::power2::lemma2_to64_rest();
                assert(n * pow2(0) == n) by (nonlinear_arith)
                    requires
                        pow2(0) == 1,
                ;
            }
            while m < MANT_MIN as u128
                invariant
                    0 < m < MANT_END,
                    -52 <= e <= 0,
                    pow2(52) == MANT_MIN,
                    pow2((-e) as nat) <= m,
                    m == n * pow2((-e) as nat),
                    grown(n as nat, 1, 0) == grown(m as nat, 1, e as int),
                decreases MANT_END - m,
            {
                proof {
                    lemma_exponent_below((-e) as nat, 52);
                    lemma_pow2_unfold((-e + 1) as nat);
                    assert(n * pow2((-e + 1) as nat) == 2 * (n * pow2((-e) as nat))) by (nonlinear_arith)
                        requires
                            pow2((-e + 1) as nat) == 2 * pow2((-e) as nat),
                    ;
                }
                m = 2 * m;
                e = e - 1;
            }
            proof {
                if n < 0x10_0000 {
                    let p = pow2((-e) as nat);
                    assert(0x1_0000_0000 < p) by (nonlinear_arith)
                        requires
                            n < 0x10_0000,
                            n * p >= 0x10_0000_0000_0000,
                    ;
                    lemma_exponent_below(32, (-e) as nat);
                }
            }
            assert(half_even(m as nat, 1) == m);
            settle(m, 1, e)
        } else {
            let mut den: u128 = 1;
            let mut e: i32 = 0;
            proof {
                vstd::arithmetic::power2::lemma2_to64();
                lemma_pow2_adds(32, 44);
                lemma_pow2_adds(12, 32);
                vstd::arithmetic::power2::lemma2_to64_rest();
            }
            while n / den >= MANT_END as u128
                invariant
                    n >= MANT_END,
                    0 <= e <= 76,
                    den == pow2(e as nat),
                    0 < den < 0x1000_0000_0000_0000_0000,
                    pow2(76) == 0x1000_0000_0000_0000_0000,
                    pow2(17) == 0x2_0000,
                    n < 0x10_0000_0000_0000_0000 ==> den < 0x2_0000,
                    pow2(12) == 0x1000,
                    n <= u64::MAX ==> den < 0x1000,
                    n >= den * 0x10_0000_0000_0000nat,
                    shrunk(n as nat, 1, 0) == shrunk(n as nat, den as nat, e as int),
                decreases n - den,
            {
                assert(den * 0x20_0000_0000_0000nat <= n) by (nonlinear_arith)
                    requires
                        n / den >= 0x20_0000_0000_0000,
                        den > 0,
                ;
                den = 2 * den;
                e = e + 1;
                proof {
                    lemma_pow2_unfold(e as nat);
                    lemma_exponent_below(e as nat, 76);
                }
            }
            assert(n < den * 0x20_0000_0000_0000nat) by (nonlinear_arith)
                requires
                    n / den < 0x20_0000_0000_0000,
                    den > 0,
            ;
            proof {
                if n < 0x10_0000_0000_0000_0000 {
                    lemma_exponent_below(e as nat, 17);
                }
                if n <= u64::MAX {
                    lemma_exponent_below(e as nat, 12);
                }
                if e > 0 {
                    lemma_pow2_strictly_increases((e - 1) as nat, e as nat);
                }
                let less = pow2((if e > 0 { e - 1 } else { 0 }) as nat);
                assert(less * 0x10_0000_0000_0000 <= den * 0x10_0000_0000_0000);
            }
            settle(n, den, e)
        }
    }

    /// The figure nearest to the product.
    pub fn times(self, b: Binary64) -> (r: Binary64)
        requires
            self.wf(),
            b.wf(),
            -1074 <= self.exp + b.exp,
            self.exp + b.exp <= 900,
        ensures
            r == product(self, b),
            r.wf(),
            r.mant > 0 <==> self.mant > 0 && b.mant > 0,
            r.mant > 0 ==> self.exp + b.exp + 52 <= r.exp <= self.exp + b.exp + 54,
    {
        if self.mant == 0 || b.mant == 0 {
            return Binary64 { mant: 0, exp: 0 };
        }
        let x: u128 = self.mant as u128;
        let y: u128 = b.mant as u128;
        assert(0x10_0000_0000_0000 * 0x10_0000_0000_0000 <= x * y < 0x20_0000_0000_0000 * 0x20_0000_0000_0000)
            by (nonlinear_arith)
            requires
                0x10_0000_0000_0000 <= x < 0x20_0000_0000_0000,
                0x10_0000_0000_0000 <= y < 0x20_0000_0000_0000,
        ;
        let p: u128 = x * y;
        let e: i32 = self.exp + b.exp;
        proof {
            vstd::arithmetic::power2::lemma2_to64();
            vstd::arithmetic::power2::lemma2_to64_rest();
        }
        if p < 0x200_0000_0000_0000_0000_0000_0000 {
            proof {
                lemma_shrunk_by(p as nat, 1, e as int, 52);
            }
            settle(p, 0x10_0000_0000_0000, e + 52)
        } else {
            proof {
                lemma_shrunk_by(p as nat, 1, e as int, 53);
            }
            settle(p, 0x20_0000_0000_0000, e + 53)
        }
    }

    /// The figure nearest to the quotient.
    pub fn over(self, b: Binary64) -> (r: Binary64)
        requires
            self.wf(),
            b.wf(),
            b.mant > 0,
            -1000 <= self.exp - b.exp <= 900,
        ensures
            r == quotient(self, b),
            r.wf(),
            r.mant > 0 <==> self.mant > 0,
            r.mant > 0 ==> self.exp - b.exp - 53 <= r.exp <= self.exp - b.exp - 51,
    {
        if self.mant == 0 {
            return Binary64 { mant: 0, exp: 0 };
        }
        let x: u128 = self.mant as u128;
        let y: u128 = b.mant as u128;
        let e: i32 = self.exp - b.exp;
        proof {
            vstd::arithmetic::power2::lemma2_to64();
            vstd::arithmetic::power2::lemma2_to64_rest();
        }
        if x >= y {
            proof {
                assert(x < 2 * y);
                assert(x * pow2(51) < y * 0x10_0000_0000_0000) by (nonlinear_arith)
                    requires
                        pow2(51) == 0x8_0000_0000_0000,
                        x < 2 * y,
                ;
                lemma_grown_by(x as nat, y as nat, e as int, 52);
            }
            settle(x * 0x10_0000_0000_0000, y, e - 52)
        } else {
            proof {
                lemma_grown_by(x as nat, y as nat, e as int, 53);
            }
            settle(x * 0x20_0000_0000_0000, y, e - 53)
        }
    }
}

/// A power of two as a machine integer.
fn power_of_two(k: u32) -> (r: u128)
    requires
        k < 127,
    ensures
        r == pow2(k as nat),
        0 < r < 0x8000_0000_0000_0000_0000_0000_0000_0000,
{
    let mut r: u128 = 1;
    let mut i: u32 = 0;
    proof {
        vstd::arithmetic::power2::lemma2_to64();
        lemma_pow2_adds(63, 64);
        vstd::arithmetic::power2::lemma2_to64_rest();
        assert(pow2(63) == 0x8000_0000_0000_0000);
        assert(pow2(127) == 0x8000_0000_0000_0000 * 0x1_0000_0000_0000_0000);
    }
    while i < k
        invariant
            i <= k < 127,
            r == pow2(i as nat),
            0 < r < 0x8000_0000_0000_0000_0000_0000_0000_0000,
            pow2(127) == 0x8000_0000_0000_0000_0000_0000_0000_0000,
        decreases k - i,
    {
        proof {
            lemma_pow2_unfold((i + 1) as nat);
            lemma_pow2_strictly_increases((i + 1) as nat, 127);
        }
        r = 2 * r;
        i = i + 1;
    }
    r
}

impl Binary64 {
    /// The figure nearest to the sum.
    pub fn plus(self, b: Binary64) -> (r: Binary64)
        requires
            self.wf(),
            b.wf(),
            self.exp <= 900,
            b.exp <= 900,
        ensures
            r == sum(self, b),
            r.wf(),
            self.mant > 0 && b.mant > 0 ==> r.mant > 0 && (if self.exp >= b.exp {
                self.exp
            } else {
                b.exp
            }) <= r.exp <= (if self.exp >= b.exp {
                self.exp
            } else {
                b.exp
            }) + 2,
            self.mant > 0 && b.mant > 0 && self.exp - b.exp >= 56 ==> r == self,
    {
        if self.mant == 0 {
            return b;
        }
        if b.mant == 0 {
            return self;
        }
        if self.exp >= b.exp {
            if self.exp - b.exp >= 56 {
                proof {
                    lemma_sum_absorbs(self, b);
                }
                self
            } else {
                add_mantissas(self, b)
            }
        } else if b.exp - self.exp >= 56 {
            proof {
                lemma_sum_absorbs(b, self);
            }
            b
        } else {
            add_mantissas(b, self)
        }
    }

    /// The figure nearest to the difference; zero where `b` is not less.
    pub fn minus(self, b: Binary64) -> (r: Binary64)
        requires
            self.wf(),
            b.wf(),
            -900 <= self.exp <= 900,
            -900 <= b.exp <= 900,
        ensures
            r == difference(self, b),
            r.wf(),
            r.mant > 0 <==> less(b, self),
            r.mant > 0 && b.mant > 0 ==> b.exp - 52 <= r.exp,
            r.mant > 0 ==> r.exp <= self.exp + 1,
    {
        if b.mant == 0 {
            return self;
        }
        if !b.is_less(self) {
            return Binary64 { mant: 0, exp: 0 };
        }
        if self.exp - b.exp >= 56 {
            proof {
                lemma_difference_absorbs(self, b);
            }
            return self;
        }
        let k: u32 = (self.exp - b.exp) as u32;
        let p: u128 = power_of_two(k);
        let ghost x = self.mant as nat;
        let ghost y = b.mant as nat;
        proof {
            vstd::arithmetic::power2::lemma2_to64();
            vstd::arithmetic::power2::lemma2_to64_rest();
            lemma_pow2_strictly_increases(k as nat, 56);
            assert(x * p < 0x20_0000_0000_0000 * 0x100_0000_0000_0000) by (nonlinear_arith)
                requires
                    x < 0x20_0000_0000_0000,
                    0 < p < 0x100_0000_0000_0000,
            ;
            if k > 0 {
                lemma_pow2_unfold(k as nat);
                lemma_pow2_pos((k - 1) as nat);
            }
            assert(x * p > y) by (nonlinear_arith)
                requires
                    (k == 0 && p == 1 && x > y) || (p >= 2 && x >= 0x10_0000_0000_0000 && y < 0x20_0000_0000_0000),
            ;
        }
        let n: u128 = self.mant as u128 * p - b.mant as u128;
        let w: Binary64 = Binary64::whole(n);
        proof {
            if w.exp > 0 {
                let q = pow2((w.exp - 1) as nat);
                lemma_pow2_unfold((k + 1) as nat);
                assert(q < 2 * p) by (nonlinear_arith)
                    requires
                        q * 0x10_0000_0000_0000 <= n,
                        n < x * p,
                        x < 0x20_0000_0000_0000,
                        p > 0,
                ;
                lemma_exponent_below((w.exp - 1) as nat, (k + 1) as nat);
            }
        }
        Binary64 { mant: w.mant, exp: w.exp + b.exp }
    }

    /// The greatest integer that is not greater than the figure, as far as `max`.
    pub fn floor_to(self, max: u64) -> (r: u64)
        ensures
            r == (if floor(self) > max {
                max as nat
            } else {
                floor(self)
            }),
    {
        let n: u128 = if self.exp >= 0 {
            if self.mant == 0 {
                assert(0 * pow2(self.exp as nat) == 0) by (nonlinear_arith);
                return 0;
            }
            let k: u32 = if self.exp >= 64 {
                64
            } else {
                self.exp as u32
            };
            let p: u128 = power_of_two(k);
            proof {
                vstd::arithmetic::power2::lemma2_to64();
                let q = pow2(self.exp as nat);
                if self.exp > 64 {
                    lemma_pow2_strictly_increases(64, self.exp as nat);
                }
                if k < 64 {
                    lemma_pow2_strictly_increases(k as nat, 64);
                }
                assert(self.mant * p <= 0x1_0000_0000_0000_0000 * 0x1_0000_0000_0000_0000 - 0x1_0000_0000_0000_0000)
                    by (nonlinear_arith)
                    requires
                        self.mant <= 0x1_0000_0000_0000_0000 - 1,
                        p <= 0x1_0000_0000_0000_0000,
                ;
                assert(self.mant * p >= p && self.mant * q >= q) by (nonlinear_arith)
                    requires
                        self.mant >= 1,
                        p >= 0,
                        q >= 0,
                ;
            }
            self.mant as u128 * p
        } else if self.exp > -100 {
            self.mant as u128 / power_of_two((-self.exp) as u32)
        } else {
            proof {
                vstd::arithmetic::power2::lemma2_to64();
                lemma_pow2_strictly_increases(64, (-self.exp) as nat);
                vstd::arithmetic::div_mod::lemma_basic_div(self.mant as int, pow2((-self.exp) as nat) as int);
            }
            0
        };
        if n > max as u128 {
            max
        } else {
            n as u64
        }
    }

    /// Whether the figure is less than `b`.
    pub fn is_less(self, b: Binary64) -> (r: bool)
        ensures
            r == less(self, b),
    {
        if self.mant == 0 || b.mant == 0 {
            self.mant < b.mant
        } else {
            self.exp < b.exp || (self.exp == b.exp && self.mant < b.mant)
        }
    }

    /// The lesser of two figures.
    pub fn min(self, b: Binary64) -> (r: Binary64)
        ensures
            r == (if less(b, self) {
                b
            } else {
                self
            }),
    {
        if b.is_less(self) {
            b
        } else {
            self
        }
    }

    /// The figure as a number of parts of which `scale` make one, rounded half to even.
    pub fn fixed(self, scale: u32) -> (r: u128)
        requires
            self.wf(),
            self.exp <= 60,
            0 < scale <= 100,
        ensures
            r == fixed(self, scale as nat),
    {
        assert(self.mant * scale < 0x1000_0000_0000_0000) by (nonlinear_arith)
            requires
                self.mant < 0x20_0000_0000_0000,
                0 < scale <= 100,
        ;
        let num: u128 = self.mant as u128 * scale as u128;
        if self.exp >= 0 {
            let p: u128 = power_of_two(self.exp as u32);
            proof {
                vstd::arithmetic::power2::lemma2_to64();
                vstd::arithmetic::power2::lemma2_to64_rest();
                lemma_pow2_strictly_increases(self.exp as nat, 61);
                assert(num * p < 0x1000_0000_0000_0000 * 0x2000_0000_0000_0000) by (nonlinear_arith)
                    requires
                        num < 0x1000_0000_0000_0000,
                        p < 0x2000_0000_0000_0000,
                ;
            }
            num * p
        } else if self.exp > -100 {
            half_even_div(num, power_of_two((-self.exp) as u32))
        } else {
            proof {
                let p = pow2((-self.exp) as nat);
                vstd::arithmetic::power2::lemma2_to64();
                vstd::arithmetic::power2::lemma2_to64_rest();
                lemma_pow2_strictly_increases(63, (-self.exp) as nat);
                vstd::arithmetic::div_mod::lemma_basic_div(num as int, p as int);
                vstd::arithmetic::div_mod::lemma_small_mod(num as nat, p);
            }
            0
        }
    }

    /// The nearest integer, a tie going up.
    pub fn rounded(self) -> (r: u128)
        requires
            self.wf(),
            self.exp <= 60,
        ensures
            r == half_up(self),
    {
        if self.exp >= 0 {
            let p: u128 = power_of_two(self.exp as u32);
            proof {
                vstd::arithmetic::power2::lemma2_to64();
                vstd::arithmetic::power2::lemma2_to64_rest();
                lemma_pow2_strictly_increases(self.exp as nat, 61);
                assert(self.mant * p < 0x20_0000_0000_0000 * 0x2000_0000_0000_0000) by (nonlinear_arith)
                    requires
                        self.mant < 0x20_0000_0000_0000,
                        p < 0x2000_0000_0000_0000,
                ;
            }
            self.mant as u128 * p
        } else if self.exp > -100 {
            let p: u128 = power_of_two((-self.exp) as u32);
            proof {
                vstd::arithmetic::power2::lemma2_to64();
                lemma_pow2_adds(50, 50);
                vstd::arithmetic::power2::lemma2_to64_rest();
                lemma_pow2_strictly_increases((-self.exp) as nat, 100);
            }
            (2 * self.mant as u128 + p) / (2 * p)
        } else {
            proof {
                let p = pow2((-self.exp) as nat);
                vstd::arithmetic::power2::lemma2_to64();
                vstd::arithmetic::power2::lemma2_to64_rest();
                lemma_pow2_strictly_increases(63, (-self.exp) as nat);
                vstd::arithmetic::div_mod::lemma_basic_div(2 * self.mant + p, (2 * p) as int);
            }
            0
        }
    }
}

/// A summand far below the last place of the other one is lost.
proof fn lemma_sum_absorbs(a: Binary64, b: Binary64)
    requires
        a.wf(),
        b.wf(),
        a.mant > 0,
        b.mant > 0,
        a.exp - b.exp >= 56,
    ensures
        sum(a, b) == a,
{
    let k = (a.exp - b.exp) as nat;
    let p = pow2(k);
    let x = a.mant as nat;
    let y = b.mant as nat;
    let n = x * p + y;
    lemma_far_apart(k);
    lemma_pow2_unfold(k);
    assert(p * 0x10_0000_0000_0000 <= n < p * 0x20_0000_0000_0000) by (nonlinear_arith)
        requires
            n == x * p + y,
            0x10_0000_0000_0000 <= x <= 0x20_0000_0000_0000 - 1,
            y < p,
    ;
    assert(1 * p == p);
    lemma_shrunk_by(n, 1, b.exp as int, k);
    assert(n / p == x && n % p == y) by (nonlinear_arith)
        requires
            n == x * p + y,
            0 <= y < p,
    ;
}

/// A subtrahend far below the last place of the minuend is lost.
proof fn lemma_difference_absorbs(a: Binary64, b: Binary64)
    requires
        a.wf(),
        b.wf(),
        a.mant > 0,
        b.mant > 0,
        a.exp - b.exp >= 56,
    ensures
        difference(a, b) == a,
{
    let k = (a.exp - b.exp) as nat;
    let p = pow2(k);
    let h = pow2((k - 1) as nat);
    let x = a.mant as nat;
    let y = b.mant as nat;
    let n = (x * p - y) as nat;
    lemma_far_apart(k);
    lemma_pow2_unfold(k);
    lemma_pow2_pos((k - 1) as nat);
    assert(x * p >= p * 0x10_0000_0000_0000) by (nonlinear_arith)
        requires
            x >= 0x10_0000_0000_0000,
            p > 0,
    ;
    assert(n >= 0x20_0000_0000_0000);
    if x > 0x10_0000_0000_0000 {
        assert(p * 0x10_0000_0000_0000 <= n < p * 0x20_0000_0000_0000) by (nonlinear_arith)
            requires
                n == x * p - y,
                0x10_0000_0000_0001 <= x < 0x20_0000_0000_0000,
                0 < y < p,
        ;
        assert(1 * p == p);
        lemma_shrunk_by(n, 1, 0, k);
        assert((x - 1) * p == x * p - p) by (nonlinear_arith);
        assert(n / p == x - 1 && n % p == p - y) by (nonlinear_arith)
            requires
                n == (x - 1) * p + (p - y),
                0 <= p - y < p,
        ;
    } else {
        assert(x * p == 0x20_0000_0000_0000 * h) by (nonlinear_arith)
            requires
                x == 0x10_0000_0000_0000,
                p == 2 * h,
        ;
        assert(h * 0x10_0000_0000_0000 <= n < h * 0x20_0000_0000_0000);
        assert(1 * h == h);
        lemma_pow2_unfold((k - 1) as nat);
        lemma_shrunk_by(n, 1, 0, (k - 1) as nat);
        assert(n / h == 0x1f_ffff_ffff_ffff && n % h == h - y) by (nonlinear_arith)
            requires
                n == 0x1f_ffff_ffff_ffff * h + (h - y),
                0 <= h - y < h,
        ;
    }
}

/// From `2^55` on a power of two is more than four times any mantissa.
proof fn lemma_far_apart(k: nat)
    requires
        k >= 56,
    ensures
        pow2((k - 1) as nat) >= 4 * 0x20_0000_0000_0000,
        pow2(k) >= 8 * 0x20_0000_0000_0000,
{
    vstd::arithmetic::power2::lemma2_to64();
    vstd::arithmetic::power2::lemma2_to64_rest();
    if k > 56 {
        lemma_pow2_strictly_increases(56, k);
        lemma_pow2_strictly_increases(55, (k - 1) as nat);
    }
}

fn add_mantissas(a: Binary64, b: Binary64) -> (r: Binary64)
    requires
        a.wf(),
        b.wf(),
        a.mant > 0,
        b.mant > 0,
        0 <= a.exp - b.exp <= 64,
        a.exp <= 900,
    ensures
        r == sum(a, b),
        r.wf(),
        r.mant > 0,
        a.exp <= r.exp <= a.exp + 2,
{
    let k: u32 = (a.exp - b.exp) as u32;
    let p: u128 = power_of_two(k);
    let ghost x = a.mant as nat;
    let ghost y = b.mant as nat;
    proof {
        vstd::arithmetic::power2::lemma2_to64();
        if k < 64 {
            lemma_pow2_strictly_increases(k as nat, 64);
        }
        assert(x * p < 0x20_0000_0000_0000 * 0x1_0000_0000_0000_0000) by (nonlinear_arith)
            requires
                x < 0x20_0000_0000_0000,
                p <= 0x1_0000_0000_0000_0000,
        ;
        assert(p * 0x10_0000_0000_0000 <= x * p <= p * 0x20_0000_0000_0000 - p) by (nonlinear_arith)
            requires
                0x10_0000_0000_0000 <= x <= 0x20_0000_0000_0000 - 1,
                p > 0,
        ;
    }
    let num: u128 = a.mant as u128 * p + b.mant as u128;
    assert(num == x * pow2(k as nat) + y);
    assert(p * 0x40_0000_0000_0000 > num) by (nonlinear_arith)
        requires
            num <= p * 0x20_0000_0000_0000 - p + 0x20_0000_0000_0000,
            p >= 1,
            num == num,
    ;
    if num < p * MANT_END as u128 {
        proof {
            if k > 0 {
                lemma_pow2_unfold(k as nat);
            }
            lemma_shrunk_by(num as nat, 1, b.exp as int, k as nat);
        }
        settle(num, p, a.exp)
    } else {
        proof {
            lemma_pow2_unfold((k + 1) as nat);
            lemma_shrunk_by(num as nat, 1, b.exp as int, (k + 1) as nat);
        }
        settle(num, 2 * p, a.exp + 1)
    }
}

/// A quotient is the nearest figure: it is at most half a unit of its last place
/// away from the exact `a / b`.
pub proof fn law_quotient_is_nearest(a: Binary64, b: Binary64)
    requires
        a.wf(),
        b.wf(),
        a.mant > 0,
        b.mant > 0,
        -1000 <= a.exp - b.exp <= 900,
    ensures
        ({
            let r = quotient(a, b);
            let s = a.exp - b.exp - r.exp;
            &&& r.wf()
            &&& MANT_MIN <= r.mant < MANT_END
            &&& 0 <= s <= 53
            &&& 2 * (r.mant * b.mant) <= 2 * (a.mant * pow2(s as nat)) + b.mant
            &&& 2 * (a.mant * pow2(s as nat)) <= 2 * (r.mant * b.mant) + b.mant
        }),
{
    let x = a.mant as nat;
    let y = b.mant as nat;
    let e = a.exp - b.exp;
    vstd::arithmetic::power2::lemma2_to64();
    vstd::arithmetic::power2::lemma2_to64_rest();
    let k: nat = if x >= y {
        52
    } else {
        53
    };
    assert(x < 2 * y);
    assert(x * pow2((k - 1) as nat) < y * 0x10_0000_0000_0000 && y * 0x10_0000_0000_0000 <= x * pow2(k) < y
        * 0x20_0000_0000_0000) by (nonlinear_arith)
        requires
            x < 2 * y,
            x >= 0x10_0000_0000_0000,
            y < 0x20_0000_0000_0000,
            (k == 52 && x >= y && pow2(k) == 0x10_0000_0000_0000 && pow2((k - 1) as nat) == 0x8_0000_0000_0000)
                || (k == 53 && x < y && pow2(k) == 0x20_0000_0000_0000 && pow2((k - 1) as nat)
                == 0x10_0000_0000_0000),
    ;
    lemma_grown_by(x, y, e as int, k);
    let num = x * pow2(k);
    lemma_settled(num, y, e - k);
    lemma_half_even(num, y);
    let m = half_even(num, y);
    let r = quotient(a, b);
    if m >= MANT_END {
        lemma_pow2_unfold(k);
        assert(2 * (x * pow2((k - 1) as nat)) == num) by (nonlinear_arith)
            requires
                num == x * pow2(k),
                pow2(k) == 2 * pow2((k - 1) as nat),
        ;
        assert(2 * m * y == 0x40_0000_0000_0000 * y) by (nonlinear_arith)
            requires
                m == 0x20_0000_0000_0000,
        ;
        assert(r.mant * y == 0x10_0000_0000_0000 * y) by (nonlinear_arith)
            requires
                r.mant == 0x10_0000_0000_0000,
        ;
        assert(a.exp - b.exp - r.exp == k - 1);
    } else {
        assert(2 * m * y == 2 * (r.mant * y)) by (nonlinear_arith)
            requires
                m == r.mant,
        ;
        assert(a.exp - b.exp - r.exp == k);
    }
}

/// The figure of an integer that `k` doublings take to 53 bits.
pub proof fn lemma_whole_is(n: nat, k: nat)
    requires
        0 < n < MANT_END,
        MANT_MIN <= n * pow2(k) < MANT_END,
    ensures
        whole(n) == (Binary64 { mant: (n * pow2(k)) as u64, exp: -(k as int) as i32 }),
{
    if k > 0 {
        lemma_pow2_unfold(k);
        assert(n * pow2(k) == 2 * (n * pow2((k - 1) as nat))) by (nonlinear_arith)
            requires
                pow2(k) == 2 * pow2((k - 1) as nat),
        ;
    }
    lemma_grown_by(n, 1, 0, k);
    assert(half_even(n * pow2(k), 1) == n * pow2(k));
}

/// An integer of at most 53 bits is held exactly.
pub proof fn law_whole_is_exact(n: nat)
    requires
        0 < n < MANT_END,
    ensures
        whole(n).wf(),
        whole(n).exp <= 0,
        whole(n).mant == n * pow2((-whole(n).exp) as nat),
    decreases MANT_END - n,
{
    vstd::arithmetic::power2::lemma2_to64();
    let k = lemma_bits_to_mantissa(n, 0);
    lemma_whole_is(n, k);
}

/// How often an integer is doubled to reach 53 bits.
proof fn lemma_bits_to_mantissa(n: nat, j: nat) -> (k: nat)
    requires
        0 < n < MANT_END,
        j <= 52,
        n * pow2(j) < MANT_END,
        j > 0 ==> n * pow2((j - 1) as nat) < MANT_MIN,
    ensures
        k <= 52,
        MANT_MIN <= n * pow2(k) < MANT_END,
        k > 0 ==> n * pow2((k - 1) as nat) < MANT_MIN,
    decreases 53 - j,
{
    vstd::arithmetic::power2::lemma2_to64();
    vstd::arithmetic::power2::lemma2_to64_rest();
    if n * pow2(j) >= MANT_MIN {
        j
    } else {
        if j == 52 {
            assert(n * pow2(52) >= pow2(52)) by (nonlinear_arith)
                requires
                    n > 0,
                    pow2(52) == 0x10_0000_0000_0000,
            ;
        }
        lemma_pow2_unfold(j + 1);
        assert(n * pow2(j + 1) == 2 * (n * pow2(j))) by (nonlinear_arith)
            requires
                pow2(j + 1) == 2 * pow2(j),
        ;
        lemma_bits_to_mantissa(n, j + 1)
    }
}

/// A sum is the nearest figure: with the summands at the exponent of the lesser
/// one, it is at most half a unit of its last place away from the exact `a + b`.
pub proof fn law_sum_is_nearest(a: Binary64, b: Binary64)
    requires
        a.wf(),
        b.wf(),
        a.mant > 0,
        b.mant > 0,
        a.exp >= b.exp,
        a.exp <= 900,
    ensures
        sum(a, b).wf(),
        sum(a, b).mant > 0,
        a.exp <= sum(a, b).exp <= a.exp + 2,
        ({
            let r = sum(a, b);
            let exact = a.mant * pow2((a.exp - b.exp) as nat) + b.mant;
            let unit = pow2((r.exp - b.exp) as nat);
            &&& 2 * (r.mant * unit) <= 2 * exact + unit
            &&& 2 * exact <= 2 * (r.mant * unit) + unit
        }),
{
    let k = (a.exp - b.exp) as nat;
    let p = pow2(k);
    let x = a.mant as nat;
    let y = b.mant as nat;
    let num = x * p + y;
    lemma_pow2_pos(k);
    assert(p * 0x10_0000_0000_0000 <= x * p <= p * 0x20_0000_0000_0000 - p) by (nonlinear_arith)
        requires
            0x10_0000_0000_0000 <= x <= 0x20_0000_0000_0000 - 1,
            p > 0,
    ;
    assert(num < p * 0x40_0000_0000_0000) by (nonlinear_arith)
        requires
            num <= p * 0x20_0000_0000_0000 - p + 0x20_0000_0000_0000,
            p >= 1,
    ;
    let j: nat = if num < p * 0x20_0000_0000_0000 {
        k
    } else {
        k + 1
    };
    lemma_pow2_unfold(k + 1);
    if k > 0 {
        lemma_pow2_unfold(k);
    }
    lemma_shrunk_by(num, 1, b.exp as int, j);
    let den = pow2(j);
    lemma_pow2_pos(j);
    assert(1 * den == den);
    lemma_settled(num, den, b.exp + j);
    lemma_half_even(num, den);
    let h = half_even(num, den);
    let r = sum(a, b);
    assert(r == settled(num, den, b.exp + j));
    if h >= MANT_END {
        lemma_pow2_unfold(j + 1);
        let unit = pow2(j + 1);
        assert(r.exp - b.exp == j + 1);
        assert(2 * (r.mant * unit) == 2 * h * den) by (nonlinear_arith)
            requires
                r.mant == 0x10_0000_0000_0000,
                h == 0x20_0000_0000_0000,
                unit == 2 * den,
        ;
    } else {
        assert(2 * (r.mant * den) == 2 * h * den) by (nonlinear_arith)
            requires
                r.mant == h,
        ;
    }
}

/// The figure one.
pub open spec fn one() -> Binary64 {
    Binary64 { mant: MANT_MIN, exp: (-52) as i32 }
}

/// A figure divided by itself is one.
pub proof fn law_self_quotient_is_one(a: Binary64)
    requires
        a.wf(),
        a.mant > 0,
    ensures
        quotient(a, a) == one(),
{
    let x = a.mant as nat;
    vstd::arithmetic::power2::lemma2_to64();
    vstd::arithmetic::power2::lemma2_to64_rest();
    assert(x * pow2(51) < x * 0x10_0000_0000_0000) by (nonlinear_arith)
        requires
            pow2(51) == 0x8_0000_0000_0000,
            x > 0,
    ;
    lemma_grown_by(x, x, 0, 52);
    let num = x * pow2(52);
    assert(num == x * 0x10_0000_0000_0000);
    assert(num / x == 0x10_0000_0000_0000 && num % x == 0) by (nonlinear_arith)
        requires
            num == x * 0x10_0000_0000_0000,
            x > 0,
    ;
}

/// A figure divided by a greater one is less than one, after rounding too.
pub proof fn law_lesser_quotient_is_below_one(a: Binary64, b: Binary64)
    requires
        a.wf(),
        b.wf(),
        less(a, b),
        -1000 <= a.exp - b.exp <= 900,
    ensures
        quotient(a, b).wf(),
        less(quotient(a, b), one()),
        quotient(a, b).mant > 0 ==> a.exp - b.exp - 53 <= quotient(a, b).exp <= -53,
{
    if a.mant > 0 {
        let x = a.mant as nat;
        let y = b.mant as nat;
        let e = a.exp - b.exp;
        vstd::arithmetic::power2::lemma2_to64();
        vstd::arithmetic::power2::lemma2_to64_rest();
        assert(x < 2 * y);
        let k: nat = if x >= y {
            52
        } else {
            53
        };
        let num = x * pow2(k);
        assert(x * pow2((k - 1) as nat) < y * 0x10_0000_0000_0000 && y * 0x10_0000_0000_0000 <= num < y
            * 0x20_0000_0000_0000) by (nonlinear_arith)
            requires
                num == x * pow2(k),
                x < 2 * y,
                x >= 0x10_0000_0000_0000,
                y < 0x20_0000_0000_0000,
                (k == 52 && x >= y && pow2(k) == 0x10_0000_0000_0000 && pow2((k - 1) as nat) == 0x8_0000_0000_0000)
                    || (k == 53 && x < y && pow2(k) == 0x20_0000_0000_0000 && pow2((k - 1) as nat)
                    == 0x10_0000_0000_0000),
        ;
        lemma_grown_by(x, y, e as int, k);
        lemma_settled(num, y, e - k);
        lemma_half_even(num, y);
        let h = half_even(num, y);
        if k == 53 {
            assert(num == x * 0x20_0000_0000_0000);
        } else {
            assert(num == x * 0x10_0000_0000_0000);
        }
        assert(h < 0x20_0000_0000_0000) by (nonlinear_arith)
            requires
                2 * h * y <= 2 * num + y,
                num <= (y - 1) * 0x20_0000_0000_0000 || num <= (2 * y - 1) * 0x10_0000_0000_0000,
                y < 0x20_0000_0000_0000,
                y > 0,
        ;
    }
}

/// Rounding to an integer: half a unit at most for the two that go to the nearest, a
/// half going up with one of them; less than a unit for the one that cuts off.
pub proof fn law_roundings(x: Binary64)
    requires
        x.exp < 0,
    ensures
        ({
            let p = pow2((-x.exp) as nat);
            &&& 2 * (fixed(x, 1) * p) <= 2 * x.mant + p && 2 * x.mant <= 2 * (fixed(x, 1) * p) + p
            &&& 2 * (half_up(x) * p) <= 2 * x.mant + p && 2 * x.mant < 2 * (half_up(x) * p) + p
            &&& floor(x) * p <= x.mant < floor(x) * p + p
        }),
{
    let p = pow2((-x.exp) as nat);
    lemma_pow2_pos((-x.exp) as nat);
    let m = x.mant as nat;
    assert(m * 1 == m);
    lemma_half_even(m * 1, p);
    let n = fixed(x, 1);
    assert(2 * n * p == 2 * (n * p)) by (nonlinear_arith);
    let h = half_up(x);
    assert(2 * (h * p) <= 2 * m + p && 2 * m < 2 * (h * p) + p) by (nonlinear_arith)
        requires
            h == (2 * m + p) / (2 * p),
            p > 0,
    ;
    let f = floor(x);
    assert(f * p <= m < f * p + p) by (nonlinear_arith)
        requires
            f == m / p,
            p > 0,
    ;
}

/// The difference of two integers is exact.
pub proof fn law_difference_of_integers(m: nat, n: nat)
    requires
        n <= m < MANT_END,
    ensures
        difference(whole(m), whole(n)) == whole((m - n) as nat),
{
    if n > 0 {
        law_whole_is_exact(m);
        law_whole_is_exact(n);
        let (a, b) = (whole(m), whole(n));
        let i = (-a.exp) as nat;
        let j = (-b.exp) as nat;
        lemma_pow2_pos(i);
        lemma_pow2_pos(j);
        assert(m * pow2(i) > 0 && n * pow2(j) > 0) by (nonlinear_arith)
            requires
                m > 0,
                n > 0,
                pow2(i) > 0,
                pow2(j) > 0,
        ;
        crate::accuracy::lemma_exponents_of_wholes(n, j);
        crate::accuracy::law_order_is_numeric(b, a, -(i + j));
        lemma_cross(m, n, i, j);
        assert((b.exp + (i + j)) as nat == i && (a.exp + (i + j)) as nat == j);
        assert(n * pow2(j) * pow2(i) < m * pow2(i) * pow2(j) <==> n < m);
        if n < m {
            let d = (m - n) as nat;
            law_whole_is_exact(d);
            let t = (-whole(d).exp) as nat;
            let k = (j - i) as nat;
            lemma_pow2_adds(i, k);
            lemma_pow2_pos(t);
            assert(d * pow2(t) > 0) by (nonlinear_arith)
                requires
                    d > 0,
                    pow2(t) > 0,
            ;
            let w = d * pow2(j);
            assert(a.mant as nat * pow2(k) - b.mant == w) by (nonlinear_arith)
                requires
                    a.mant == m * pow2(i),
                    b.mant == n * pow2(j),
                    pow2(j) == pow2(i) * pow2(k),
                    w == d * pow2(j),
                    d == m - n,
            ;
            lemma_shifted_whole(d, j, t);
        } else {
            assert(whole(0) == zero());
        }
    }
}

proof fn lemma_cross(m: nat, n: nat, i: nat, j: nat)
    ensures
        n * pow2(j) * pow2(i) < m * pow2(i) * pow2(j) <==> n < m,
{
    lemma_pow2_pos(i);
    lemma_pow2_pos(j);
    let (p, q) = (pow2(i), pow2(j));
    assert(n * q * p < m * p * q <==> n < m) by (nonlinear_arith)
        requires
            p > 0,
            q > 0,
    {
        assert(n * q * p == n * (p * q));
        assert(m * p * q == m * (p * q));
        assert(p * q > 0);
    }
}

/// An integer with zeros behind has the mantissa of the integer.
proof fn lemma_shifted_whole(d: nat, j: nat, t: nat)
    requires
        0 < d < MANT_END,
        j < 53,
        whole(d).mant == d * pow2(t),
        whole(d).exp == -(t as int),
        MANT_MIN <= d * pow2(t) < MANT_END,
    ensures
        whole(d * pow2(j)) == (Binary64 { mant: whole(d).mant, exp: (j - t) as i32 }),
{
    lemma_pow2_pos(j);
    lemma_pow2_pos(t);
    let w = d * pow2(j);
    assert(w > 0) by (nonlinear_arith)
        requires
            w == d * pow2(j),
            d > 0,
            pow2(j) > 0,
    ;
    if j <= t {
        let k = (t - j) as nat;
        lemma_pow2_adds(j, k);
        assert(w * pow2(k) == d * pow2(t)) by (nonlinear_arith)
            requires
                w == d * pow2(j),
                pow2(t) == pow2(j) * pow2(k),
        ;
        lemma_pow2_pos(k);
        assert(w < MANT_END) by (nonlinear_arith)
            requires
                w * pow2(k) < MANT_END,
                pow2(k) >= 1,
        ;
        lemma_whole_is(w, k);
    } else {
        let k = (j - t) as nat;
        let m = d * pow2(t);
        let g = pow2(k);
        lemma_pow2_adds(t, k);
        lemma_pow2_unfold(k);
        let h = pow2((k - 1) as nat);
        assert(w == m * g) by (nonlinear_arith)
            requires
                w == d * pow2(j),
                pow2(j) == pow2(t) * g,
                m == d * pow2(t),
        ;
        lemma_pow2_pos((k - 1) as nat);
        assert(w >= 1 * h * 0x20_0000_0000_0000nat && w >= 0x20_0000_0000_0000) by (nonlinear_arith)
            requires
                w == m * g,
                g == 2 * h,
                h >= 1,
                m >= 0x10_0000_0000_0000,
        ;
        lemma_shrunk_by(w, 1, 0, k);
        assert(1 * g == g);
        assert(w / g == m && w % g == 0 && w < g * 0x20_0000_0000_0000) by (nonlinear_arith)
            requires
                w == m * g,
                g > 0,
                m < 0x20_0000_0000_0000,
        ;
    }
}

/// Of two integers that are equally near, rounding takes the even one; a quotient that
/// is an integer stays.
pub proof fn law_ties_go_to_even(num: nat, den: nat)
    requires
        den > 0,
    ensures
        2 * (num % den) == den ==> half_even(num, den) % 2 == 0,
        num % den == 0 ==> half_even(num, den) == num / den,
{
}

/// A difference that fits into a mantissa is exact.
pub proof fn law_difference_is_exact(a: Binary64, b: Binary64)
    requires
        b.mant > 0,
        less(b, a),
        a.exp >= b.exp,
        0 < a.mant * pow2((a.exp - b.exp) as nat) - b.mant < MANT_END,
        -900 <= b.exp <= 900,
    ensures
        ({
            let r = difference(a, b);
            let n = (a.mant * pow2((a.exp - b.exp) as nat) - b.mant) as nat;
            r.exp <= b.exp && r.mant == n * pow2((b.exp - r.exp) as nat)
        }),
{
    let n = (a.mant as nat * pow2((a.exp - b.exp) as nat) - b.mant) as nat;
    law_whole_is_exact(n);
    let k = (-whole(n).exp) as nat;
    lemma_pow2_pos(k);
    assert(n * pow2(k) > 0) by (nonlinear_arith)
        requires
            n > 0,
            pow2(k) > 0,
    ;
    crate::accuracy::lemma_exponents_of_wholes(n, k);
}

} // verus!
