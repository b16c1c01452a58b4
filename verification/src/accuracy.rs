//! How near the figures of a report are to the exact quotients they stand for.
//!
//! Every figure is computed in binary64, with a rounding at each step. Here these
//! roundings are held against the integers that went in.

use vstd::arithmetic::power2::{lemma_pow2_adds, lemma_pow2_pos, lemma_pow2_strictly_increases, lemma_pow2_unfold, pow2};
use vstd::prelude::*;

#[allow(unused_imports)]
use crate::binary64::{
    fixed, half_even, half_up, law_quotient_is_nearest, law_whole_is_exact, lemma_exponent_below, lemma_grown_by,
    lemma_half_even, lemma_shrunk_by, lemma_whole_is, less, product, quotient, whole, zero, Binary64,
};
#[allow(unused_imports)]
use crate::figures::{
    bit_rate, lemma_hundred, megabit_rate, percent, relative_bar, score_of, share_bar, units_of,
};

verus! {

/// Figures are ordered as the numbers they stand for, taken at any exponent that
/// is not above theirs.
pub proof fn law_order_is_numeric(x: Binary64, y: Binary64, e: int)
    requires
        x.wf(),
        y.wf(),
        x.mant > 0,
        y.mant > 0,
        e <= x.exp,
        e <= y.exp,
    ensures
        less(x, y) <==> x.mant * pow2((x.exp - e) as nat) < y.mant * pow2((y.exp - e) as nat),
{
    let i = (x.exp - e) as nat;
    let j = (y.exp - e) as nat;
    lemma_pow2_pos(i);
    lemma_pow2_pos(j);
    if i < j {
        lemma_lesser_exponent(x.mant as nat, i, y.mant as nat, j);
    } else if j < i {
        lemma_lesser_exponent(y.mant as nat, j, x.mant as nat, i);
    } else {
        let p = pow2(i);
        assert(x.mant < y.mant <==> x.mant * p < y.mant * p) by (nonlinear_arith)
            requires
                p > 0,
        ;
    }
}

proof fn lemma_lesser_exponent(m: nat, i: nat, n: nat, j: nat)
    requires
        m < 0x20_0000_0000_0000,
        n >= 0x10_0000_0000_0000,
        i < j,
    ensures
        m * pow2(i) < n * pow2(j),
{
    lemma_pow2_pos(i);
    lemma_pow2_unfold(j);
    if i < j - 1 {
        lemma_pow2_strictly_increases(i, (j - 1) as nat);
    }
    let p = pow2(i);
    let q = pow2((j - 1) as nat);
    assert(m * p < n * (2 * q)) by (nonlinear_arith)
        requires
            m < 0x20_0000_0000_0000,
            n >= 0x10_0000_0000_0000,
            0 < p <= q,
    ;
}

/// The quotient of two integers: `m / 2^k`, with an error of at most one half of
/// the last place.
proof fn lemma_ratio(a: nat, b: nat)
    requires
        0 < a < 0x10_0000_0000_0000,
        0 < b < 0x20_0000_0000_0000,
    ensures
        ({
            let q = quotient(whole(a), whole(b));
            let p = pow2((-q.exp) as nat);
            &&& q.wf()
            &&& 0x10_0000_0000_0000 <= q.mant < 0x20_0000_0000_0000
            &&& q.exp <= 0
            &&& 2 * (q.mant * b) <= 2 * (a * p) + b
            &&& 2 * (a * p) <= 2 * (q.mant * b) + b
        }),
{
    let x = whole(a);
    let y = whole(b);
    law_whole_is_exact(a);
    law_whole_is_exact(b);
    let i = (-x.exp) as nat;
    let j = (-y.exp) as nat;
    lemma_pow2_pos(i);
    lemma_pow2_pos(j);
    assert(a * pow2(i) > 0 && b * pow2(j) > 0) by (nonlinear_arith)
        requires
            a > 0,
            b > 0,
            pow2(i) > 0,
            pow2(j) > 0,
    ;
    lemma_exponents_of_wholes(a, i);
    lemma_exponents_of_wholes(b, j);
    law_quotient_is_nearest(x, y);
    let q = quotient(x, y);
    let s = (x.exp - y.exp - q.exp) as nat;
    let m = q.mant as nat;
    let g = pow2(j);
    lemma_pow2_adds(i, s);
    let n = a * pow2(i + s);
    assert(x.mant * pow2(s) == n) by (nonlinear_arith)
        requires
            x.mant == a * pow2(i),
            n == a * pow2(i + s),
            pow2(i + s) == pow2(i) * pow2(s),
    ;
    if q.exp > 0 {
        let e = q.exp as nat;
        lemma_pow2_adds(i + s, e);
        lemma_pow2_pos(i + s);
        lemma_pow2_unfold(e);
        lemma_pow2_pos((e - 1) as nat);
        let (h, f) = (pow2(i + s), pow2(e));
        assert(false) by (nonlinear_arith)
            requires
                2 * (m * (b * g)) <= 2 * n + b * g,
                n == a * h,
                g == h * f,
                h > 0,
                f >= 2,
                b >= 1,
                m >= 0x10_0000_0000_0000,
                a < 0x10_0000_0000_0000,
        {
            assert(2 * (m * (b * (h * f))) - b * (h * f) == (2 * m - 1) * (b * f) * h);
            assert((2 * m - 1) * (b * f) >= (2 * m - 1) * 2);
            assert((2 * m - 1) * (b * f) * h >= (2 * m - 1) * 2 * h);
            assert((2 * m - 1) * 2 * h > 2 * a * h);
        }
    } else {
        let p = pow2((-q.exp) as nat);
        lemma_pow2_adds(j, (-q.exp) as nat);
        assert(n == a * p * g) by (nonlinear_arith)
            requires
                n == a * (g * p),
        ;
        assert(m * (b * g) == m * b * g) by (nonlinear_arith);
        let (l, r) = (m * b, a * p);
        assert(2 * l <= 2 * r + b && 2 * r <= 2 * l + b) by (nonlinear_arith)
            requires
                2 * (l * g) <= 2 * (r * g) + b * g,
                2 * (r * g) <= 2 * (l * g) + b * g,
                g > 0,
        ;
    }
}

/// An integer with its mantissa shifted by `k` places.
pub proof fn lemma_exponents_of_wholes(n: nat, k: nat)
    requires
        n > 0,
        n * pow2(k) < 0x20_0000_0000_0000,
    ensures
        k < 53,
{
    vstd::arithmetic::power2::lemma2_to64_rest();
    if k >= 53 {
        if k > 53 {
            lemma_pow2_strictly_increases(53, k);
        }
        assert(n * pow2(k) >= pow2(k)) by (nonlinear_arith)
            requires
                n >= 1,
                pow2(k) >= 0,
        ;
    }
}

/// A product with one hundred is exact as long as it has 52 bits at most.
proof fn lemma_hundredfold(n: nat)
    requires
        0 < n,
        100 * n < 0x10_0000_0000_0000,
    ensures
        product(whole(n), whole(100)) == whole(100 * n),
{
    lemma_hundred();
    law_whole_is_exact(n);
    vstd::arithmetic::power2::lemma2_to64();
    vstd::arithmetic::power2::lemma2_to64_rest();
    let x = whole(n);
    let k = (-x.exp) as nat;
    let p = pow2(k);
    lemma_pow2_pos(k);
    assert(n * p > 0) by (nonlinear_arith)
        requires
            n > 0,
            p > 0,
    ;
    assert(p > 64) by (nonlinear_arith)
        requires
            n * p >= 0x10_0000_0000_0000,
            100 * n < 0x10_0000_0000_0000,
    ;
    lemma_exponent_below(6, k);
    let num = x.mant as nat * 7_036_874_417_766_400nat;
    let d: nat = if num < 0x200_0000_0000_0000_0000_0000_0000 {
        52
    } else {
        53
    };
    let j = (k + 46 - d) as nat;
    lemma_pow2_adds(j, (d - 46) as nat);
    let m = 100 * n * pow2(j);
    let f = pow2((d - 46) as nat);
    assert(num == m * f * 0x4000_0000_0000nat) by (nonlinear_arith)
        requires
            num == n * p * 7_036_874_417_766_400nat,
            p == pow2(j) * f,
            m == 100 * n * pow2(j),
    ;
    let g = pow2(d);
    assert(num == m * g) by (nonlinear_arith)
        requires
            num == m * f * 0x4000_0000_0000nat,
            (f == 64 && g == 0x10_0000_0000_0000) || (f == 128 && g == 0x20_0000_0000_0000),
    ;
    assert(0x10_0000_0000_0000 * 7_036_874_417_766_400 <= num < 0x20_0000_0000_0000 * 7_036_874_417_766_400);
    assert(0x10_0000_0000_0000 <= m < 0x20_0000_0000_0000);
    lemma_whole_is(100 * n, j);
    assert(1 * g == g);
    lemma_shrunk_by(num, 1, x.exp - 46, d);
    assert(num / g == m && num % g == 0) by (nonlinear_arith)
        requires
            num == m * g,
            g > 0,
    ;
}

/// A percentage: `m / 2^k` with an error of at most one half of the last place,
/// where `2^k` is far above the whole.
proof fn lemma_percent(part: nat, total: nat)
    requires
        0 < part < 0x1000_0000_0000,
        0 < total < 0x1000_0000_0000,
    ensures
        ({
            let q = percent(part, total);
            let p = pow2((-q.exp) as nat);
            &&& q.wf()
            &&& q.mant > 0
            &&& q.exp < 0
            &&& p > total
            &&& part <= 10 * total ==> p > 0x400_0000_0000
            &&& 2 * (q.mant * total) <= 200 * (part * p) + total
            &&& 200 * (part * p) <= 2 * (q.mant * total) + total
        }),
{
    lemma_hundredfold(part);
    lemma_ratio(100 * part, total);
    let q = percent(part, total);
    let p = pow2((-q.exp) as nat);
    lemma_pow2_pos((-q.exp) as nat);
    assert((100 * part) * p == 100 * (part * p)) by (nonlinear_arith);
    assert(p > total) by (nonlinear_arith)
        requires
            2 * (q.mant * total) <= 200 * (part * p) + total,
            part < 0x1000_0000_0000,
            q.mant >= 0x10_0000_0000_0000,
            total > 0,
            p > 0,
    {
        assert(200 * (part * p) <= 0xc_8000_0000_0000 * p);
        assert((2 * q.mant - 1) * total >= 0x1f_ffff_ffff_ffff * total);
        assert(0x1f_ffff_ffff_ffff * total <= 0xc_8000_0000_0000 * p);
    }
    if part <= 10 * total {
        assert(p > 0x400_0000_0000) by (nonlinear_arith)
            requires
                2 * (q.mant * total) <= 200 * (part * p) + total,
                part <= 10 * total,
                q.mant >= 0x10_0000_0000_0000,
                total > 0,
                p > 0,
        {
            assert(200 * (part * p) <= 2000 * (total * p));
            assert((2 * q.mant - 1) * total <= 2000 * (total * p));
            assert(2 * q.mant - 1 <= 2000 * p);
        }
    }
    vstd::arithmetic::power2::lemma2_to64();
}

/// A share in whole percent is what integers give: the exact percentage rounded,
/// a half going up.
pub proof fn law_share_in_whole_percent(part: nat, total: nat)
    requires
        part < 0x1000_0000_0000,
        0 < total < 0x1000_0000_0000,
    ensures
        half_up(percent(part, total)) == (200 * part + total) / (2 * total),
{
    let q = percent(part, total);
    let b = total;
    let n = (200 * part + total) / (2 * total);
    if part == 0 {
        assert(n == 0) by (nonlinear_arith)
            requires
                n == total / (2 * total),
                total > 0,
        ;
        vstd::arithmetic::power2::lemma2_to64();
        assert(0 * pow2(0) == 0);
    } else {
        lemma_percent(part, total);
        let k = (-q.exp) as nat;
        let p = pow2(k);
        let h = pow2((k - 1) as nat);
        lemma_pow2_unfold(k);
        let m = q.mant as nat;
        assert(2 * n * b <= 200 * part + b < 2 * n * b + 2 * b) by (nonlinear_arith)
            requires
                n == (200 * part + b) / (2 * b),
                b > 0,
        ;
        assert(2 * m < (2 * n + 1) * p) by (nonlinear_arith)
            requires
                2 * (m * b) <= 200 * (part * p) + b,
                200 * part + 1 <= 2 * n * b + b,
                p > b,
                b > 0,
        {
            assert(200 * (part * p) + p <= (2 * n * b + b) * p);
            assert((2 * n * b + b) * p == (2 * n + 1) * p * b);
            assert((2 * m) * b < (2 * n + 1) * p * b);
        }
        assert(2 * m + 1 >= (2 * n - 1) * p) by (nonlinear_arith)
            requires
                200 * (part * p) <= 2 * (m * b) + b,
                2 * n * b <= 200 * part + b,
                p > 0,
                b > 0,
        {
            assert(200 * (part * p) + b * p >= 2 * n * b * p);
            assert((2 * n - 1) * p * b == 2 * n * b * p - b * p);
            assert((2 * m + 1) * b >= (2 * n - 1) * p * b);
        }
        let odd = (2 * n - 1) * p;
        assert(odd == 2 * ((2 * n - 1) * h)) by (nonlinear_arith)
            requires
                odd == (2 * n - 1) * p,
                p == 2 * h,
        ;
        assert(2 * m >= odd);
        assert((2 * m + p) / (2 * p) == n) by (nonlinear_arith)
            requires
                2 * m >= (2 * n - 1) * p,
                2 * m < (2 * n + 1) * p,
                p > 0,
        {
            let z = (2 * m + p) as int;
            let d = (2 * p) as int;
            assert(n * d <= z < (n + 1) * d);
            vstd::arithmetic::div_mod::lemma_fundamental_div_mod_converse(z, d, n as int, z - n * d);
        }
    }
}

/// A share with one decimal, or with none, is as near to the exact percentage as
/// can be.
pub proof fn law_share_is_printed_nearest(part: nat, total: nat, scale: nat)
    requires
        part <= 10 * total,
        0 < total < 0x40_0000_0000,
        scale == 1 || scale == 10,
    ensures
        ({
            let n = fixed(percent(part, total), scale);
            &&& 2 * n * total <= 200 * scale * part + total
            &&& 200 * scale * part <= 2 * n * total + total
        }),
{
    let q = percent(part, total);
    let b = total;
    let n = fixed(q, scale);
    if part == 0 {
        vstd::arithmetic::power2::lemma2_to64();
        assert(q.mant * scale * pow2(0) == 0);
        assert(n == 0);
        assert(2 * n * total == 0 && 200 * scale * part == 0) by (nonlinear_arith)
            requires
                n == 0,
                part == 0,
        ;
    } else {
        lemma_percent(part, total);
        let p = pow2((-q.exp) as nat);
        let m = q.mant as nat;
        lemma_half_even(m * scale, p);
        let (u, v) = (2 * n * b, 200 * scale * part);
        assert(u <= v + b && v <= u + b) by (nonlinear_arith)
            requires
                2 * n * p <= 2 * (m * scale) + p,
                2 * (m * scale) <= 2 * n * p + p,
                2 * (m * b) <= 200 * (part * p) + b,
                200 * (part * p) <= 2 * (m * b) + b,
                p > 10 * b,
                b > 0,
                scale == 1 || scale == 10,
                u == 2 * n * b,
                v == 200 * scale * part,
        {
            assert(u * p == b * (2 * n * p));
            assert(v * p == scale * (200 * (part * p)));
            assert(b * (2 * n * p) <= b * (2 * (m * scale) + p));
            assert(b * (2 * (m * scale)) <= b * (2 * n * p + p));
            assert(b * (2 * (m * scale)) == scale * (2 * (m * b)));
            assert(scale * (2 * (m * b)) <= scale * (200 * (part * p) + b));
            assert(scale * (200 * (part * p)) <= scale * (2 * (m * b) + b));
            assert(u * p <= v * p + scale * b + b * p);
            assert(v * p <= u * p + scale * b + b * p);
            assert(scale * b < p);
            assert((u - v - b) * p < p);
            assert((v - u - b) * p < p);
        }
    }
}

/// A percentage is below or above a whole number of percent exactly where the
/// integers say so.
pub proof fn law_share_is_held_against_wholes(part: nat, total: nat, n: nat)
    requires
        part < 0x1000_0000_0000,
        0 < total < 0x1000_0000_0000,
        0 < n < 0x10_0000,
    ensures
        less(percent(part, total), whole(n)) <==> 100 * part < n * total,
        less(whole(n), percent(part, total)) <==> 100 * part > n * total,
{
    if part == 0 {
        lemma_nothing_of(total, n);
    } else {
        lemma_part_held_against_wholes(part, total, n);
    }
}

proof fn lemma_nothing_of(total: nat, n: nat)
    requires
        total > 0,
        0 < n < 0x10_0000,
    ensures
        less(percent(0, total), whole(n)),
        !less(whole(n), percent(0, total)),
        n * total > 0,
{
    law_whole_is_exact(n);
    let j = (-whole(n).exp) as nat;
    lemma_pow2_pos(j);
    assert(n * pow2(j) > 0 && n * total > 0) by (nonlinear_arith)
        requires
            n > 0,
            pow2(j) > 0,
            total > 0,
    ;
}

proof fn lemma_part_held_against_wholes(part: nat, total: nat, n: nat)
    requires
        0 < part < 0x1000_0000_0000,
        0 < total < 0x1000_0000_0000,
        0 < n < 0x10_0000,
    ensures
        less(percent(part, total), whole(n)) <==> 100 * part < n * total,
        less(whole(n), percent(part, total)) <==> 100 * part > n * total,
{
    lemma_percent(part, total);
    law_whole_is_exact(n);
    let q = percent(part, total);
    let w = whole(n);
    let k = (-q.exp) as nat;
    let j = (-w.exp) as nat;
    let p = pow2(k);
    lemma_pow2_pos(j);
    lemma_pow2_pos(k);
    assert(n * pow2(j) > 0) by (nonlinear_arith)
        requires
            n > 0,
            pow2(j) > 0,
    ;
    let m = q.mant as nat;
    if k >= j {
        law_order_is_numeric(q, w, q.exp as int);
        law_order_is_numeric(w, q, q.exp as int);
        lemma_pow2_adds(j, (k - j) as nat);
        vstd::arithmetic::power2::lemma2_to64();
        assert(w.mant * pow2((k - j) as nat) == n * p && m * pow2(0) == m) by (nonlinear_arith)
            requires
                w.mant == n * pow2(j),
                p == pow2(j) * pow2((k - j) as nat),
                pow2(0) == 1,
        ;
    } else {
        law_order_is_numeric(q, w, w.exp as int);
        law_order_is_numeric(w, q, w.exp as int);
        lemma_pow2_adds(k, (j - k) as nat);
        lemma_pow2_pos((j - k) as nat);
        vstd::arithmetic::power2::lemma2_to64();
        let g = pow2((j - k) as nat);
        assert(w.mant * pow2(0) == n * p * g) by (nonlinear_arith)
            requires
                w.mant == n * pow2(j),
                pow2(j) == p * g,
                pow2(0) == 1,
        ;
        let np = n * p;
        assert((m * g < np * g <==> m < np) && (np * g < m * g <==> np < m)) by (nonlinear_arith)
            requires
                g > 0,
        ;
    }
    assert((m < n * p) == (100 * part < n * total) && (m > n * p) == (100 * part > n * total)) by (nonlinear_arith)
        requires
            2 * (m * total) <= 200 * (part * p) + total,
            200 * (part * p) <= 2 * (m * total) + total,
            p > total,
            total > 0,
    {
        let (a, b) = (100 * part, n * total);
        assert(a * p == 100 * (part * p));
        assert(b * p == n * p * total);
        if a < b {
            assert((b - a) * p >= p);
            assert(2 * (m * total) < 2 * (n * p * total));
            assert(m < n * p);
        } else if a > b {
            assert((a - b) * p >= p);
            assert(2 * (m * total) > 2 * (n * p * total));
            assert(m > n * p);
        } else {
            assert(2 * ((m - n * p) * total) <= total);
            assert(2 * ((n * p - m) * total) <= total);
            assert(m == n * p);
        }
    }
}

/// The product of two figures is the figure nearest to the exact product.
pub proof fn law_product_is_nearest(a: Binary64, b: Binary64)
    requires
        a.wf(),
        b.wf(),
        a.mant > 0,
        b.mant > 0,
        -900 <= a.exp + b.exp <= 800,
    ensures
        ({
            let x = product(a, b);
            let d = pow2((x.exp - a.exp - b.exp) as nat);
            &&& x.wf()
            &&& x.mant > 0
            &&& 52 <= x.exp - a.exp - b.exp <= 54
            &&& 0x10_0000_0000_0000 <= d <= 0x40_0000_0000_0000
            &&& 2 * (x.mant * d) <= 2 * (a.mant * b.mant) + d
            &&& 2 * (a.mant * b.mant) <= 2 * (x.mant * d) + d
        }),
{
    vstd::arithmetic::power2::lemma2_to64();
    vstd::arithmetic::power2::lemma2_to64_rest();
    let num = (a.mant * b.mant) as nat;
    assert(0x10_0000_0000_0000 * 0x10_0000_0000_0000 <= num < 0x20_0000_0000_0000 * 0x20_0000_0000_0000)
        by (nonlinear_arith)
        requires
            num == a.mant * b.mant,
            0x10_0000_0000_0000 <= a.mant < 0x20_0000_0000_0000,
            0x10_0000_0000_0000 <= b.mant < 0x20_0000_0000_0000,
    ;
    let k: nat = if num < 0x200_0000_0000_0000_0000_0000_0000 {
        52
    } else {
        53
    };
    let d = pow2(k);
    assert(1 * d == d);
    lemma_shrunk_by(num, 1, a.exp + b.exp, k);
    lemma_half_even(num, d);
    let m = half_even(num, d);
    assert(0x10_0000_0000_0000 <= m <= 0x20_0000_0000_0000) by (nonlinear_arith)
        requires
            2 * m * d <= 2 * num + d,
            2 * num <= 2 * m * d + d,
            0x10_0000_0000_0000 * d <= num,
            num < 0x20_0000_0000_0000 * d,
            d > 0,
    ;
    assert(m * d * 2 == 2 * m * d && 0x20_0000_0000_0000 * d == 0x10_0000_0000_0000 * (2 * d)) by (nonlinear_arith);
}

/// A figure times one hundred.
proof fn lemma_hundredfold_is_nearest(q: Binary64)
    requires
        q.wf(),
        q.mant > 0,
        -200 <= q.exp <= 100,
    ensures
        ({
            let x = product(q, whole(100));
            let d = pow2((x.exp - q.exp + 46) as nat);
            &&& x.wf()
            &&& x.mant > 0
            &&& 52 <= x.exp - q.exp + 46 <= 54
            &&& d >= 0x10_0000_0000_0000
            &&& 2 * (x.mant * d) <= 2 * (q.mant * 7_036_874_417_766_400) + d
            &&& 2 * (q.mant * 7_036_874_417_766_400) <= 2 * (x.mant * d) + d
        }),
{
    lemma_hundred();
    law_product_is_nearest(q, whole(100));
}

proof fn lemma_least_score()
    ensures
        quotient(whole(999), whole(10)) == (Binary64 { mant: 7_029_837_543_348_634, exp: (-46) as i32 }),
{
    vstd::arithmetic::power2::lemma2_to64();
    vstd::arithmetic::power2::lemma2_to64_rest();
    lemma_whole_is(999, 43);
    lemma_whole_is(10, 49);
    let a = (999 * 0x800_0000_0000) as nat;
    lemma_grown_by(a, 0x14_0000_0000_0000, 6, 52);
    let num = a * pow2(52);
    assert(num == a * 0x10_0000_0000_0000);
}

proof fn lemma_one_percent()
    ensures
        quotient(whole(1), whole(100)) == (Binary64 { mant: 5_764_607_523_034_235, exp: (-59) as i32 }),
{
    lemma_hundred();
    vstd::arithmetic::power2::lemma2_to64();
    vstd::arithmetic::power2::lemma2_to64_rest();
    lemma_whole_is(1, 52);
    lemma_grown_by(0x10_0000_0000_0000, 7_036_874_417_766_400, -6, 53);
    let num = 0x10_0000_0000_0000nat * pow2(53);
    assert(num == 0x10_0000_0000_0000nat * 0x20_0000_0000_0000nat);
}

/// Figures below one with the exponents `-k` and `-j` are ordered as the cross
/// products.
proof fn lemma_order_crosswise(x: Binary64, y: Binary64)
    requires
        x.wf(),
        y.wf(),
        x.mant > 0,
        y.mant > 0,
        x.exp <= 0,
        y.exp <= 0,
    ensures
        less(x, y) <==> x.mant * pow2((-y.exp) as nat) < y.mant * pow2((-x.exp) as nat),
{
    let k = (-x.exp) as nat;
    let j = (-y.exp) as nat;
    law_order_is_numeric(x, y, -(k + j));
}

/// The score of a container is at least 99.9 percent if and only if at least that
/// share of it was parsed; only within a millionth of a billionth of the mark may
/// the roundings of binary64 decide.
pub proof fn law_score_is_held_against_the_mark(consumed: nat, total: nat)
    requires
        consumed <= total,
        0 < total < 0x10_0000_0000_0000,
    ensures
        1_000_000_000_000_000 * consumed + total <= 999_000_000_000_000 * total ==> less(
            score_of(consumed, total),
            quotient(whole(999), whole(10)),
        ),
        1_000_000_000_000_000 * consumed >= 999_000_000_000_000 * total + total ==> !less(
            score_of(consumed, total),
            quotient(whole(999), whole(10)),
        ),
{
    lemma_least_score();
    lemma_hundred();
    let mark = quotient(whole(999), whole(10));
    if consumed == 0 {
        assert(score_of(consumed, total).mant == 0);
    } else {
        lemma_ratio(consumed, total);
        let q = quotient(whole(consumed), whole(total));
        let k = (-q.exp) as nat;
        let p = pow2(k);
        let c = consumed;
        let t = total;
        assert(p >= q.mant) by (nonlinear_arith)
            requires
                2 * (q.mant * t) <= 2 * (c * p) + t,
                c <= t,
                t > 0,
        {
            assert(c * p <= t * p);
            assert((2 * q.mant - 1) * t <= 2 * p * t);
        }
        vstd::arithmetic::power2::lemma2_to64_rest();
        lemma_exponent_below(51, k);
        lemma_exponents_are_moderate(q, c, t);
        lemma_hundredfold_is_nearest(q);
        let x = product(q, whole(100));
        let j = (-x.exp) as nat;
        let n = pow2(j);
        let i = (x.exp - q.exp + 46) as nat;
        let d = pow2(i);
        lemma_pow2_adds(j, i);
        lemma_pow2_adds(k, 46);
        assert(n * d == p * 0x4000_0000_0000);
        if j > 44 {
            lemma_pow2_strictly_increases(44, j);
        }
        let m = x.mant as nat;
        lemma_scaled_bounds(q.mant as nat, c, t, p, m, d, n);
        lemma_order_crosswise(x, mark);
        lemma_order_crosswise(whole(100), x);
        vstd::arithmetic::power2::lemma2_to64();
        if 1_000_000_000_000_000 * c + t <= 999_000_000_000_000 * t {
            assert(m * 0x4000_0000_0000 < 7_029_837_543_348_634 * n) by (nonlinear_arith)
                requires
                    1_000_000_000_000_000 * c + t <= 999_000_000_000_000 * t,
                    200 * (m * t) <= 20_000 * (c * n) + 260 * t,
                    n >= 0x1000_0000_0000,
                    t > 0,
            {
                assert(1_000_000_000_000_000 * (c * n) + t * n <= 999_000_000_000_000 * (t * n));
                assert(0x1000_0000_0000 * t <= t * n);
                assert((m * 0x4000_0000_0000) * t < (7_029_837_543_348_634 * n) * t);
            }
        }
        if 1_000_000_000_000_000 * c >= 999_000_000_000_000 * t + t {
            assert(m * 0x4000_0000_0000 >= 7_029_837_543_348_634 * n) by (nonlinear_arith)
                requires
                    1_000_000_000_000_000 * c >= 999_000_000_000_000 * t + t,
                    20_000 * (c * n) <= 200 * (m * t) + 260 * t,
                    n >= 0x1000_0000_0000,
                    t > 0,
            {
                assert(1_000_000_000_000_000 * (c * n) >= 999_000_000_000_000 * (t * n) + t * n);
                assert(0x1000_0000_0000 * t <= t * n);
                assert((m * 0x4000_0000_0000) * t >= (7_029_837_543_348_634 * n) * t);
            }
        }
    }
}

/// The exponent of a quotient of two integers.
proof fn lemma_exponents_are_moderate(q: Binary64, a: nat, b: nat)
    requires
        0 < a < 0x10_0000_0000_0000,
        0 < b < 0x20_0000_0000_0000,
        q == quotient(whole(a), whole(b)),
    ensures
        q.exp >= -110,
{
    law_whole_is_exact(a);
    law_whole_is_exact(b);
    let i = (-whole(a).exp) as nat;
    let j = (-whole(b).exp) as nat;
    lemma_pow2_pos(i);
    lemma_pow2_pos(j);
    assert(a * pow2(i) > 0 && b * pow2(j) > 0) by (nonlinear_arith)
        requires
            a > 0,
            b > 0,
            pow2(i) > 0,
            pow2(j) > 0,
    ;
    lemma_exponents_of_wholes(a, i);
    lemma_exponents_of_wholes(b, j);
    law_quotient_is_nearest(whole(a), whole(b));
}

/// Two roundings in a row: `m / n` is one hundred times `c / t`, but for less than
/// two units of the last place.
proof fn lemma_scaled_bounds(q: nat, c: nat, t: nat, p: nat, m: nat, d: nat, n: nat)
    requires
        2 * (q * t) <= 2 * (c * p) + t,
        2 * (c * p) <= 2 * (q * t) + t,
        2 * (m * d) <= 2 * (q * 7_036_874_417_766_400) + d,
        2 * (q * 7_036_874_417_766_400) <= 2 * (m * d) + d,
        n * d == p * 0x4000_0000_0000,
        d >= 0x10_0000_0000_0000,
    ensures
        200 * (m * t) <= 20_000 * (c * n) + 260 * t,
        20_000 * (c * n) <= 200 * (m * t) + 260 * t,
{
    let h = 7_036_874_417_766_400nat;
    assert(h == 100 * 0x4000_0000_0000);
    assert(2 * ((m * t) * d) <= 200 * ((c * n) * d) + h * t + d * t && 200 * ((c * n) * d) <= 2 * ((m * t) * d) + h * t
        + d * t) by (nonlinear_arith)
        requires
            2 * (q * t) <= 2 * (c * p) + t,
            2 * (c * p) <= 2 * (q * t) + t,
            2 * (m * d) <= 2 * (q * h) + d,
            2 * (q * h) <= 2 * (m * d) + d,
            n * d == p * 0x4000_0000_0000,
            h == 100 * 0x4000_0000_0000,
    {
        assert((2 * (m * d)) * t <= (2 * (q * h) + d) * t);
        assert((2 * (q * h)) * t <= (2 * (m * d) + d) * t);
        assert((2 * (q * t)) * h <= (2 * (c * p) + t) * h);
        assert((2 * (c * p)) * h <= (2 * (q * t) + t) * h);
        assert((m * t) * d == (m * d) * t);
        assert((q * h) * t == (q * t) * h);
        assert((c * p) * h == 100 * (c * (p * 0x4000_0000_0000)));
        assert(c * (n * d) == (c * n) * d);
    }
    let (u, v) = (m * t, c * n);
    assert(200 * u <= 20_000 * v + 260 * t && 20_000 * v <= 200 * u + 260 * t) by (nonlinear_arith)
        requires
            2 * (u * d) <= 200 * (v * d) + h * t + d * t,
            200 * (v * d) <= 2 * (u * d) + h * t + d * t,
            d >= 0x10_0000_0000_0000,
            h == 7_036_874_417_766_400,
    {
        assert(100 * (h * t) <= 160 * (d * t));
        assert((200 * u) * d <= (20_000 * v + 260 * t) * d);
        assert((20_000 * v) * d <= (200 * u + 260 * t) * d);
    }
}

/// The share of oversize frames is at least one percent of all frames exactly
/// where the integers say so.
pub proof fn law_one_percent_is_exact(part: nat, total: nat)
    requires
        part <= total,
        0 < total < 0x200_0000_0000,
    ensures
        !less(quotient(whole(part), whole(total)), quotient(whole(1), whole(100))) <==> 100 * part >= total,
{
    lemma_one_percent();
    let y = quotient(whole(1), whole(100));
    let q = quotient(whole(part), whole(total));
    if part == 0 {
        assert(q.mant == 0);
    } else {
        lemma_ratio(part, total);
        vstd::arithmetic::power2::lemma2_to64();
        vstd::arithmetic::power2::lemma2_to64_rest();
        lemma_order_crosswise(q, y);
        let k = (-q.exp) as nat;
        let p = pow2(k);
        let m = q.mant as nat;
        if k > 59 {
            if k > 60 {
                lemma_pow2_strictly_increases(60, k);
            }
        } else if k < 59 {
            if k < 58 {
                lemma_pow2_strictly_increases(k, 58);
            }
        }
        let (o, t) = (part, total);
        if 100 * o >= t {
            assert(100 * m + 50 >= p) by (nonlinear_arith)
                requires
                    2 * (o * p) <= 2 * (m * t) + t,
                    100 * o >= t,
                    t > 0,
            {
                assert(100 * (o * p) >= t * p);
                assert(2 * (t * p) <= (200 * m + 100) * t);
            }
        } else {
            assert(100 * m <= p + 50) by (nonlinear_arith)
                requires
                    2 * (m * t) <= 2 * (o * p) + t,
                    100 * o <= t,
                    t > 0,
            {
                assert(100 * (o * p) <= t * p);
                assert((200 * m) * t <= (2 * p + 100) * t);
            }
            assert(100 * m + 150 <= p) by (nonlinear_arith)
                requires
                    2 * (m * t) <= 2 * (o * p) + t,
                    100 * o + 1 <= t,
                    0 < t < 0x200_0000_0000,
                    p >= 200 * t,
            {
                assert(100 * (o * p) + p <= t * p);
                assert(200 * (m * t) <= 2 * (t * p) - 2 * p + 100 * t);
                assert((200 * m + 300) * t <= 2 * p * t);
            }
        }
    }
}

/// Eight times an integer of up to 49 bits is exact.
proof fn lemma_eightfold(n: nat)
    requires
        0 < n,
        8 * n < 0x10_0000_0000_0000,
    ensures
        product(whole(n), whole(8)) == whole(8 * n),
{
    vstd::arithmetic::power2::lemma2_to64();
    vstd::arithmetic::power2::lemma2_to64_rest();
    lemma_whole_is(8, 49);
    law_whole_is_exact(n);
    let x = whole(n);
    let k = (-x.exp) as nat;
    let p = pow2(k);
    lemma_pow2_pos(k);
    assert(n * p > 0) by (nonlinear_arith)
        requires
            n > 0,
            p > 0,
    ;
    assert(p > 8) by (nonlinear_arith)
        requires
            n * p >= 0x10_0000_0000_0000,
            8 * n < 0x10_0000_0000_0000,
    ;
    lemma_exponent_below(3, k);
    let j = (k - 3) as nat;
    lemma_pow2_adds(j, 3);
    assert(8 * n * pow2(j) == n * p) by (nonlinear_arith)
        requires
            p == pow2(j) * 8,
    ;
    lemma_whole_is(8 * n, j);
    let m = x.mant as nat;
    let g = 0x10_0000_0000_0000nat;
    let num = m * g;
    assert(num < 0x200_0000_0000_0000_0000_0000_0000) by (nonlinear_arith)
        requires
            num == m * g,
            m < 0x20_0000_0000_0000,
            g == 0x10_0000_0000_0000,
    ;
    assert(num >= 1 * pow2(51) * 0x20_0000_0000_0000nat) by (nonlinear_arith)
        requires
            num == m * g,
            m >= 0x10_0000_0000_0000,
            g == 0x10_0000_0000_0000,
            pow2(51) == 0x8_0000_0000_0000,
    ;
    assert(1 * pow2(52) == g);
    lemma_shrunk_by(num, 1, x.exp - 49, 52);
    assert(num / g == m && num % g == 0 && num < g * 0x20_0000_0000_0000) by (nonlinear_arith)
        requires
            num == m * g,
            g == 0x10_0000_0000_0000,
            m < 0x20_0000_0000_0000,
    ;
}

/// The bits per second of some bytes in a whole number of seconds: as near to eight
/// times the bytes by the seconds as can be, `m / 2^k`.
pub proof fn law_bit_rate(bytes: nat, seconds: nat)
    requires
        0 < bytes < 0x2_0000_0000_0000,
        0 < seconds < 0x20_0000_0000_0000,
    ensures
        ({
            let q = bit_rate(bytes, whole(seconds));
            let p = pow2((-q.exp) as nat);
            &&& q.exp <= 0
            &&& 2 * (q.mant * seconds) <= 16 * (bytes * p) + seconds
            &&& 16 * (bytes * p) <= 2 * (q.mant * seconds) + seconds
        }),
{
    lemma_eightfold(bytes);
    lemma_ratio(8 * bytes, seconds);
    let q = bit_rate(bytes, whole(seconds));
    let p = pow2((-q.exp) as nat);
    assert(8 * bytes * p == 8 * (bytes * p)) by (nonlinear_arith);
}

/// A megabit is a million bits: the megabits per second are as near to the bits per
/// second by a million as can be.
pub proof fn law_megabit_rate(bytes: nat, span: Binary64)
    requires
        bit_rate(bytes, span).wf(),
        bit_rate(bytes, span).mant > 0,
        -900 <= bit_rate(bytes, span).exp <= 800,
    ensures
        ({
            let b = bit_rate(bytes, span);
            let m = megabit_rate(bytes, span);
            let s = b.exp - m.exp + 33;
            &&& s >= 0
            &&& 2 * (m.mant * 1_000_000 * 0x2_0000_0000) <= 2 * (b.mant * pow2(s as nat)) + 1_000_000 * 0x2_0000_0000
            &&& 2 * (b.mant * pow2(s as nat)) <= 2 * (m.mant * 1_000_000 * 0x2_0000_0000) + 1_000_000 * 0x2_0000_0000
        }),
{
    crate::figures::lemma_rate_wholes();
    let b = bit_rate(bytes, span);
    law_quotient_is_nearest(b, whole(1_000_000));
    let m = megabit_rate(bytes, span);
    assert(m.mant * 8_589_934_592_000_000 == m.mant * 1_000_000 * 0x2_0000_0000) by (nonlinear_arith);
}

/// A span of whole seconds in units of whole seconds is rounded to the nearest.
pub proof fn law_units_of_time(seconds: nat, unit: nat)
    requires
        seconds < 0x1_0000_0000_0000,
        0 < unit < 0x1_0000_0000,
    ensures
        2 * (units_of(whole(seconds), unit) * unit) <= 2 * seconds + unit,
        2 * seconds <= 2 * (units_of(whole(seconds), unit) * unit) + unit,
{
    let n = units_of(whole(seconds), unit);
    if seconds == 0 {
        vstd::arithmetic::power2::lemma2_to64();
        assert(quotient(whole(0), whole(unit)).mant == 0);
        assert(n == 0);
        assert(n * unit == 0) by (nonlinear_arith)
            requires
                n == 0,
        ;
    } else {
        lemma_ratio(seconds, unit);
        let q = quotient(whole(seconds), whole(unit));
        let p = pow2((-q.exp) as nat);
        let m = q.mant as nat;
        assert(p > unit) by (nonlinear_arith)
            requires
                2 * (m * unit) <= 2 * (seconds * p) + unit,
                seconds < 0x1_0000_0000_0000,
                m >= 0x10_0000_0000_0000,
                unit > 0,
        {
            assert(0x1f_ffff_ffff_ffff * unit <= (2 * m - 1) * unit);
            assert(2 * (seconds * p) <= 0x2_0000_0000_0000 * p);
            assert(0x1f_ffff_ffff_ffff * unit <= 0x2_0000_0000_0000 * p);
        }
        vstd::arithmetic::power2::lemma2_to64();
        assert(m * 1 == m);
        lemma_half_even(m * 1, p);
        let (u, v) = (2 * (n * unit), 2 * seconds);
        assert(u <= v + unit && v <= u + unit) by (nonlinear_arith)
            requires
                2 * n * p <= 2 * m + p,
                2 * m <= 2 * n * p + p,
                2 * (m * unit) <= 2 * (seconds * p) + unit,
                2 * (seconds * p) <= 2 * (m * unit) + unit,
                p > unit,
                unit > 0,
                u == 2 * (n * unit),
                v == 2 * seconds,
        {
            assert(u * p == unit * (2 * n * p));
            assert(v * p == 2 * (seconds * p));
            assert(unit * (2 * n * p) <= unit * (2 * m + p));
            assert(unit * (2 * m) <= unit * (2 * n * p + p));
            assert(unit * (2 * m) == 2 * (m * unit));
            assert((u - v - unit) * p < p);
            assert((v - u - unit) * p < p);
        }
    }
}

/// A share of a percentage: the quotient by one hundred, times a width.
proof fn lemma_share_of_width(m0: nat, p0: nat, a: nat, t: nat, m1: nat, p1: nat, w: nat, m2: nat, p2: nat, d: nat, r: nat)
    requires
        2 * (m0 * t) <= 200 * (a * p0) + t,
        200 * (a * p0) <= 2 * (m0 * t) + t,
        2 * (100 * (m1 * p0)) <= 2 * (m0 * p1) + 100 * p0,
        2 * (m0 * p1) <= 2 * (100 * (m1 * p0)) + 100 * p0,
        2 * (m2 * d) <= 2 * (m1 * (w * 0x1_0000_0000_0000)) + d,
        2 * (m1 * (w * 0x1_0000_0000_0000)) <= 2 * (m2 * d) + d,
        2 * (r * p2) <= 2 * m2 + p2,
        2 * m2 <= 2 * (r * p2) + p2,
        p2 * d == p1 * 0x1_0000_0000_0000,
        0 < t < 0x200_0000_0000,
        p0 >= 0x400_0000_0000,
        p1 >= 0x8_0000_0000_0000,
        p2 >= 0x1000_0000_0000,
        0 < w <= 28,
        d > 0,
    ensures
        2 * (r * t) <= 2 * (w * a) + t,
        2 * (w * a) <= 2 * (r * t) + t,
{
    let z = 0x1_0000_0000_0000nat;
    let k = p0 * p1;
    let (ut, ua) = (r * t, w * a);
    // the bar, times the whole
    let mt = m2 * t;
    assert(2 * (ut * p2) <= 2 * mt + p2 * t && 2 * mt <= 2 * (ut * p2) + p2 * t) by (nonlinear_arith)
        requires
            2 * (r * p2) <= 2 * m2 + p2,
            2 * m2 <= 2 * (r * p2) + p2,
            ut == r * t,
            mt == m2 * t,
    {
        assert((2 * (r * p2)) * t <= (2 * m2 + p2) * t);
        assert((2 * m2) * t <= (2 * (r * p2) + p2) * t);
    }
    // the product, times the whole
    let nt = m1 * t;
    assert(2 * (mt * d) <= 2 * (nt * (w * z)) + d * t && 2 * (nt * (w * z)) <= 2 * (mt * d) + d * t) by (nonlinear_arith)
        requires
            2 * (m2 * d) <= 2 * (m1 * (w * z)) + d,
            2 * (m1 * (w * z)) <= 2 * (m2 * d) + d,
            mt == m2 * t,
            nt == m1 * t,
    {
        assert((2 * (m2 * d)) * t <= (2 * (m1 * (w * z)) + d) * t);
        assert((2 * (m1 * (w * z))) * t <= (2 * (m2 * d) + d) * t);
    }
    // the quotient, times the whole and the first scale
    assert(200 * (nt * p0) <= 200 * (a * k) + t * p1 + 100 * (p0 * t) && 200 * (a * k) <= 200 * (nt * p0) + t * p1 + 100
        * (p0 * t)) by (nonlinear_arith)
        requires
            2 * (m0 * t) <= 200 * (a * p0) + t,
            200 * (a * p0) <= 2 * (m0 * t) + t,
            2 * (100 * (m1 * p0)) <= 2 * (m0 * p1) + 100 * p0,
            2 * (m0 * p1) <= 2 * (100 * (m1 * p0)) + 100 * p0,
            nt == m1 * t,
            k == p0 * p1,
    {
        assert((2 * (100 * (m1 * p0))) * t <= (2 * (m0 * p1) + 100 * p0) * t);
        assert((2 * (m0 * p1)) * t <= (2 * (100 * (m1 * p0)) + 100 * p0) * t);
        assert((2 * (m0 * t)) * p1 <= (200 * (a * p0) + t) * p1);
        assert((200 * (a * p0)) * p1 <= (2 * (m0 * t) + t) * p1);
        assert((m0 * p1) * t == (m0 * t) * p1);
        assert((m1 * p0) * t == nt * p0);
        assert((a * p0) * p1 == a * k);
    }
    lemma_bar_adds_up(ut, ua, mt, nt, a, t, w, p0, p1, p2, d, k);
}

proof fn lemma_bar_adds_up(
    ut: nat,
    ua: nat,
    mt: nat,
    nt: nat,
    a: nat,
    t: nat,
    w: nat,
    p0: nat,
    p1: nat,
    p2: nat,
    d: nat,
    k: nat,
)
    requires
        ua == w * a,
        k == p0 * p1,
        2 * (ut * p2) <= 2 * mt + p2 * t,
        2 * mt <= 2 * (ut * p2) + p2 * t,
        2 * (mt * d) <= 2 * (nt * (w * 0x1_0000_0000_0000)) + d * t,
        2 * (nt * (w * 0x1_0000_0000_0000)) <= 2 * (mt * d) + d * t,
        200 * (nt * p0) <= 200 * (a * k) + t * p1 + 100 * (p0 * t),
        200 * (a * k) <= 200 * (nt * p0) + t * p1 + 100 * (p0 * t),
        p2 * d == p1 * 0x1_0000_0000_0000,
        0 < t < 0x200_0000_0000,
        p0 >= 0x400_0000_0000,
        p1 >= 0x8_0000_0000_0000,
        p2 >= 0x1000_0000_0000,
        0 < w <= 28,
        d > 0,
    ensures
        2 * ut <= 2 * ua + t,
        2 * ua <= 2 * ut + t,
{
    let z = 0x1_0000_0000_0000nat;
    let nw = nt * w;
    assert(d <= 16 * p1) by (nonlinear_arith)
        requires
            p2 * d == p1 * z,
            p2 >= 0x1000_0000_0000,
            z == 0x1_0000_0000_0000,
    ;
    assert(16 * (ut * p1) <= 16 * nw + 8 * (p1 * t) + p1 && 16 * nw <= 16 * (ut * p1) + 8 * (p1 * t) + p1)
        by (nonlinear_arith)
        requires
            2 * (ut * p2) <= 2 * mt + p2 * t,
            2 * mt <= 2 * (ut * p2) + p2 * t,
            2 * (mt * d) <= 2 * (nt * (w * z)) + d * t,
            2 * (nt * (w * z)) <= 2 * (mt * d) + d * t,
            p2 * d == p1 * z,
            nw == nt * w,
            z == 0x1_0000_0000_0000,
            d <= 16 * p1,
            t < 0x200_0000_0000,
            d > 0,
    {
        let (x, y) = (ut * p1, p1 * t);
        assert((2 * (ut * p2)) * d <= (2 * mt + p2 * t) * d);
        assert((2 * mt) * d <= (2 * (ut * p2) + p2 * t) * d);
        assert((ut * p2) * d == x * z);
        assert((p2 * t) * d == y * z);
        assert(nt * (w * z) == nw * z);
        assert(d * t <= (16 * p1) * 0x200_0000_0000);
        assert(8 * (d * t) <= p1 * z);
        assert((16 * x) * z <= (16 * nw + 8 * y + p1) * z);
        assert((16 * nw) * z <= (16 * x + 8 * y + p1) * z);
    }
    assert(200 * (nw * p0) <= 200 * (ua * k) + 17 * k && 200 * (ua * k) <= 200 * (nw * p0) + 17 * k) by (nonlinear_arith)
        requires
            200 * (nt * p0) <= 200 * (a * k) + t * p1 + 100 * (p0 * t),
            200 * (a * k) <= 200 * (nt * p0) + t * p1 + 100 * (p0 * t),
            nw == nt * w,
            ua == w * a,
            k == p0 * p1,
            0 < w <= 28,
            t < 0x200_0000_0000,
            p0 >= 0x400_0000_0000,
            p1 >= 0x8_0000_0000_0000,
    {
        assert((200 * (nt * p0)) * w <= (200 * (a * k) + t * p1 + 100 * (p0 * t)) * w);
        assert((200 * (a * k)) * w <= (200 * (nt * p0) + t * p1 + 100 * (p0 * t)) * w);
        assert((nt * p0) * w == nw * p0);
        assert((a * k) * w == ua * k);
        assert(2 * t <= p0);
        assert(2 * (t * p1) <= k);
        assert(0x400 * t <= p1);
        assert(0x400 * (p0 * t) <= k);
        assert((t * p1) * w <= (t * p1) * 28);
        assert((p0 * t) * w <= (p0 * t) * 28);
    }
    assert(k > 0) by (nonlinear_arith)
        requires
            k == p0 * p1,
            p0 > 0,
            p1 > 0,
    ;
    assert(2 * ut <= 2 * ua + t && 2 * ua <= 2 * ut + t) by (nonlinear_arith)
        requires
            16 * (ut * p1) <= 16 * nw + 8 * (p1 * t) + p1,
            16 * nw <= 16 * (ut * p1) + 8 * (p1 * t) + p1,
            200 * (nw * p0) <= 200 * (ua * k) + 17 * k,
            200 * (ua * k) <= 200 * (nw * p0) + 17 * k,
            k == p0 * p1,
            k > 0,
    {
        assert((16 * (ut * p1)) * p0 <= (16 * nw + 8 * (p1 * t) + p1) * p0);
        assert((16 * nw) * p0 <= (16 * (ut * p1) + 8 * (p1 * t) + p1) * p0);
        assert((ut * p1) * p0 == ut * k);
        assert((p1 * t) * p0 == t * k);
        assert((3200 * ut) * k <= (3200 * ua + 1600 * t + 472) * k);
        assert((3200 * ua) * k <= (3200 * ut + 1600 * t + 472) * k);
    }
}

/// The bar of a share: its length is the share of its width, rounded to the nearest.
#[verifier::rlimit(30)]
pub proof fn law_share_bar(part: nat, total: nat, width: nat)
    requires
        0 < part <= total,
        total < 0x200_0000_0000,
        width == 24 || width == 28,
    ensures
        2 * (share_bar(percent(part, total), width) * total) <= 2 * (width * part) + total,
        2 * (width * part) <= 2 * (share_bar(percent(part, total), width) * total) + total,
        share_bar(percent(part, total), width) <= width,
{
    lemma_percent(part, total);
    lemma_hundred();
    vstd::arithmetic::power2::lemma2_to64();
    vstd::arithmetic::power2::lemma2_to64_rest();
    let x0 = percent(part, total);
    let k0 = (-x0.exp) as nat;
    let (m0, p0) = (x0.mant as nat, pow2(k0));
    lemma_percent_is_moderate(part, total);
    law_quotient_is_nearest(x0, whole(100));
    let x1 = quotient(x0, whole(100));
    let m1 = x1.mant as nat;
    lemma_hundredth(x0, part, total);
    let k1 = (-x1.exp) as nat;
    let p1 = pow2(k1);
    if width == 24 {
        lemma_whole_is(24, 48);
    } else {
        lemma_whole_is(28, 48);
    }
    law_product_is_nearest(x1, whole(width));
    let x2 = product(x1, whole(width));
    let m2 = x2.mant as nat;
    let k2 = (-x2.exp) as nat;
    let p2 = pow2(k2);
    let e = (x2.exp - x1.exp + 48) as nat;
    let d = pow2(e);
    lemma_pow2_adds(k2, e);
    lemma_pow2_adds(k1, 48);
    if k2 > 44 {
        lemma_pow2_strictly_increases(44, k2);
    }
    crate::binary64::law_roundings(x2);
    let r = half_up(x2);
    lemma_share_of_width(m0, p0, part, total, m1, p1, width, m2, p2, d, r);
    assert(r <= width) by (nonlinear_arith)
        requires
            2 * (r * total) <= 2 * (width * part) + total,
            part <= total,
            total > 0,
    {
        assert(width * part <= width * total);
        assert((2 * r) * total <= (2 * width + 1) * total);
    }
}

/// The exponent of a percentage.
proof fn lemma_percent_is_moderate(part: nat, total: nat)
    requires
        0 < part <= total,
        total < 0x200_0000_0000,
    ensures
        -200 <= percent(part, total).exp < 0,
{
    lemma_hundredfold(part);
    lemma_percent(part, total);
    lemma_exponents_are_moderate(percent(part, total), 100 * part, total);
}

/// A percentage by one hundred: at most one.
#[verifier::rlimit(30)]
proof fn lemma_hundredth(x: Binary64, part: nat, total: nat)
    requires
        0 < part <= total,
        total < 0x200_0000_0000,
        x == percent(part, total),
    ensures
        ({
            let q = quotient(x, whole(100));
            let p0 = pow2((-x.exp) as nat);
            let p1 = pow2((-q.exp) as nat);
            &&& q.wf()
            &&& q.mant > 0
            &&& -300 <= q.exp <= -51
            &&& p1 >= 0x8_0000_0000_0000
            &&& 2 * (100 * (q.mant * p0)) <= 2 * (x.mant * p1) + 100 * p0
            &&& 2 * (x.mant * p1) <= 2 * (100 * (q.mant * p0)) + 100 * p0
        }),
{
    lemma_percent(part, total);
    lemma_percent_is_moderate(part, total);
    lemma_hundred();
    vstd::arithmetic::power2::lemma2_to64();
    vstd::arithmetic::power2::lemma2_to64_rest();
    law_quotient_is_nearest(x, whole(100));
    let q = quotient(x, whole(100));
    let s = (x.exp + 46 - q.exp) as nat;
    let k0 = (-x.exp) as nat;
    let (m0, m1) = (x.mant as nat, q.mant as nat);
    let p0 = pow2(k0);
    let g = 0x4000_0000_0000nat;
    lemma_pow2_pos(k0);
    lemma_pow2_pos(s);
    // the percentage is at most one hundred
    assert(m0 <= 101 * p0) by (nonlinear_arith)
        requires
            2 * (m0 * total) <= 200 * (part * p0) + total,
            part <= total,
            total > 0,
            p0 > 0,
    {
        assert(part * p0 <= total * p0);
        assert((2 * m0) * total <= (200 * p0 + 1) * total);
    }
    // so that the quotient is about one at most
    if q.exp > -51 {
        lemma_pow2_adds(s, k0);
        // pow2(s) * p0 == pow2(46 - q.exp)
        assert(s + k0 == 46 - q.exp);
        if s + k0 < 97 {
            if s + k0 < 96 {
                lemma_pow2_strictly_increases(s + k0, 96);
            }
            lemma_pow2_adds(46, 50);
        }
        assert(false) by (nonlinear_arith)
            requires
                2 * (m1 * 7_036_874_417_766_400) <= 2 * (m0 * pow2(s)) + 7_036_874_417_766_400,
                m0 <= 101 * p0,
                pow2(s) * p0 <= 0x4000_0000_0000 * 0x4_0000_0000_0000,
                m1 >= 0x10_0000_0000_0000,
        {
            assert(m0 * pow2(s) <= (101 * p0) * pow2(s));
            assert((101 * p0) * pow2(s) == 101 * (pow2(s) * p0));
        }
    }
    let k1 = (-q.exp) as nat;
    let p1 = pow2(k1);
    if k1 > 51 {
        lemma_pow2_strictly_increases(51, k1);
    }
    lemma_pow2_adds(s, k0);
    lemma_pow2_adds(k1, 46);
    assert(pow2(s) * p0 == p1 * g);
    assert(2 * (100 * (m1 * p0)) <= 2 * (m0 * p1) + 100 * p0 && 2 * (m0 * p1) <= 2 * (100 * (m1 * p0)) + 100 * p0)
        by (nonlinear_arith)
        requires
            2 * (m1 * 7_036_874_417_766_400) <= 2 * (m0 * pow2(s)) + 7_036_874_417_766_400,
            2 * (m0 * pow2(s)) <= 2 * (m1 * 7_036_874_417_766_400) + 7_036_874_417_766_400,
            pow2(s) * p0 == p1 * g,
            g == 0x4000_0000_0000,
    {
        assert((2 * (m1 * 7_036_874_417_766_400)) * p0 <= (2 * (m0 * pow2(s)) + 7_036_874_417_766_400) * p0);
        assert((2 * (m0 * pow2(s))) * p0 <= (2 * (m1 * 7_036_874_417_766_400) + 7_036_874_417_766_400) * p0);
        assert((m0 * pow2(s)) * p0 == (m0 * p1) * g);
        assert((m1 * 7_036_874_417_766_400) * p0 == (100 * (m1 * p0)) * g);
        assert((2 * (100 * (m1 * p0))) * g <= (2 * (m0 * p1) + 100 * p0) * g);
        assert((2 * (m0 * p1)) * g <= (2 * (100 * (m1 * p0)) + 100 * p0) * g);
    }
}

/// The bar of the most frequent chain, of at least a tenth of a percent, is twenty
/// long, and no bar is shorter than one.
pub proof fn law_longest_bar(pct: Binary64, top: Binary64)
    requires
        top.wf(),
        top.mant > 0,
        !less(top, quotient(whole(1), whole(10))),
    ensures
        relative_bar(top, top) == 20,
        relative_bar(pct, top) >= 1,
{
    crate::binary64::law_self_quotient_is_one(top);
    vstd::arithmetic::power2::lemma2_to64();
    vstd::arithmetic::power2::lemma2_to64_rest();
    lemma_whole_is(20, 48);
    let num = (0x10_0000_0000_0000 * 0x14_0000_0000_0000) as nat;
    assert(1 * pow2(52) == 0x10_0000_0000_0000nat);
    lemma_shrunk_by(num, 1, -100, 52);
    let x = product(crate::binary64::one(), whole(20));
    assert(x == (Binary64 { mant: 0x14_0000_0000_0000, exp: (-48) as i32 }));
    assert(pow2(48) == 0x1_0000_0000_0000);
    let (m, p) = (0x14_0000_0000_0000nat, 0x1_0000_0000_0000nat);
    assert((2 * m + p) / (2 * p) == 20) by (nonlinear_arith)
        requires
            m == 20 * p,
            p > 0,
    ;
    assert(half_up(x) == 20);
    assert(crate::figures::bar_scale(top) == top);
}

} // verus!
