//! The figures of a report: sizes, shares, rates and the two scores.

use vstd::arithmetic::power2::pow2;
use vstd::prelude::*;

use crate::binary64::Binary64;
#[allow(unused_imports)]
use crate::binary64::{
    fixed, half_up, law_lesser_quotient_is_below_one, law_self_quotient_is_one, law_sum_is_nearest, law_whole_is_exact,
    lemma_grown_by, lemma_shrunk_by, lemma_whole_is, less, one, product, quotient, sum, whole, zero,
};
#[allow(unused_imports)]
use crate::moments::is_span;
use crate::text::{decimal_text, push_decimal, push_digits, push_doubled, push_hundredths, push_tenths};
#[allow(unused_imports)]
use crate::text::{decimal, hundredths_text, tenths_text};

verus! {

/// The names of the units of size, each 1024 times the one before.
pub open spec fn unit_text(i: nat) -> Seq<char> {
    if i == 0 {
        "B"@
    } else if i == 1 {
        "KB"@
    } else if i == 2 {
        "MB"@
    } else if i == 3 {
        "GB"@
    } else {
        "TB"@
    }
}

/// A size taken to the greatest unit of which it holds at least one, from unit
/// `i` on; terabytes are the greatest.
pub open spec fn in_units(v: Binary64, i: nat) -> (Binary64, nat)
    decreases 4 - i,
{
    if i < 4 && !less(v, whole(1024)) {
        in_units(quotient(v, whole(1024)), i + 1)
    } else {
        (v, i)
    }
}

/// A number of bytes as text.
pub open spec fn bytes_text(n: nat) -> Seq<char> {
    if n < 1024 {
        decimal(n) + " B"@
    } else {
        let (v, i) = in_units(whole(n), 0);
        tenths_text(fixed(v, 10)) + " "@ + unit_text(i)
    }
}

/// A number of bytes, with one decimal from a kilobyte on.
pub fn human_bytes(n: usize) -> (r: String)
    ensures
        r@ == bytes_text(n as nat),
{
    if n < 1024 {
        let mut out = decimal_text(n as u128);
        out.append(" B");
        return out;
    }
    let kilo: Binary64 = Binary64::whole(1024);
    let mut v: Binary64 = Binary64::whole(n as u128);
    let mut i: u32 = 0;
    while i < 4 && !v.is_less(kilo)
        invariant
            kilo == whole(1024),
            kilo.wf(),
            kilo.mant > 0,
            -52 <= kilo.exp <= 0,
            i <= 4,
            v.wf(),
            v.mant > 0,
            -52 - 60 * i <= v.exp <= 17 + i,
            in_units(whole(n as nat), 0) == in_units(v, i as nat),
        decreases 4 - i,
    {
        v = v.over(kilo);
        i = i + 1;
    }
    let mut out = String::new();
    push_tenths(&mut out, v.fixed(10));
    out.append(" ");
    out.append(
        if i == 0 {
            "B"
        } else if i == 1 {
            "KB"
        } else if i == 2 {
            "MB"
        } else if i == 3 {
            "GB"
        } else {
            "TB"
        },
    );
    assert(out@ =~= bytes_text(n as nat));
    out
}

/// The number one hundred.
pub proof fn lemma_hundred()
    ensures
        whole(100) == (Binary64 { mant: 7_036_874_417_766_400, exp: (-46) as i32 }),
{
    vstd::arithmetic::power2::lemma2_to64();
    vstd::arithmetic::power2::lemma2_to64_rest();
    lemma_whole_is(100, 46);
}

/// `part` of `total` in percent, `part * 100 / total`.
pub open spec fn percent(part: nat, total: nat) -> Binary64 {
    quotient(product(whole(part), whole(100)), whole(total))
}

/// `part` of `total` in percent.
pub fn percent_of(part: u128, total: u128) -> (r: Binary64)
    requires
        part < 0x10_0000_0000_0000_0000,
        total > 0,
    ensures
        r == percent(part as nat, total as nat),
        r.wf(),
        r.exp <= 26,
        r.mant > 0 ==> r.exp >= -250,
        r.mant > 0 <==> part > 0,
{
    proof {
        lemma_hundred();
    }
    Binary64::whole(part).times(Binary64::whole(100)).over(Binary64::whole(total))
}

/// The share of the file that was parsed, in percent and at most one hundred.
pub open spec fn score_of(consumed: nat, total: nat) -> Binary64 {
    if total == 0 {
        zero()
    } else {
        let s = product(quotient(whole(consumed), whole(total)), whole(100));
        if less(whole(100), s) {
            whole(100)
        } else {
            s
        }
    }
}

/// The share of the file that was parsed, in percent.
pub fn score(consumed: usize, total: usize) -> (r: Binary64)
    ensures
        r == score_of(consumed as nat, total as nat),
        r.wf(),
        r.exp <= 26,
        r.mant > 0 ==> r.exp >= -250,
        !less(whole(100), r),
{
    if total == 0 {
        return Binary64 { mant: 0, exp: 0 };
    }
    proof {
        lemma_hundred();
    }
    let hundred: Binary64 = Binary64::whole(100);
    Binary64::whole(consumed as u128).over(Binary64::whole(total as u128)).times(hundred).min(hundred)
}

/// The bits per second of `bytes` bytes within `span` seconds.
pub open spec fn bit_rate(bytes: nat, span: Binary64) -> Binary64 {
    quotient(product(whole(bytes), whole(8)), span)
}

/// The megabits per second of `bytes` bytes within `span` seconds.
pub open spec fn megabit_rate(bytes: nat, span: Binary64) -> Binary64 {
    quotient(bit_rate(bytes, span), whole(1_000_000))
}

pub proof fn lemma_rate_wholes()
    ensures
        whole(1) == (Binary64 { mant: 0x10_0000_0000_0000, exp: (-52) as i32 }),
        whole(8) == (Binary64 { mant: 0x10_0000_0000_0000, exp: (-49) as i32 }),
        whole(1_000_000) == (Binary64 { mant: 8_589_934_592_000_000, exp: (-33) as i32 }),
        whole(1_000_000_000) == (Binary64 { mant: 8_388_608_000_000_000, exp: (-23) as i32 }),
{
    vstd::arithmetic::power2::lemma2_to64();
    vstd::arithmetic::power2::lemma2_to64_rest();
    lemma_whole_is(1, 52);
    lemma_whole_is(8, 49);
    lemma_whole_is(1_000_000, 33);
    lemma_whole_is(1_000_000_000, 23);
}

/// The bits per second of `bytes` bytes within `span` seconds.
pub fn bits_per_second(bytes: u64, span: Binary64) -> (r: Binary64)
    requires
        is_span(span),
        span.mant > 0,
    ensures
        r == bit_rate(bytes as nat, span),
        r.wf(),
        -250 <= r.exp <= 100,
{
    proof {
        lemma_rate_wholes();
    }
    Binary64::whole(bytes as u128).times(Binary64::whole(8)).over(span)
}

/// The megabits per second of `bytes` bytes within `span` seconds.
pub fn megabits_per_second(bytes: u64, span: Binary64) -> (r: Binary64)
    requires
        is_span(span),
        span.mant > 0,
    ensures
        r == megabit_rate(bytes as nat, span),
        r.wf(),
        r.exp <= 100,
{
    proof {
        lemma_rate_wholes();
    }
    bits_per_second(bytes, span).over(Binary64::whole(1_000_000))
}

/// How many whole units of `unit` seconds a span of time comes to, rounded half
/// to even.
pub open spec fn units_of(span: Binary64, unit: nat) -> nat {
    fixed(quotient(span, whole(unit)), 1)
}

/// How many units of `unit` seconds a span of time comes to.
pub fn units_in(span: Binary64, unit: u32) -> (r: u128)
    requires
        is_span(span),
        unit > 0,
    ensures
        r == units_of(span, unit as nat),
{
    span.over(Binary64::whole(unit as u128)).fixed(1)
}

/// Appends a figure rounded to an integer, a tie going to the even one.
pub fn push_whole_figure(out: &mut String, x: Binary64)
    requires
        x.wf(),
        x.exp <= 100,
    ensures
        final(out)@ == old(out)@ + decimal(fixed(x, 1)),
{
    if x.exp > 60 {
        assert(x.mant as nat * 1 * pow2(x.exp as nat) == x.mant as nat * pow2(x.exp as nat)) by (nonlinear_arith);
        push_doubled(out, x.mant, x.exp as u32);
    } else {
        push_decimal(out, x.fixed(1));
    }
}

/// Appends a figure with two decimals.
pub fn push_hundredths_of(out: &mut String, x: Binary64)
    requires
        x.wf(),
        x.exp <= 100,
    ensures
        final(out)@ == old(out)@ + hundredths_text(fixed(x, 100)),
{
    if x.exp > 60 {
        let ghost n = x.mant as nat * pow2(x.exp as nat);
        assert(x.mant as nat * 100 * pow2(x.exp as nat) == n * 100) by (nonlinear_arith)
            requires
                n == x.mant as nat * pow2(x.exp as nat),
        ;
        assert((n * 100) / 100 == n && (n * 100) % 100 == 0);
        push_doubled(out, x.mant, x.exp as u32);
        out.push('.');
        push_digits(out, 0, 2);
        assert(out@ =~= old(out)@ + hundredths_text(fixed(x, 100)));
    } else {
        push_hundredths(out, x.fixed(100));
    }
}

/// The length of a bar: a figure rounded, as far as a length can hold it.
pub open spec fn bar_len(x: Binary64) -> nat {
    if half_up(x) > usize::MAX {
        usize::MAX as nat
    } else {
        half_up(x)
    }
}

fn bar_of(x: Binary64) -> (r: usize)
    requires
        x.wf(),
        x.exp <= 60,
    ensures
        r == bar_len(x),
{
    let n: u128 = x.rounded();
    if n > usize::MAX as u128 {
        usize::MAX
    } else {
        n as usize
    }
}

/// The filled part of a bar of `width` for a percentage.
pub open spec fn share_bar(pct: Binary64, width: nat) -> nat {
    bar_len(product(quotient(pct, whole(100)), whole(width)))
}

/// The filled part of a bar of `width` for a percentage.
pub fn bar_of_share(pct: Binary64, width: u32) -> (r: usize)
    requires
        pct.wf(),
        pct.exp <= 26,
        pct.mant > 0 ==> pct.exp >= -250,
        width == 24 || width == 28,
    ensures
        r == share_bar(pct, width as nat),
{
    proof {
        lemma_hundred();
        lemma_small_wholes();
    }
    bar_of(pct.over(Binary64::whole(100)).times(Binary64::whole(width as u128)))
}

/// The figure `0.1`.
pub open spec fn tenth() -> Binary64 {
    quotient(whole(1), whole(10))
}

/// The percentage that fills a bar: the greatest one, at least `0.1`.
pub open spec fn bar_scale(top: Binary64) -> Binary64 {
    if less(top, tenth()) {
        tenth()
    } else {
        top
    }
}

/// The length of a bar of twenty at most, and one at least, for a percentage
/// beside the greatest one.
pub open spec fn relative_bar(pct: Binary64, top: Binary64) -> nat {
    let n = bar_len(product(quotient(pct, bar_scale(top)), whole(20)));
    if n < 1 {
        1
    } else {
        n
    }
}

/// The length of a bar for a percentage beside the greatest one.
pub fn bar_beside(pct: Binary64, top: Binary64) -> (r: usize)
    requires
        pct.wf(),
        pct.exp <= 26,
        pct.mant > 0 ==> pct.exp >= -250,
        top.wf(),
        top.exp <= 26,
    ensures
        r == relative_bar(pct, top),
{
    proof {
        lemma_small_wholes();
    }
    let least: Binary64 = Binary64::whole(1).over(Binary64::whole(10));
    let scale: Binary64 = if top.is_less(least) {
        least
    } else {
        top
    };
    let n: usize = bar_of(pct.over(scale).times(Binary64::whole(20)));
    if n < 1 {
        1
    } else {
        n
    }
}

/// The weight of a quality finding, `0.3`.
pub open spec fn finding_weight() -> Binary64 {
    quotient(whole(3), whole(10))
}

/// A sum with the weight of `n` quality findings added, one after the other.
pub open spec fn with_findings(s: Binary64, n: nat) -> Binary64
    decreases n,
{
    if n == 0 {
        s
    } else {
        sum(with_findings(s, (n - 1) as nat), finding_weight())
    }
}

/// The mean of the criteria in percent: a pass counts one, a deviation one half,
/// a failure nothing, and each quality finding as one more criterion of weight 0.3.
pub open spec fn mean_percent(passes: nat, warns: nat, scored: nat, findings: nat) -> Binary64 {
    if scored + findings == 0 {
        zero()
    } else {
        product(
            quotient(
                with_findings(quotient(whole(2 * passes + warns), whole(2)), findings),
                whole(scored + findings),
            ),
            whole(100),
        )
    }
}

/// The conformance: the mean of the criteria, capped by the integrity of the container.
pub open spec fn conformance_of(passes: nat, warns: nat, scored: nat, findings: nat, score: Binary64) -> Binary64 {
    let m = mean_percent(passes, warns, scored, findings);
    if less(score, m) {
        score
    } else {
        m
    }
}

proof fn lemma_small_wholes()
    ensures
        whole(1) == (Binary64 { mant: 0x10_0000_0000_0000, exp: (-52) as i32 }),
        whole(2) == (Binary64 { mant: 0x10_0000_0000_0000, exp: (-51) as i32 }),
        whole(3) == (Binary64 { mant: 0x18_0000_0000_0000, exp: (-51) as i32 }),
        whole(10) == (Binary64 { mant: 0x14_0000_0000_0000, exp: (-49) as i32 }),
        whole(20) == (Binary64 { mant: 0x14_0000_0000_0000, exp: (-48) as i32 }),
        whole(24) == (Binary64 { mant: 0x18_0000_0000_0000, exp: (-48) as i32 }),
        whole(28) == (Binary64 { mant: 0x1c_0000_0000_0000, exp: (-48) as i32 }),
{
    vstd::arithmetic::power2::lemma2_to64();
    vstd::arithmetic::power2::lemma2_to64_rest();
    lemma_whole_is(1, 52);
    lemma_whole_is(2, 51);
    lemma_whole_is(3, 51);
    lemma_whole_is(10, 49);
    lemma_whole_is(20, 48);
    lemma_whole_is(24, 48);
    lemma_whole_is(28, 48);
}

/// The conformance score: one hundred only where every criterion passes.
pub fn conformance(passes: u64, warns: u64, scored: u64, findings: u64, score: Binary64) -> (r: Binary64)
    requires
        score.wf(),
        score.exp <= 26,
    ensures
        r == conformance_of(passes as nat, warns as nat, scored as nat, findings as nat, score),
        r.wf(),
        r.exp <= 26,
{
    if scored == 0 && findings == 0 {
        return score.min(Binary64 { mant: 0, exp: 0 });
    }
    proof {
        lemma_small_wholes();
        lemma_hundred();
        lemma_finding_weight();
    }
    let weight: Binary64 = Binary64::whole(3).over(Binary64::whole(10));
    let halves: u128 = 2 * passes as u128 + warns as u128;
    let mut total: Binary64 = Binary64::whole(halves).over(Binary64::whole(2));
    let ghost start = total;
    let mut i: u64 = 0;
    while i < findings
        invariant
            i <= findings,
            weight == finding_weight(),
            weight.wf(),
            weight.mant > 0,
            weight.exp == -54,
            total == with_findings(start, i as nat),
            total.wf(),
            total.mant > 0 ==> -60 <= total.exp <= 20,
        decreases findings - i,
    {
        // from an exponent of two on the weight is below the last place, and is lost
        total = total.plus(weight);
        i = i + 1;
    }
    let count: u128 = scored as u128 + findings as u128;
    let mean: Binary64 = total.over(Binary64::whole(count)).times(Binary64::whole(100));
    mean.min(score)
}

/// Half of a figure has its mantissa, one exponent below.
proof fn lemma_halved(x: Binary64)
    requires
        x.wf(),
        x.mant > 0,
        x.exp >= -900,
    ensures
        quotient(x, whole(2)) == (Binary64 { mant: x.mant, exp: (x.exp - 1) as i32 }),
{
    lemma_small_wholes();
    vstd::arithmetic::power2::lemma2_to64();
    vstd::arithmetic::power2::lemma2_to64_rest();
    let m = x.mant as nat;
    let y = 0x10_0000_0000_0000nat;
    assert(m * pow2(51) < y * 0x10_0000_0000_0000) by (nonlinear_arith)
        requires
            m < 0x20_0000_0000_0000,
            y == 0x10_0000_0000_0000,
            pow2(51) == 0x8_0000_0000_0000,
    ;
    lemma_grown_by(m, y, x.exp + 51, 52);
    let num = m * pow2(52);
    assert(num == m * y) by (nonlinear_arith)
        requires
            num == m * pow2(52),
            pow2(52) == y,
    ;
    assert(num / y == m && num % y == 0) by (nonlinear_arith)
        requires
            num == m * y,
            y > 0,
    ;
}

/// A figure below one, times one hundred, stays below one hundred.
proof fn lemma_below_hundred(r: Binary64)
    requires
        r.wf(),
        r.mant > 0 ==> -900 <= r.exp <= -53,
    ensures
        less(product(r, whole(100)), whole(100)),
{
    lemma_hundred();
    if r.mant > 0 {
        vstd::arithmetic::power2::lemma2_to64();
        vstd::arithmetic::power2::lemma2_to64_rest();
        let p = (r.mant * 7_036_874_417_766_400) as nat;
        let e = r.exp - 46;
        if p < 0x200_0000_0000_0000_0000_0000_0000 {
            lemma_shrunk_by(p, 1, e as int, 52);
        } else {
            lemma_shrunk_by(p, 1, e as int, 53);
        }
    }
}

proof fn lemma_one_hundred_percent()
    ensures
        product(one(), whole(100)) == whole(100),
{
    lemma_hundred();
    vstd::arithmetic::power2::lemma2_to64();
    vstd::arithmetic::power2::lemma2_to64_rest();
    let p = (0x10_0000_0000_0000 * 7_036_874_417_766_400) as nat;
    lemma_shrunk_by(p, 1, -98, 52);
}

/// A figure in units of `2^-56`.
spec fn magnitude(x: Binary64) -> int {
    x.mant * pow2((x.exp + 56) as nat)
}

proof fn lemma_less_by_magnitude(x: Binary64, y: Binary64)
    requires
        x.wf(),
        y.wf(),
        x.mant > 0,
        y.mant > 0,
        x.exp >= -56,
        y.exp >= -56,
        magnitude(x) < magnitude(y),
    ensures
        less(x, y),
{
    let i = (x.exp + 56) as nat;
    let j = (y.exp + 56) as nat;
    if i > j {
        vstd::arithmetic::power2::lemma_pow2_unfold(i);
        if j + 1 < i {
            vstd::arithmetic::power2::lemma_pow2_strictly_increases(j, (i - 1) as nat);
        }
        assert(x.mant * pow2(i) >= y.mant * pow2(j)) by (nonlinear_arith)
            requires
                pow2(i) == 2 * pow2((i - 1) as nat),
                pow2(j) <= pow2((i - 1) as nat),
                2 * x.mant >= y.mant,
        ;
    } else if i == j {
        if x.mant >= y.mant {
            assert(x.mant * pow2(i) >= y.mant * pow2(i)) by (nonlinear_arith)
                requires
                    x.mant >= y.mant,
            ;
        }
    }
}

proof fn lemma_finding_weight()
    ensures
        finding_weight() == (Binary64 { mant: 5_404_319_552_844_595, exp: (-54) as i32 }),
{
    lemma_small_wholes();
    vstd::arithmetic::power2::lemma2_to64();
    vstd::arithmetic::power2::lemma2_to64_rest();
    lemma_grown_by(0x18_0000_0000_0000, 0x14_0000_0000_0000, -2, 52);
    let num = 0x18_0000_0000_0000nat * pow2(52);
    assert(num == 0x18_0000_0000_0000 * 0x10_0000_0000_0000);
}

/// One more finding adds its weight, and at most a rounding far below it.
proof fn lemma_one_more_finding(s: Binary64)
    requires
        s.wf(),
        s.mant > 0 ==> -55 <= s.exp <= -4,
    ensures
        ({
            let r = sum(s, finding_weight());
            &&& r.wf()
            &&& r.mant > 0
            &&& -55 <= r.exp <= (if s.mant == 0 {
                -54
            } else if s.exp >= -54 {
                s.exp + 2
            } else {
                -52
            })
            &&& magnitude(r) <= magnitude(s) + 30_624_477_466_119_372
            &&& 2 * magnitude(r) <= 2 * (magnitude(s) + 21_617_278_211_378_380) + pow2((r.exp + 56) as nat)
            &&& 2 * (magnitude(s) + 21_617_278_211_378_380) <= 2 * magnitude(r) + pow2((r.exp + 56) as nat)
        }),
{
    lemma_finding_weight();
    let w = finding_weight();
    vstd::arithmetic::power2::lemma2_to64();
    vstd::arithmetic::power2::lemma2_to64_rest();
    assert(magnitude(w) == 21_617_278_211_378_380);
    if s.mant == 0 {
        assert(magnitude(s) == 0) by (nonlinear_arith)
            requires
                magnitude(s) == s.mant * pow2((s.exp + 56) as nat),
                s.mant == 0,
        ;
    } else {
        let (a, b) = if s.exp >= w.exp {
            (s, w)
        } else {
            (w, s)
        };
        law_sum_is_nearest(a, b);
        let r = sum(s, w);
        assert(sum(a, b) == r);
        let base = pow2((b.exp + 56) as nat);
        let gap = pow2((a.exp - b.exp) as nat);
        let unit = pow2((r.exp - b.exp) as nat);
        vstd::arithmetic::power2::lemma_pow2_adds((a.exp - b.exp) as nat, (b.exp + 56) as nat);
        vstd::arithmetic::power2::lemma_pow2_adds((r.exp - b.exp) as nat, (b.exp + 56) as nat);
        let up = pow2((r.exp + 56) as nat);
        if r.exp + 56 < 54 {
            vstd::arithmetic::power2::lemma_pow2_strictly_increases((r.exp + 56) as nat, 54);
        }
        assert(magnitude(a) == a.mant * gap * base) by (nonlinear_arith)
            requires
                magnitude(a) == a.mant * pow2((a.exp + 56) as nat),
                pow2((a.exp + 56) as nat) == gap * base,
        ;
        assert(magnitude(r) == r.mant * unit * base) by (nonlinear_arith)
            requires
                magnitude(r) == r.mant * up,
                up == unit * base,
        ;
        assert(2 * magnitude(r) <= 2 * (magnitude(a) + magnitude(b)) + up) by (nonlinear_arith)
            requires
                magnitude(r) == r.mant * unit * base,
                magnitude(a) == a.mant * gap * base,
                magnitude(b) == b.mant * base,
                2 * (r.mant * unit) <= 2 * (a.mant * gap + b.mant) + unit,
                up == unit * base,
                base >= 0,
        ;
        assert(2 * (magnitude(a) + magnitude(b)) <= 2 * magnitude(r) + up) by (nonlinear_arith)
            requires
                magnitude(r) == r.mant * unit * base,
                magnitude(a) == a.mant * gap * base,
                magnitude(b) == b.mant * base,
                2 * (a.mant * gap + b.mant) <= 2 * (r.mant * unit) + unit,
                up == unit * base,
                base >= 0,
        ;
    }
}

/// The exponent of a figure follows from its size.
proof fn lemma_exponent_of(x: Binary64)
    requires
        x.wf(),
        x.mant > 0,
        x.exp >= -56,
        magnitude(x) <= 0x1000_0000_0000_0000_0000_0000,
    ensures
        x.exp <= -16,
{
    let k = (x.exp + 56) as nat;
    if k > 40 {
        vstd::arithmetic::power2::lemma2_to64_rest();
        vstd::arithmetic::power2::lemma_pow2_strictly_increases(40, k);
        assert(x.mant * pow2(k) > 0x1000_0000_0000_0000_0000_0000) by (nonlinear_arith)
            requires
                x.mant >= 0x10_0000_0000_0000,
                pow2(k) > 0x100_0000_0000,
        ;
    }
}

/// Half of an integer.
proof fn lemma_half_of(a: nat)
    requires
        a < 0x4_0000_0000,
    ensures
        ({
            let s = quotient(whole(a), whole(2));
            &&& s.wf()
            &&& s.mant > 0 <==> a > 0
            &&& s.mant > 0 ==> s.exp >= -53
            &&& 2 * magnitude(s) == a * 0x100_0000_0000_0000
        }),
{
    let s = quotient(whole(a), whole(2));
    if a == 0 {
        assert(magnitude(s) == 0) by (nonlinear_arith)
            requires
                magnitude(s) == s.mant * pow2((s.exp + 56) as nat),
                s.mant == 0,
        ;
    } else {
        law_whole_is_exact(a);
        lemma_small_bounds(a);
        lemma_halved(whole(a));
        lemma_magnitude_of_whole(a);
        let j = (s.exp + 56) as nat;
        vstd::arithmetic::power2::lemma_pow2_unfold((whole(a).exp + 56) as nat);
        assert(2 * magnitude(s) == magnitude(whole(a))) by (nonlinear_arith)
            requires
                magnitude(s) == s.mant * pow2(j),
                magnitude(whole(a)) == s.mant * (2 * pow2(j)),
        ;
    }
}

/// The findings together: their exponent, and what they add.
proof fn lemma_findings(s: Binary64, n: nat)
    requires
        s.wf(),
        s.mant > 0 ==> s.exp >= -55,
        magnitude(s) + n * 30_624_477_466_119_372 <= 0x1000_0000_0000_0000_0000_0000,
    ensures
        ({
            let r = with_findings(s, n);
            &&& r.wf()
            &&& r.mant > 0 ==> -55 <= r.exp <= -16
            &&& n > 0 ==> r.mant > 0
            &&& magnitude(r) <= magnitude(s) + n * 30_624_477_466_119_372
        }),
    decreases n,
{
    if n > 0 {
        lemma_findings(s, (n - 1) as nat);
        lemma_one_more_finding(with_findings(s, (n - 1) as nat));
    }
    let r = with_findings(s, n);
    if r.mant > 0 {
        lemma_exponent_of(r);
    }
}

/// Every criterion passed: the mean is one hundred percent.
proof fn lemma_all_passed(scored: nat)
    requires
        0 < scored <= u32::MAX,
    ensures
        mean_percent(scored, 0, scored, 0) == whole(100),
{
    law_whole_is_exact(scored);
    law_whole_is_exact(2 * scored);
    lemma_small_bounds(2 * scored);
    lemma_halved(whole(2 * scored));
    let k = (-whole(2 * scored).exp) as nat;
    vstd::arithmetic::power2::lemma_pow2_pos(k);
    vstd::arithmetic::power2::lemma_pow2_unfold(k + 1);
    let p = pow2(k);
    assert(2 * scored * p == scored * (2 * p)) by (nonlinear_arith);
    assert((2 * scored) * p > 0) by (nonlinear_arith)
        requires
            scored > 0,
            p > 0,
    ;
    lemma_whole_is(scored, k + 1);
    law_self_quotient_is_one(whole(scored));
    lemma_one_hundred_percent();
}

/// Something was short of a pass: the mean is below one hundred percent.
proof fn lemma_not_all_passed(passes: nat, warns: nat, scored: nat, findings: nat)
    requires
        passes + warns <= scored <= u32::MAX,
        findings <= u32::MAX,
        passes < scored || findings > 0,
    ensures
        less(mean_percent(passes, warns, scored, findings), whole(100)),
{
    let a = 2 * passes + warns;
    let c = scored + findings;
    let s = quotient(whole(a), whole(2));
    let t = with_findings(s, findings);
    law_whole_is_exact(c);
    lemma_small_bounds(c);
    lemma_small_wholes();
    lemma_half_of(a);
    lemma_findings(s, findings);
    lemma_magnitude_of_whole(c);
    if t.mant > 0 {
        lemma_less_by_magnitude(t, whole(c));
    }
    law_lesser_quotient_is_below_one(t, whole(c));
    lemma_below_hundred(quotient(t, whole(c)));
}

/// The exponent of a small integer.
proof fn lemma_small_bounds(n: nat)
    requires
        0 < n < 0x10_0000_0000,
    ensures
        whole(n).mant > 0,
        -52 <= whole(n).exp <= -17,
{
    law_whole_is_exact(n);
    vstd::arithmetic::power2::lemma2_to64();
    vstd::arithmetic::power2::lemma2_to64_rest();
    let k = (-whole(n).exp) as nat;
    let p = pow2(k);
    vstd::arithmetic::power2::lemma_pow2_pos(k);
    assert(n * p > 0) by (nonlinear_arith)
        requires
            n > 0,
            p > 0,
    ;
    assert(p > 0x1_0000 && p < 0x20_0000_0000_0000) by (nonlinear_arith)
        requires
            0 < n < 0x10_0000_0000,
            0x10_0000_0000_0000 <= n * p < 0x20_0000_0000_0000,
    ;
    if k < 16 {
        vstd::arithmetic::power2::lemma_pow2_strictly_increases(k, 16);
    }
    if k >= 53 {
        if k > 53 {
            vstd::arithmetic::power2::lemma_pow2_strictly_increases(53, k);
        }
    }
}

proof fn lemma_magnitude_of_whole(n: nat)
    requires
        0 < n < 0x10_0000_0000,
    ensures
        magnitude(whole(n)) == n * 0x100_0000_0000_0000,
{
    law_whole_is_exact(n);
    lemma_small_bounds(n);
    vstd::arithmetic::power2::lemma2_to64();
    vstd::arithmetic::power2::lemma2_to64_rest();
    let k = (-whole(n).exp) as nat;
    vstd::arithmetic::power2::lemma_pow2_adds(k, (56 - k) as nat);
    assert(n * pow2(k) * pow2((56 - k) as nat) == n * (pow2(k) * pow2((56 - k) as nat))) by (nonlinear_arith);
}

/// Conformance is one hundred percent if and only if every scored criterion
/// passes, nothing was found wrong with the quality, and the container is whole;
/// it never exceeds one hundred percent.
pub proof fn law_full_marks(passes: nat, warns: nat, scored: nat, findings: nat, score: Binary64)
    requires
        passes + warns <= scored <= u32::MAX,
        0 < scored,
        findings <= u32::MAX,
        score.wf(),
        !less(whole(100), score),
    ensures
        conformance_of(passes, warns, scored, findings, score) == whole(100) <==> passes == scored && findings == 0
            && score == whole(100),
        !less(whole(100), conformance_of(passes, warns, scored, findings, score)),
{
    lemma_hundred();
    if passes == scored && findings == 0 {
        lemma_all_passed(scored);
    } else {
        lemma_not_all_passed(passes, warns, scored, findings);
    }
}

/// The score of a container that was parsed to its end is one hundred percent.
pub proof fn law_whole_container_scores_full(total: nat)
    requires
        0 < total < 0x20_0000_0000_0000,
    ensures
        score_of(total, total) == whole(100),
{
    law_whole_is_exact(total);
    let k = (-whole(total).exp) as nat;
    vstd::arithmetic::power2::lemma_pow2_pos(k);
    assert(total * pow2(k) > 0) by (nonlinear_arith)
        requires
            total > 0,
            pow2(k) > 0,
    ;
    law_self_quotient_is_one(whole(total));
    lemma_one_hundred_percent();
}

/// The weight of `n` findings, but for a rounding with each.
proof fn lemma_findings_are_near(s: Binary64, n: nat)
    requires
        s.wf(),
        s.mant > 0 ==> s.exp >= -55,
        magnitude(s) <= 1000 * 0x100_0000_0000_0000,
        n <= 1000,
    ensures
        ({
            let r = with_findings(s, n);
            &&& r.wf()
            &&& r.mant > 0 ==> -55 <= r.exp <= -16
            &&& magnitude(r) <= magnitude(s) + n * 21_617_278_211_378_380 + n * 16_384
            &&& magnitude(s) + n * 21_617_278_211_378_380 <= magnitude(r) + n * 16_384
        }),
    decreases n,
{
    lemma_findings(s, n);
    if n > 0 {
        let before = with_findings(s, (n - 1) as nat);
        lemma_findings_are_near(s, (n - 1) as nat);
        lemma_one_more_finding(before);
        let r = with_findings(s, n);
        let k = (r.exp + 56) as nat;
        let up = pow2(k);
        assert(up < 0x8000) by (nonlinear_arith)
            requires
                r.mant * up <= 1425 * 0x100_0000_0000_0000,
                r.mant >= 0x10_0000_0000_0000,
        ;
    }
}

/// A quotient by an integer, in units of `2^-56` of what is divided.
proof fn lemma_share_of(t: Binary64, c: nat)
    requires
        t.wf(),
        t.mant > 0,
        -55 <= t.exp <= -16,
        0 < c < 0x10_0000_0000,
        magnitude(t) <= 2 * (c * 0x100_0000_0000_0000),
    ensures
        ({
            let q = quotient(t, whole(c));
            let p = pow2((-q.exp) as nat);
            &&& q.wf()
            &&& q.mant > 0
            &&& -200 <= q.exp <= -51
            &&& 2 * (q.mant * c * 0x100_0000_0000_0000) <= 2 * (magnitude(t) * p) + c * 0x100_0000_0000_0000
            &&& 2 * (magnitude(t) * p) <= 2 * (q.mant * c * 0x100_0000_0000_0000) + c * 0x100_0000_0000_0000
        }),
{
    let w = whole(c);
    law_whole_is_exact(c);
    lemma_small_bounds(c);
    crate::binary64::law_quotient_is_nearest(t, w);
    let q = quotient(t, w);
    let k = (-w.exp) as nat;
    let s = (t.exp - w.exp - q.exp) as nat;
    let i = (t.exp + 56) as nat;
    let g = pow2(k);
    vstd::arithmetic::power2::lemma2_to64();
    vstd::arithmetic::power2::lemma2_to64_rest();
    vstd::arithmetic::power2::lemma_pow2_pos(k);
    let u = 0x100_0000_0000_0000nat;
    // below twice the whole the exponent stays down
    vstd::arithmetic::power2::lemma_pow2_adds(s, 56);
    let z = t.mant * pow2(s);
    assert(z * u == t.mant * pow2(s + 56)) by (nonlinear_arith)
        requires
            z == t.mant * pow2(s),
            pow2(s + 56) == pow2(s) * u,
    ;
    let l = (q.mant * c) as nat;
    assert(q.mant * (c * g) == l * g) by (nonlinear_arith)
        requires
            l == q.mant * c,
    ;
    let mag = magnitude(t) as nat;
    lemma_small_quotient(q, c, k, s, i, t);
    let e = (-q.exp) as nat;
    let p = pow2(e);
    vstd::arithmetic::power2::lemma_pow2_adds(i, k + e);
    vstd::arithmetic::power2::lemma_pow2_adds(k, e);
    assert(i + (k + e) == s + 56);
    assert(z * u == mag * p * g) by (nonlinear_arith)
        requires
            z * u == t.mant * pow2(s + 56),
            pow2(s + 56) == pow2(i) * pow2(k + e),
            pow2(k + e) == g * p,
            mag == t.mant * pow2(i),
    ;
    assert(2 * (l * u) <= 2 * (mag * p) + c * u && 2 * (mag * p) <= 2 * (l * u) + c * u) by (nonlinear_arith)
        requires
            2 * (l * g) <= 2 * z + c * g,
            2 * z <= 2 * (l * g) + c * g,
            z * u == mag * p * g,
            g > 0,
            u > 0,
    {
        let r = mag * p;
        assert((2 * (l * g)) * u <= (2 * z + c * g) * u);
        assert((2 * z) * u <= (2 * (l * g) + c * g) * u);
        assert((2 * (l * u)) * g <= (2 * r + c * u) * g);
        assert((2 * r) * g <= (2 * (l * u) + c * u) * g);
    }
}

/// A quotient of at most two does not have an exponent above `-51`.
proof fn lemma_small_quotient(q: Binary64, c: nat, k: nat, s: nat, i: nat, t: Binary64)
    requires
        0x10_0000_0000_0000 <= q.mant < 0x20_0000_0000_0000,
        s == t.exp + k - q.exp,
        i == t.exp + 56,
        c > 0,
        2 * (q.mant * (c * pow2(k))) <= 2 * (t.mant * pow2(s)) + c * pow2(k),
        t.mant * pow2(i) <= 2 * (c * 0x100_0000_0000_0000),
        t.mant > 0,
    ensures
        q.exp <= -51,
{
    if q.exp > -51 {
        vstd::arithmetic::power2::lemma2_to64();
        vstd::arithmetic::power2::lemma2_to64_rest();
        let d = (q.exp + 50) as nat;
        let g = pow2(k);
        let a = pow2(s);
        vstd::arithmetic::power2::lemma_pow2_pos(k);
        vstd::arithmetic::power2::lemma_pow2_pos(d);
        vstd::arithmetic::power2::lemma_pow2_adds(s, 6);
        vstd::arithmetic::power2::lemma_pow2_adds(s + 6, d);
        vstd::arithmetic::power2::lemma_pow2_adds(i, k);
        assert(s + 6 + d == i + k);
        let h = pow2(d);
        assert(false) by (nonlinear_arith)
            requires
                2 * (q.mant * (c * g)) <= 2 * (t.mant * a) + c * g,
                t.mant * pow2(i) <= 2 * (c * 0x100_0000_0000_0000),
                a * 64 * h == pow2(i) * g,
                h >= 1,
                g > 0,
                c > 0,
                t.mant > 0,
                q.mant >= 0x10_0000_0000_0000,
        {
            let b = t.mant * a;
            assert(b * 64 * h == (t.mant * pow2(i)) * g);
            assert(b * 64 <= b * 64 * h);
            assert((t.mant * pow2(i)) * g <= (2 * (c * 0x100_0000_0000_0000)) * g);
            assert(b * 64 <= 0x200_0000_0000_0000 * (c * g));
            assert(2 * (q.mant * (c * g)) - c * g >= 0x1f_ffff_ffff_ffff * (c * g));
            assert(c * g > 0);
        }
    }
}

/// The conformance is the mean of the criteria in percent, where a pass counts one,
/// a deviation one half, a failure nothing and each finding three tenths: off by
/// less than a millionth of a percent. It is capped by the score of the container.
#[verifier::rlimit(30)]
pub proof fn law_conformance_weighs_the_criteria(
    passes: nat,
    warns: nat,
    scored: nat,
    findings: nat,
    score: Binary64,
)
    requires
        passes + warns <= scored <= 1000,
        findings <= 1000,
        passes + warns + findings > 0,
        score.wf(),
        !less(whole(100), score),
    ensures
        ({
            let v = conformance_of(passes, warns, scored, findings, score);
            let p = pow2((-v.exp) as nat);
            let tenths = 10 * passes + 5 * warns + 3 * findings;
            let c = scored + findings;
            &&& !less(score, v)
            &&& v == score || {
                &&& v.exp < 0
                &&& 1_000_000 * (v.mant * c - 10 * (tenths * p)) <= c * p
                &&& 1_000_000 * (10 * (tenths * p) - v.mant * c) <= c * p
            }
            &&& score == whole(100) ==> v == mean_percent(passes, warns, scored, findings)
        }),
{
    let a = 2 * passes + warns;
    let c = scored + findings;
    let s = quotient(whole(a), whole(2));
    let t = with_findings(s, findings);
    let u = 0x100_0000_0000_0000nat;
    lemma_hundred();
    lemma_half_of(a);
    lemma_findings(s, findings);
    lemma_findings_are_near(s, findings);
    if passes == scored && findings == 0 {
        lemma_all_passed(scored);
    } else {
        lemma_not_all_passed(passes, warns, scored, findings);
    }
    let tenths = 10 * passes + 5 * warns + 3 * findings;
    let mag = magnitude(t);
    assert(10 * mag <= tenths * u + 163_848 * c);
    assert(tenths * u <= 10 * mag + 163_848 * c);
    if t.mant == 0 {
        assert(mag == 0) by (nonlinear_arith)
            requires
                mag == t.mant * pow2((t.exp + 56) as nat),
                t.mant == 0,
        ;
    }
    lemma_share_of(t, c);
    let q = quotient(t, whole(c));
    let k = (-q.exp) as nat;
    let p = pow2(k);
    crate::accuracy::law_product_is_nearest(q, whole(100));
    let x = product(q, whole(100));
    let j = (-x.exp) as nat;
    let n = pow2(j);
    let i = (x.exp - q.exp + 46) as nat;
    let d = pow2(i);
    vstd::arithmetic::power2::lemma2_to64();
    vstd::arithmetic::power2::lemma2_to64_rest();
    vstd::arithmetic::power2::lemma_pow2_adds(j, i);
    vstd::arithmetic::power2::lemma_pow2_adds(k, 46);
    if j > 40 {
        vstd::arithmetic::power2::lemma_pow2_strictly_increases(40, j);
    }
    lemma_mean_is_near(x.mant as nat, n, q.mant as nat, p, d, mag as nat, tenths, c);
}

/// The roundings on the way to a mean add up to next to nothing.
#[verifier::rlimit(30)]
proof fn lemma_mean_is_near(x: nat, n: nat, q: nat, p: nat, d: nat, mag: nat, tenths: nat, c: nat)
    requires
        2 * (x * d) <= 2 * (q * 7_036_874_417_766_400) + d,
        2 * (q * 7_036_874_417_766_400) <= 2 * (x * d) + d,
        2 * (q * c * 0x100_0000_0000_0000) <= 2 * (mag * p) + c * 0x100_0000_0000_0000,
        2 * (mag * p) <= 2 * (q * c * 0x100_0000_0000_0000) + c * 0x100_0000_0000_0000,
        10 * mag <= tenths * 0x100_0000_0000_0000 + 163_848 * c,
        tenths * 0x100_0000_0000_0000 <= 10 * mag + 163_848 * c,
        n * d == p * 0x4000_0000_0000,
        n >= 0x100_0000_0000,
        d >= 0x10_0000_0000_0000,
    ensures
        1_000_000 * (x * c - 10 * (tenths * n)) <= c * n,
        1_000_000 * (10 * (tenths * n) - x * c) <= c * n,
{
    let h = 7_036_874_417_766_400nat;
    let u = 0x100_0000_0000_0000nat;
    let xc = x * c;
    let qc = q * c;
    let mp = mag * p;
    let tp = tenths * p;
    let cp = c * p;
    // the product, times the number of criteria
    assert(2 * (xc * d) <= 2 * (qc * h) + c * d && 2 * (qc * h) <= 2 * (xc * d) + c * d) by (nonlinear_arith)
        requires
            2 * (x * d) <= 2 * (q * h) + d,
            2 * (q * h) <= 2 * (x * d) + d,
            xc == x * c,
            qc == q * c,
    {
        assert((2 * (x * d)) * c <= (2 * (q * h) + d) * c);
        assert((2 * (q * h)) * c <= (2 * (x * d) + d) * c);
    }
    // the sum, times the scale of the quotient
    assert(10 * mp <= tp * u + 163_848 * cp && tp * u <= 10 * mp + 163_848 * cp) by (nonlinear_arith)
        requires
            10 * mag <= tenths * u + 163_848 * c,
            tenths * u <= 10 * mag + 163_848 * c,
            mp == mag * p,
            tp == tenths * p,
            cp == c * p,
    {
        assert((10 * mag) * p <= (tenths * u + 163_848 * c) * p);
        assert((tenths * u) * p <= (10 * mag + 163_848 * c) * p);
    }
    let td = tenths * n;
    let cn = c * n;
    assert(td * d == tp * 0x4000_0000_0000 && cn * d == cp * 0x4000_0000_0000) by (nonlinear_arith)
        requires
            n * d == p * 0x4000_0000_0000,
            td == tenths * n,
            cn == c * n,
            tp == tenths * p,
            cp == c * p,
    ;
    let cd = c * d;
    assert(100 * (c * h) <= 160 * cd) by (nonlinear_arith)
        requires
            cd == c * d,
            d >= 0x10_0000_0000_0000,
            h == 7_036_874_417_766_400,
    ;
    assert(cn * d >= 0x100_0000_0000 * cd) by (nonlinear_arith)
        requires
            cn == c * n,
            cd == c * d,
            n >= 0x100_0000_0000,
    ;
    let e = xc * d - 10 * (td * d);
    assert(1_000_000 * e <= cn * d && -1_000_000 * e <= cn * d);
    assert(1_000_000 * (xc - 10 * td) <= cn && 1_000_000 * (10 * td - xc) <= cn) by (nonlinear_arith)
        requires
            1_000_000 * e <= cn * d,
            -1_000_000 * e <= cn * d,
            e == xc * d - 10 * (td * d),
            d > 0,
    {
        assert((1_000_000 * (xc - 10 * td)) * d <= cn * d);
        assert((1_000_000 * (10 * td - xc)) * d <= cn * d);
    }
}

/// A figure divided by 1024 has its mantissa, ten exponents below.
proof fn lemma_kilo(x: Binary64)
    requires
        x.wf(),
        x.mant > 0,
        x.exp >= -900,
    ensures
        whole(1024) == (Binary64 { mant: 0x10_0000_0000_0000, exp: (-42) as i32 }),
        quotient(x, whole(1024)) == (Binary64 { mant: x.mant, exp: (x.exp - 10) as i32 }),
{
    vstd::arithmetic::power2::lemma2_to64();
    vstd::arithmetic::power2::lemma2_to64_rest();
    lemma_whole_is(1024, 42);
    let m = x.mant as nat;
    let y = 0x10_0000_0000_0000nat;
    assert(m * pow2(51) < y * 0x10_0000_0000_0000) by (nonlinear_arith)
        requires
            m < 0x20_0000_0000_0000,
            y == 0x10_0000_0000_0000,
            pow2(51) == 0x8_0000_0000_0000,
    ;
    lemma_grown_by(m, y, x.exp + 42, 52);
    let num = m * pow2(52);
    assert(num == m * y) by (nonlinear_arith)
        requires
            num == m * pow2(52),
            pow2(52) == y,
    ;
    assert(num / y == m && num % y == 0) by (nonlinear_arith)
        requires
            num == m * y,
            y > 0,
    ;
}

/// A size divided by 1024 `i` times over.
spec fn in_unit(n: nat, i: nat) -> Binary64 {
    Binary64 { mant: whole(n).mant, exp: (whole(n).exp - 10 * i) as i32 }
}

/// Another unit is taken as long as a size has at least 1024 of the last one.
proof fn lemma_next_unit(n: nat, i: nat)
    requires
        0 < n < 0x20_0000_0000_0000,
        i < 4,
    ensures
        in_unit(n, i).wf(),
        -52 <= whole(n).exp <= 0,
        !less(in_unit(n, i), whole(1024)) <==> n >= pow2(10 * (i + 1)),
        quotient(in_unit(n, i), whole(1024)) == in_unit(n, i + 1),
{
    law_whole_is_exact(n);
    vstd::arithmetic::power2::lemma2_to64();
    vstd::arithmetic::power2::lemma2_to64_rest();
    let j = (-whole(n).exp) as nat;
    vstd::arithmetic::power2::lemma_pow2_pos(j);
    assert(n * pow2(j) > 0) by (nonlinear_arith)
        requires
            n > 0,
            pow2(j) > 0,
    ;
    crate::accuracy::lemma_exponents_of_wholes(n, j);
    lemma_kilo(in_unit(n, i));
    let a = 10 * (i + 1);
    let g = pow2(j);
    let h = pow2(a);
    vstd::arithmetic::power2::lemma_pow2_pos(a);
    if j <= 52 - a {
        vstd::arithmetic::power2::lemma_pow2_adds(a, (52 - a) as nat);
        if j < 52 - a {
            vstd::arithmetic::power2::lemma_pow2_strictly_increases(j, (52 - a) as nat);
        }
        assert(n >= h) by (nonlinear_arith)
            requires
                n * g >= 0x10_0000_0000_0000,
                h * pow2((52 - a) as nat) == 0x10_0000_0000_0000,
                0 < g <= pow2((52 - a) as nat),
        {
            assert(n * pow2((52 - a) as nat) >= n * g);
            assert((n - h) * pow2((52 - a) as nat) >= 0);
        }
    } else {
        vstd::arithmetic::power2::lemma_pow2_adds(a, (53 - a) as nat);
        if j > 53 - a {
            vstd::arithmetic::power2::lemma_pow2_strictly_increases((53 - a) as nat, j);
        }
        assert(n < h) by (nonlinear_arith)
            requires
                n * g < 0x20_0000_0000_0000,
                h * pow2((53 - a) as nat) == 0x20_0000_0000_0000,
                pow2((53 - a) as nat) <= g,
                n > 0,
        {
            assert(n * g >= n * pow2((53 - a) as nat));
            assert((h - n) * pow2((53 - a) as nat) > 0);
        }
    }
}

/// A size is told in the greatest unit of which it holds at least one: bytes below
/// 1024, and from there on kilobytes, megabytes, gigabytes and terabytes of 1024
/// each, to the nearest tenth.
pub proof fn law_sizes(n: nat)
    requires
        n < 0x20_0000_0000_0000,
    ensures
        n < 1024 ==> bytes_text(n) == decimal(n) + " B"@,
        n >= 1024 ==> exists|k: nat, tenths: nat|
            {
                &&& 1 <= k <= 4
                &&& #[trigger] pow2(10 * k) <= n
                &&& k < 4 ==> n < 1024 * pow2(10 * k)
                &&& 2 * (tenths * pow2(10 * k)) <= 20 * n + pow2(10 * k)
                &&& 20 * n <= 2 * (tenths * pow2(10 * k)) + pow2(10 * k)
                &&& bytes_text(n) == #[trigger] tenths_text(tenths) + (if k == 1 {
                    " KB"@
                } else if k == 2 {
                    " MB"@
                } else if k == 3 {
                    " GB"@
                } else {
                    " TB"@
                })
            },
{
    if n >= 1024 {
        vstd::arithmetic::power2::lemma2_to64();
        vstd::arithmetic::power2::lemma2_to64_rest();
        reveal_strlit(" ");
        reveal_strlit("KB");
        reveal_strlit("MB");
        reveal_strlit("GB");
        reveal_strlit("TB");
        reveal_strlit(" KB");
        reveal_strlit(" MB");
        reveal_strlit(" GB");
        reveal_strlit(" TB");
        assert(" "@ + "KB"@ =~= " KB"@);
        assert(" "@ + "MB"@ =~= " MB"@);
        assert(" "@ + "GB"@ =~= " GB"@);
        assert(" "@ + "TB"@ =~= " TB"@);
        lemma_next_unit(n, 0);
        lemma_next_unit(n, 1);
        lemma_next_unit(n, 2);
        lemma_next_unit(n, 3);
        assert(in_unit(n, 0) == whole(n));
        reveal_with_fuel(in_units, 6);
        let k: nat = if n < pow2(20) {
            1
        } else if n < pow2(30) {
            2
        } else if n < pow2(40) {
            3
        } else {
            4
        };
        assert(in_units(whole(n), 0) == (in_unit(n, k), k));
        let tenths = fixed(in_unit(n, k), 10);
        let text = tenths_text(tenths) + " "@ + unit_text(k);
        assert(bytes_text(n) == text);
        assert(text =~= tenths_text(tenths) + (" "@ + unit_text(k)));
        lemma_tenths_of_a_unit(n, k);
        assert(pow2(10 * k) <= n);
        assert(1024 * pow2(10 * k) == pow2(10 * (k + 1))) by {
            vstd::arithmetic::power2::lemma_pow2_adds(10 * k, 10);
        }
    }
}

/// The tenths of a size in a unit.
proof fn lemma_tenths_of_a_unit(n: nat, k: nat)
    requires
        0 < n < 0x20_0000_0000_0000,
        1 <= k <= 4,
    ensures
        ({
            let tenths = fixed(in_unit(n, k), 10);
            &&& 2 * (tenths * pow2(10 * k)) <= 20 * n + pow2(10 * k)
            &&& 20 * n <= 2 * (tenths * pow2(10 * k)) + pow2(10 * k)
        }),
{
    law_whole_is_exact(n);
    let x = in_unit(n, k);
    lemma_next_unit(n, 0);
    let j = (-whole(n).exp) as nat;
    let g = pow2(j);
    let u = pow2(10 * k);
    vstd::arithmetic::power2::lemma_pow2_pos(j);
    vstd::arithmetic::power2::lemma_pow2_pos(10 * k);
    vstd::arithmetic::power2::lemma_pow2_pos(j + 10 * k);
    vstd::arithmetic::power2::lemma_pow2_adds(j, 10 * k);
    assert((-x.exp) as nat == j + 10 * k);
    let t = fixed(x, 10);
    crate::binary64::lemma_half_even(x.mant as nat * 10, pow2(j + 10 * k));
    assert(2 * (t * u) <= 20 * n + u && 20 * n <= 2 * (t * u) + u) by (nonlinear_arith)
        requires
            2 * t * (g * u) <= 2 * (n * g * 10) + g * u,
            2 * (n * g * 10) <= 2 * t * (g * u) + g * u,
            g > 0,
    {
        assert((2 * (t * u)) * g <= (20 * n + u) * g);
        assert((20 * n) * g <= (2 * (t * u) + u) * g);
    }
}

} // verus!
