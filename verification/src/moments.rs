//! The time of capture of a packet.
//!
//! Limits on time are held against whole nanoseconds. What is shown of times is
//! computed from seconds in binary64, with a rounding at every step.

#[allow(unused_imports)]
use vstd::arithmetic::power2::{lemma_pow2_adds, lemma_pow2_pos, pow2};
use vstd::prelude::*;

#[allow(unused_imports)]
use crate::accuracy::{law_product_is_nearest, lemma_exponents_of_wholes};
use crate::binary64::Binary64;
#[allow(unused_imports)]
use crate::binary64::{law_whole_is_exact, lemma_grown_by, lemma_whole_is, product, quotient, sum, whole};
#[allow(unused_imports)]
use crate::figures::lemma_rate_wholes;

verus! {

/// A point in time since the start of 1970.
#[derive(Clone, Copy, Debug, PartialEq, Eq, Structural)]
pub struct Moment {
    pub ns: u128,
    pub seconds: Binary64,
}

/// A figure in the range of the times of packets, or zero.
pub open spec fn is_seconds(x: Binary64) -> bool {
    x.wf() && (x.mant > 0 ==> -82 <= x.exp <= 2)
}

/// A figure in the range of the differences of such times, or zero.
pub open spec fn is_span(x: Binary64) -> bool {
    x.wf() && (x.mant > 0 ==> -134 <= x.exp <= 3)
}

impl Moment {
    pub open spec fn wf(self) -> bool {
        &&& is_seconds(self.seconds)
        &&& self.seconds.mant > 0 <==> self.ns > 0
    }
}

/// The seconds in a tick of `tick` nanoseconds.
pub open spec fn tick_seconds(tick: u64) -> Binary64 {
    quotient(whole(1), whole((1_000_000_000u64 / tick) as nat))
}

/// The time of a pcap packet: seconds, and a fraction in ticks of `tick` nanoseconds.
pub open spec fn record_time(sec: u32, frac: u32, tick: u64) -> Moment {
    Moment {
        ns: (sec * 1_000_000_000 + frac * tick) as u128,
        seconds: sum(whole(sec as nat), product(whole(frac as nat), tick_seconds(tick))),
    }
}

/// The time of an enhanced packet: microseconds in two halves.
pub open spec fn enhanced_time(high: u32, low: u32) -> Moment {
    let us = high * 0x1_0000_0000 + low;
    Moment { ns: (us * 1000) as u128, seconds: product(whole(us as nat), tick_seconds(1000)) }
}

fn tick_length(tick: u64) -> (r: Binary64)
    requires
        tick == 1 || tick == 1000,
    ensures
        r == tick_seconds(tick),
        r.wf(),
        r.mant > 0,
        -82 <= r.exp <= -70,
        tick == 1000 ==> -72 <= r.exp,
{
    proof {
        lemma_rate_wholes();
    }
    Binary64::whole(1).over(Binary64::whole((1_000_000_000 / tick) as u128))
}

/// The time of a pcap packet.
pub fn record_moment(sec: u32, frac: u32, tick: u64) -> (r: Moment)
    requires
        tick == 1 || tick == 1000,
    ensures
        r == record_time(sec, frac, tick),
        r.wf(),
{
    assert(frac * tick <= 0xffff_ffff * 1000) by (nonlinear_arith)
        requires
            frac <= 0xffff_ffff,
            tick <= 1000,
    ;
    let ns: u128 = sec as u128 * 1_000_000_000 + frac as u128 * tick as u128;
    let fraction: Binary64 = Binary64::whole(frac as u128).times(tick_length(tick));
    Moment { ns, seconds: Binary64::whole(sec as u128).plus(fraction) }
}

/// The time of an enhanced packet.
pub fn enhanced_moment(high: u32, low: u32) -> (r: Moment)
    ensures
        r == enhanced_time(high, low),
        r.wf(),
{
    let us: u128 = high as u128 * 0x1_0000_0000 + low as u128;
    Moment { ns: us * 1000, seconds: Binary64::whole(us).times(tick_length(1000)) }
}

/// The time of a packet in whole nanoseconds: a pcap record counts seconds and
/// micro- or nanoseconds, an enhanced packet the microseconds since 1970.
pub proof fn law_times_are_exact(sec: u32, frac: u32, high: u32, low: u32)
    ensures
        record_time(sec, frac, 1000).ns == 1_000_000_000 * sec + 1000 * frac,
        record_time(sec, frac, 1).ns == 1_000_000_000 * sec + frac,
        enhanced_time(high, low).ns == 1000 * (4_294_967_296 * high + low),
{
}

/// The seconds of a pcap record are its whole seconds and the seconds of its
/// fraction added up; a fraction in microseconds is what an enhanced packet counts.
pub proof fn law_seconds_add_up(sec: u32, frac: u32, tick: u64)
    requires
        tick == 1 || tick == 1000,
    ensures
        record_time(sec, frac, tick).seconds == sum(whole(sec as nat), record_time(0, frac, tick).seconds),
        record_time(0, frac, 1000) == enhanced_time(0, frac),
{
    assert(whole(0).mant == 0);
}

/// A number of units times a figure `c / 2^e` that is nearly one unit in seconds.
proof fn lemma_units_are_near(n: nat, tick: Binary64, per: nat, one: nat, off: nat)
    requires
        0 < n < 0x20_0000_0000_0000,
        tick.wf(),
        tick.mant > 0,
        -82 <= tick.exp <= -72,
        one == pow2((-tick.exp) as nat),
        one <= per * tick.mant + off,
        per * tick.mant <= one + off,
        off * 0x8_0000_0000_0000 <= one,
        per * 0x40_0000_0000_0000 * 0x4_0000_0000_0000 <= one * 0x10_0000_0000_0000,
    ensures
        ({
            let s = product(whole(n), tick);
            let p = pow2((-s.exp) as nat);
            &&& s.exp < 0
            &&& (per * s.mant - n * p) * 0x4_0000_0000_0000 <= n * p
            &&& (n * p - per * s.mant) * 0x4_0000_0000_0000 <= n * p
        }),
{
    law_whole_is_exact(n);
    let w = whole(n);
    let j = (-w.exp) as nat;
    lemma_pow2_pos(j);
    assert(n * pow2(j) > 0) by (nonlinear_arith)
        requires
            n > 0,
            pow2(j) > 0,
    ;
    lemma_exponents_of_wholes(n, j);
    law_product_is_nearest(w, tick);
    let s = product(w, tick);
    let e = (-tick.exp) as nat;
    let i = (s.exp - w.exp - tick.exp) as nat;
    let d = pow2(i);
    let k = (-s.exp) as nat;
    lemma_pow2_adds(k, i);
    lemma_pow2_adds(j, e);
    let (m, c, x) = (s.mant as nat, tick.mant as nat, w.mant as nat);
    let u = n * pow2(k);
    assert(u * d == x * one) by (nonlinear_arith)
        requires
            u == n * pow2(k),
            pow2(k) * d == pow2(j) * one,
            x == n * pow2(j),
    ;
    lemma_near_in_units(m, u, x, c, d, per, one, off);
}

proof fn lemma_near_in_units(m: nat, u: nat, x: nat, c: nat, d: nat, per: nat, one: nat, off: nat)
    requires
        2 * (m * d) <= 2 * (x * c) + d,
        2 * (x * c) <= 2 * (m * d) + d,
        u * d == x * one,
        one <= per * c + off,
        per * c <= one + off,
        off * 0x8_0000_0000_0000 <= one,
        per * 0x40_0000_0000_0000 * 0x4_0000_0000_0000 <= one * 0x10_0000_0000_0000,
        x >= 0x10_0000_0000_0000,
        0 < d <= 0x40_0000_0000_0000,
    ensures
        (per * m - u) * 0x4_0000_0000_0000 <= u,
        (u - per * m) * 0x4_0000_0000_0000 <= u,
{
    let a = (per * m - u) * d;
    assert(2 * a <= per * d + 2 * (x * off) && -2 * a <= per * d + 2 * (x * off)) by (nonlinear_arith)
        requires
            2 * (m * d) <= 2 * (x * c) + d,
            2 * (x * c) <= 2 * (m * d) + d,
            u * d == x * one,
            one <= per * c + off,
            per * c <= one + off,
            a == (per * m - u) * d,
    {
        assert(a == per * (m * d) - x * one);
        assert(per * (2 * (m * d)) <= per * (2 * (x * c) + d));
        assert(per * (2 * (x * c)) <= per * (2 * (m * d) + d));
        assert(per * (x * c) == x * (per * c));
        assert(x * (per * c) <= x * (one + off));
        assert(x * one <= x * (per * c + off));
    }
    assert(x * off * 0x8_0000_0000_0000 <= u * d) by (nonlinear_arith)
        requires
            u * d == x * one,
            off * 0x8_0000_0000_0000 <= one,
    {
        assert(x * (off * 0x8_0000_0000_0000) <= x * one);
    }
    assert(per * d * 0x4_0000_0000_0000 <= u * d) by (nonlinear_arith)
        requires
            u * d == x * one,
            per * 0x40_0000_0000_0000 * 0x4_0000_0000_0000 <= one * 0x10_0000_0000_0000,
            x >= 0x10_0000_0000_0000,
            d <= 0x40_0000_0000_0000,
    {
        assert(per * d <= per * 0x40_0000_0000_0000);
        assert(one * 0x10_0000_0000_0000 <= one * x);
    }
    assert((per * m - u) * 0x4_0000_0000_0000 <= u && (u - per * m) * 0x4_0000_0000_0000 <= u) by (nonlinear_arith)
        requires
            a == (per * m - u) * d,
            2 * a <= per * d + 2 * (x * off),
            -2 * a <= per * d + 2 * (x * off),
            x * off * 0x8_0000_0000_0000 <= u * d,
            per * d * 0x4_0000_0000_0000 <= u * d,
            d > 0,
    {
        assert(a * 0x4_0000_0000_0000 <= u * d);
        assert(-a * 0x4_0000_0000_0000 <= u * d);
        assert(((per * m - u) * 0x4_0000_0000_0000) * d <= u * d);
        assert(((u - per * m) * 0x4_0000_0000_0000) * d <= u * d);
    }
}

/// The seconds in a microsecond and in a nanosecond.
proof fn lemma_ticks()
    ensures
        tick_seconds(1000) == (Binary64 { mant: 4_722_366_482_869_645, exp: (-72) as i32 }),
        tick_seconds(1) == (Binary64 { mant: 4_835_703_278_458_517, exp: (-82) as i32 }),
{
    vstd::arithmetic::power2::lemma2_to64();
    vstd::arithmetic::power2::lemma2_to64_rest();
    lemma_rate_wholes();
    let num = 0x10_0000_0000_0000nat * pow2(53);
    assert(num == 0x10_0000_0000_0000nat * 0x20_0000_0000_0000nat);
    lemma_grown_by(0x10_0000_0000_0000, 8_589_934_592_000_000, -19, 53);
    lemma_grown_by(0x10_0000_0000_0000, 8_388_608_000_000_000, -29, 53);
}

/// The seconds of an enhanced packet, which counts microseconds, and of the fraction of
/// a pcap record in nanoseconds: `m / 2^k`, off by less than one part in two to the
/// fiftieth.
pub proof fn law_seconds_are_near(high: u32, low: u32, frac: u32)
    requires
        0 < 0x1_0000_0000 * high + low < 0x20_0000_0000_0000,
        frac > 0,
    ensures
        ({
            let us = 0x1_0000_0000 * high + low;
            let s = enhanced_time(high, low).seconds;
            let p = pow2((-s.exp) as nat);
            &&& s.exp < 0
            &&& (1_000_000 * s.mant - us * p) * 0x4_0000_0000_0000 <= us * p
            &&& (us * p - 1_000_000 * s.mant) * 0x4_0000_0000_0000 <= us * p
        }),
        ({
            let s = record_time(0, frac, 1).seconds;
            let p = pow2((-s.exp) as nat);
            &&& s.exp < 0
            &&& (1_000_000_000 * s.mant - frac * p) * 0x4_0000_0000_0000 <= frac * p
            &&& (frac * p - 1_000_000_000 * s.mant) * 0x4_0000_0000_0000 <= frac * p
        }),
{
    lemma_ticks();
    vstd::arithmetic::power2::lemma2_to64();
    vstd::arithmetic::power2::lemma2_to64_rest();
    lemma_pow2_adds(64, 8);
    lemma_pow2_adds(64, 18);
    let us = (0x1_0000_0000 * high + low) as nat;
    lemma_units_are_near(us, tick_seconds(1000), 1_000_000, 4_722_366_482_869_645_213_696, 213_696);
    lemma_units_are_near(frac as nat, tick_seconds(1), 1_000_000_000, 4_835_703_278_458_516_698_824_704, 301_175_296);
    assert(whole(0).mant == 0);
}

} // verus!
