//! Byte order, byte slices and the FNV-1a hashes over them.

use vstd::prelude::*;
use vstd::slice::slice_subrange;

verus! {

/// The big-endian 16-bit number at `i`, if both of its bytes are there.
pub open spec fn be16_at(b: Seq<u8>, i: int) -> Option<u16> {
    if 0 <= i && i + 1 < b.len() {
        Some((b[i] * 256 + b[i + 1]) as u16)
    } else {
        None
    }
}

/// The big-endian 32-bit number that starts at `i`.
pub open spec fn be32_at(b: Seq<u8>, i: int) -> int {
    b[i] * 0x100_0000 + b[i + 1] * 0x1_0000 + b[i + 2] * 0x100 + b[i + 3]
}

/// The big-endian 128-bit number that starts at `i`.
pub open spec fn be128_at(b: Seq<u8>, i: int) -> int {
    be32_at(b, i) * 0x1_0000_0000_0000_0000_0000_0000 + be32_at(b, i + 4) * 0x1_0000_0000_0000_0000
        + be32_at(b, i + 8) * 0x1_0000_0000 + be32_at(b, i + 12)
}

/// The `n` low bytes of `x`, most significant first.
pub open spec fn be_bytes(x: nat, n: nat) -> Seq<u8>
    decreases n,
{
    if n == 0 {
        Seq::empty()
    } else {
        be_bytes(x / 256, (n - 1) as nat).push((x % 256) as u8)
    }
}

/// What is left of `b` from `from` on; nothing when `from` is past the end.
pub open spec fn tail(b: Seq<u8>, from: int) -> Seq<u8> {
    if 0 <= from <= b.len() {
        b.subrange(from, b.len() as int)
    } else {
        Seq::empty()
    }
}

/// Reads the big-endian 16-bit number at `i`; `None` when the slice is too short.
pub fn be16(b: &[u8], i: usize) -> (r: Option<u16>)
    ensures
        r == be16_at(b@, i as int),
{
    if i < b.len() && i + 1 < b.len() {
        Some(b[i] as u16 * 256 + b[i + 1] as u16)
    } else {
        None
    }
}

/// Reads the big-endian 32-bit number at `i`.
pub fn be32(b: &[u8], i: usize) -> (r: u32)
    requires
        i + 4 <= b@.len(),
    ensures
        r == be32_at(b@, i as int),
{
    b[i] as u32 * 0x100_0000 + b[i + 1] as u32 * 0x1_0000 + b[i + 2] as u32 * 0x100 + b[i + 3] as u32
}

/// Reads the big-endian 128-bit number at `i`.
pub fn be128(b: &[u8], i: usize) -> (r: u128)
    requires
        i + 16 <= b@.len(),
    ensures
        r == be128_at(b@, i as int),
{
    let n: usize = b.len();
    assert(i + 16 <= n);
    be32(b, i) as u128 * 0x1_0000_0000_0000_0000_0000_0000 + be32(b, i + 4) as u128
        * 0x1_0000_0000_0000_0000 + be32(b, i + 8) as u128 * 0x1_0000_0000 + be32(b, i + 12) as u128
}

/// The rest of `b` from `from` on, or the empty slice when `from` is past the end.
pub fn rest(b: &[u8], from: usize) -> (r: &[u8])
    ensures
        r@ == tail(b@, from as int),
{
    let n: usize = b.len();
    if from <= n {
        slice_subrange(b, from, n)
    } else {
        let r = slice_subrange(b, n, n);
        assert(r@ =~= Seq::<u8>::empty());
        r
    }
}

/// Appends the `n` low bytes of `x`, most significant first.
fn push_be(out: &mut Vec<u8>, x: u128, n: usize)
    ensures
        final(out)@ == old(out)@ + be_bytes(x as nat, n as nat),
    decreases n,
{
    if n > 0 {
        push_be(out, x / 256, n - 1);
        out.push((x % 256) as u8);
    }
    assert(out@ =~= old(out)@ + be_bytes(x as nat, n as nat));
}

pub const FNV_OFFSET: u64 = 0xcbf2_9ce4_8422_2325;

pub const FNV_PRIME: u64 = 0x100_0000_01b3;

/// The FNV-1a state after the bytes of `b`, starting from `h`.
pub open spec fn fnv(h: u64, b: Seq<u8>) -> u64
    decreases b.len(),
{
    if b.len() == 0 {
        h
    } else {
        (fnv(h, b.drop_last()) ^ (b.last() as u64)).wrapping_mul(FNV_PRIME)
    }
}

/// The header fields that a router rewrites: ToS, TTL and header checksum of
/// IPv4, hop limit of IPv6.
pub open spec fn router_field(is_v6: bool, i: int) -> bool {
    if is_v6 {
        i == 7
    } else {
        i == 1 || i == 8 || i == 10 || i == 11
    }
}

/// An IP packet with the router-rewritten header fields set to zero.
pub open spec fn unrouted(ip: Seq<u8>, is_v6: bool) -> Seq<u8> {
    Seq::new(
        ip.len(),
        |i: int|
            if router_field(is_v6, i) {
                0u8
            } else {
                ip[i]
            },
    )
}

/// The 64-bit FNV-1a hash of `b`.
pub fn fnv1a(b: &[u8]) -> (r: u64)
    ensures
        r == fnv(FNV_OFFSET, b@),
{
    let mut h: u64 = FNV_OFFSET;
    let n: usize = b.len();
    let mut i: usize = 0;
    while i < n
        invariant
            i <= n,
            n == b@.len(),
            h == fnv(FNV_OFFSET, b@.take(i as int)),
        decreases n - i,
    {
        assert(b@.take(i + 1).drop_last() =~= b@.take(i as int));
        h = (h ^ (b[i] as u64)).wrapping_mul(FNV_PRIME);
        i = i + 1;
    }
    assert(b@.take(n as int) =~= b@);
    h
}

/// FNV-1a over an IP packet with the fields that a router rewrites taken as
/// zero. The IP identification and the payload stay in the hash, so a mirror
/// copy of the same packet matches on either side of a router, while a real
/// retransmission, which carries a new identification, does not match its first
/// copy.
pub fn fnv1a_masked(ip: &[u8], is_v6: bool) -> (r: u64)
    ensures
        r == fnv(FNV_OFFSET, unrouted(ip@, is_v6)),
{
    let mut h: u64 = FNV_OFFSET;
    let n: usize = ip.len();
    let mut i: usize = 0;
    let ghost plain = unrouted(ip@, is_v6);
    while i < n
        invariant
            i <= n,
            n == ip@.len(),
            plain == unrouted(ip@, is_v6),
            h == fnv(FNV_OFFSET, plain.take(i as int)),
        decreases n - i,
    {
        assert(plain.take(i + 1).drop_last() =~= plain.take(i as int));
        let masked = if is_v6 {
            i == 7
        } else {
            i == 1 || i == 8 || i == 10 || i == 11
        };
        let x: u8 = if masked {
            0
        } else {
            ip[i]
        };
        h = (h ^ (x as u64)).wrapping_mul(FNV_PRIME);
        i = i + 1;
    }
    assert(plain.take(n as int) =~= plain);
    h
}

/// An endpoint of a flow: address and port.
pub open spec fn endpoint_bytes(e: (u128, u16)) -> Seq<u8> {
    be_bytes(e.0 as nat, 16) + be_bytes(e.1 as nat, 2)
}

/// The flow key of a canonical (sorted) pair of endpoints.
pub open spec fn flow_key(lo: (u128, u16), hi: (u128, u16)) -> u64 {
    fnv(FNV_OFFSET, endpoint_bytes(lo) + endpoint_bytes(hi))
}

/// Hashes a canonical (sorted) pair of endpoints into a compact flow key.
pub fn flow_hash(lo: (u128, u16), hi: (u128, u16)) -> (r: u64)
    ensures
        r == flow_key(lo, hi),
{
    let mut b: Vec<u8> = Vec::with_capacity(36);
    push_be(&mut b, lo.0, 16);
    push_be(&mut b, lo.1 as u128, 2);
    push_be(&mut b, hi.0, 16);
    push_be(&mut b, hi.1 as u128, 2);
    assert(b@ =~= endpoint_bytes(lo) + endpoint_bytes(hi));
    fnv1a(b.as_slice())
}

/// Two packets that differ at most in router-rewritten fields have one hash:
/// the ingress and the egress copy of a routed mirror are recognised as one frame.
pub proof fn law_masked_hash_survives_routing(a: Seq<u8>, b: Seq<u8>, is_v6: bool)
    requires
        a.len() == b.len(),
        is_v6 ==> forall|i: int| 0 <= i < a.len() && i != 7 ==> a[i] == b[i],
        !is_v6 ==> forall|i: int| 0 <= i < a.len() && i != 1 && i != 8 && i != 10 && i != 11 ==> a[i] == b[i],
    ensures
        fnv(FNV_OFFSET, unrouted(a, is_v6)) == fnv(FNV_OFFSET, unrouted(b, is_v6)),
{
    assert(unrouted(a, is_v6) =~= unrouted(b, is_v6));
}

/// The quotient by 2^64 of a product with the prime.
spec fn overflow_of(u: u64) -> int {
    (u * 0x100_0000_01b3) / 0x1_0000_0000_0000_0000
}

proof fn lemma_times_prime(u: u64)
    ensures
        u * 0x100_0000_01b3 == overflow_of(u) * 0x1_0000_0000_0000_0000 + u.wrapping_mul(FNV_PRIME),
{
}

/// The prime is odd, so that a product with it fixes the factor.
proof fn lemma_prime_is_invertible(u: u64, v: u64)
    requires
        u.wrapping_mul(FNV_PRIME) == v.wrapping_mul(FNV_PRIME),
    ensures
        u == v,
{
    lemma_times_prime(u);
    lemma_times_prime(v);
    let d = u - v;
    let e = overflow_of(u) - overflow_of(v);
    // the inverse of the prime modulo 2^64, and what their product is over one
    let inverse: int = 0xce96_5057_aff6_957b;
    let over: int = 0xce_9650_590f;
    let n = e * inverse - d * over;
    assert(0x100_0000_01b3 * inverse == 1 + over * 0x1_0000_0000_0000_0000);
    assert(d == n * 0x1_0000_0000_0000_0000) by (nonlinear_arith)
        requires
            d * 0x100_0000_01b3 == e * 0x1_0000_0000_0000_0000,
            0x100_0000_01b3 * inverse == 1 + over * 0x1_0000_0000_0000_0000,
            n == e * inverse - d * over,
    ;
}

/// A step of the hash keeps different states apart.
proof fn lemma_step_keeps_apart(g: u64, h: u64, x: u8)
    requires
        g != h,
    ensures
        (g ^ (x as u64)).wrapping_mul(FNV_PRIME) != (h ^ (x as u64)).wrapping_mul(FNV_PRIME),
{
    let y = x as u64;
    assert((g ^ y) != (h ^ y)) by (bit_vector)
        requires
            g != h,
    ;
    if (g ^ y).wrapping_mul(FNV_PRIME) == (h ^ y).wrapping_mul(FNV_PRIME) {
        lemma_prime_is_invertible(g ^ y, h ^ y);
    }
}

/// Two steps on other bytes never lead from one state to one state: the first
/// difference moves beyond the reach of the second byte.
proof fn lemma_two_bytes_do_not_cancel(h: u64, a: u8, b: u8, x: u8, y: u8)
    requires
        a != x,
    ensures
        ((h ^ (a as u64)).wrapping_mul(FNV_PRIME) ^ (b as u64)) != ((h ^ (x as u64)).wrapping_mul(FNV_PRIME) ^ (
        y as u64)),
{
    let (a1, b1, x1, y1) = (a as u64, b as u64, x as u64, y as u64);
    let u = h ^ a1;
    let v = h ^ x1;
    assert(u != v && u / 256 == v / 256) by (bit_vector)
        requires
            u == h ^ a1,
            v == h ^ x1,
            a1 != x1,
            a1 < 256,
            x1 < 256,
    ;
    let g = u.wrapping_mul(FNV_PRIME);
    let k = v.wrapping_mul(FNV_PRIME);
    if (g ^ b1) == (k ^ y1) {
        assert(g / 256 == k / 256) by (bit_vector)
            requires
                (g ^ b1) == (k ^ y1),
                b1 < 256,
                y1 < 256,
        ;
        lemma_times_prime(u);
        lemma_times_prime(v);
        let d = u - v;
        let e = overflow_of(u) - overflow_of(v);
        assert(-256 < d < 256 && d != 0);
        assert(-256 < g - k < 256);
        assert(d * 0x100_0000_01b3 == e * 0x1_0000_0000_0000_0000 + (g - k));
    }
}

/// Behind the first `n` bytes, two sequences that go on alike keep their hashes apart.
proof fn lemma_tails_keep_apart(a: Seq<u8>, b: Seq<u8>, n: int)
    requires
        0 <= n <= a.len(),
        a.len() == b.len(),
        fnv(FNV_OFFSET, a.take(n)) != fnv(FNV_OFFSET, b.take(n)),
        forall|i: int| n <= i < a.len() ==> a[i] == b[i],
    ensures
        fnv(FNV_OFFSET, a) != fnv(FNV_OFFSET, b),
    decreases a.len(),
{
    if n == a.len() {
        assert(a.take(n) =~= a && b.take(n) =~= b);
    } else {
        let c = a.drop_last();
        let d = b.drop_last();
        assert(c.take(n) =~= a.take(n) && d.take(n) =~= b.take(n));
        assert forall|i: int| n <= i < c.len() implies c[i] == d[i] by {
            assert(a[i] == b[i]);
        }
        lemma_tails_keep_apart(c, d, n);
        lemma_step_keeps_apart(fnv(FNV_OFFSET, c), fnv(FNV_OFFSET, d), a.last());
    }
}

/// Two sequences that differ at `n`, and at most at the place behind it too, have
/// different hashes.
proof fn lemma_neighbours_keep_apart(p: Seq<u8>, q: Seq<u8>, n: int)
    requires
        p.len() == q.len(),
        0 <= n < p.len(),
        p[n] != q[n],
        forall|i: int| 0 <= i < p.len() && i != n && i != n + 1 ==> p[i] == q[i],
    ensures
        fnv(FNV_OFFSET, p) != fnv(FNV_OFFSET, q),
{
    assert(p.take(n) =~= q.take(n));
    assert(p.take(n + 1).drop_last() =~= p.take(n) && q.take(n + 1).drop_last() =~= q.take(n));
    let h = fnv(FNV_OFFSET, p.take(n));
    if n + 1 == p.len() {
        assert(p.take(n + 1) =~= p && q.take(n + 1) =~= q);
        let (x, y) = (p[n] as u64, q[n] as u64);
        assert((h ^ x) != (h ^ y)) by (bit_vector)
            requires
                x != y,
        ;
        if (h ^ x).wrapping_mul(FNV_PRIME) == (h ^ y).wrapping_mul(FNV_PRIME) {
            lemma_prime_is_invertible(h ^ x, h ^ y);
        }
    } else {
        assert(p.take(n + 2).drop_last() =~= p.take(n + 1) && q.take(n + 2).drop_last() =~= q.take(n + 1));
        lemma_two_bytes_do_not_cancel(h, p[n], p[n + 1], q[n], q[n + 1]);
        let u = fnv(FNV_OFFSET, p.take(n + 1)) ^ (p[n + 1] as u64);
        let v = fnv(FNV_OFFSET, q.take(n + 1)) ^ (q[n + 1] as u64);
        assert(u != v);
        if u.wrapping_mul(FNV_PRIME) == v.wrapping_mul(FNV_PRIME) {
            lemma_prime_is_invertible(u, v);
        }
        lemma_tails_keep_apart(p, q, n + 2);
    }
}

/// What no router rewrites tells packets apart: two packets of one length that
/// differ in a byte of the header or of the payload, and besides it at most in
/// the byte behind and in ToS, TTL and checksum of IPv4 or the hop limit of IPv6,
/// have different hashes.
pub proof fn law_other_bytes_change_the_hash(a: Seq<u8>, b: Seq<u8>, is_v6: bool, n: int)
    requires
        a.len() == b.len(),
        0 <= n < a.len(),
        a[n] != b[n],
        is_v6 ==> n != 7,
        !is_v6 ==> n != 1 && n != 8 && n != 10 && n != 11,
        is_v6 ==> forall|i: int| 0 <= i < a.len() && i != n && i != n + 1 && i != 7 ==> a[i] == b[i],
        !is_v6 ==> forall|i: int|
            0 <= i < a.len() && i != n && i != n + 1 && i != 1 && i != 8 && i != 10 && i != 11 ==> a[i] == b[i],
    ensures
        fnv(FNV_OFFSET, unrouted(a, is_v6)) != fnv(FNV_OFFSET, unrouted(b, is_v6)),
{
    lemma_neighbours_keep_apart(unrouted(a, is_v6), unrouted(b, is_v6), n);
}

/// A retransmission is no copy: two IPv4 packets that differ in their
/// identification, and besides it only in fields that a router rewrites, have
/// different hashes.
pub proof fn law_new_identification_changes_the_hash(a: Seq<u8>, b: Seq<u8>)
    requires
        a.len() == b.len(),
        a.len() >= 6,
        forall|i: int|
            0 <= i < a.len() && i != 4 && i != 5 && i != 1 && i != 8 && i != 10 && i != 11 ==> a[i] == b[i],
        a[4] != b[4] || a[5] != b[5],
    ensures
        fnv(FNV_OFFSET, unrouted(a, false)) != fnv(FNV_OFFSET, unrouted(b, false)),
{
    if a[4] != b[4] {
        law_other_bytes_change_the_hash(a, b, false, 4);
    } else {
        law_other_bytes_change_the_hash(a, b, false, 5);
    }
}

proof fn lemma_be_bytes_len(x: nat, n: nat)
    ensures
        be_bytes(x, n).len() == n,
    decreases n,
{
    if n > 0 {
        lemma_be_bytes_len(x / 256, (n - 1) as nat);
    }
}

/// The bytes of a pair of endpoints, each in its place.
proof fn lemma_endpoint_bytes(lo: (u128, u16), hi: (u128, u16))
    ensures
        ({
            let b = endpoint_bytes(lo) + endpoint_bytes(hi);
            &&& b.len() == 36
            &&& b.subrange(0, 16) == be_bytes(lo.0 as nat, 16)
            &&& b[16] == lo.1 / 256 && b[17] == lo.1 % 256
            &&& b.subrange(18, 34) == be_bytes(hi.0 as nat, 16)
            &&& b[34] == hi.1 / 256 && b[35] == hi.1 % 256
        }),
{
    reveal_with_fuel(be_bytes, 3);
    lemma_be_bytes_len(lo.0 as nat, 16);
    lemma_be_bytes_len(hi.0 as nat, 16);
    let b = endpoint_bytes(lo) + endpoint_bytes(hi);
    assert(b.subrange(0, 16) =~= be_bytes(lo.0 as nat, 16));
    assert(b.subrange(18, 34) =~= be_bytes(hi.0 as nat, 16));
    let (x, y) = (lo.1 as nat, hi.1 as nat);
    assert((x / 256) / 256 == 0 && (y / 256) / 256 == 0);
    assert(be_bytes(x, 2) =~= seq![(x / 256) as u8, (x % 256) as u8]);
    assert(be_bytes(y, 2) =~= seq![(y / 256) as u8, (y % 256) as u8]);
}

/// Flows between the same addresses that differ in one port are told apart.
pub proof fn law_ports_tell_flows_apart(lo: (u128, u16), hi: (u128, u16), port: u16)
    ensures
        port != hi.1 ==> flow_key(lo, hi) != flow_key(lo, (hi.0, port)),
        port != lo.1 ==> flow_key(lo, hi) != flow_key((lo.0, port), hi),
{
    let b = endpoint_bytes(lo) + endpoint_bytes(hi);
    lemma_endpoint_bytes(lo, hi);
    if port != hi.1 {
        let q = endpoint_bytes(lo) + endpoint_bytes((hi.0, port));
        lemma_endpoint_bytes(lo, (hi.0, port));
        lemma_same_but_two(b, q, 34);
        let n: int = if b[34] != q[34] {
            34
        } else {
            35
        };
        lemma_neighbours_keep_apart(b, q, n);
    }
    if port != lo.1 {
        let q = endpoint_bytes((lo.0, port)) + endpoint_bytes(hi);
        lemma_endpoint_bytes((lo.0, port), hi);
        lemma_same_but_two(b, q, 16);
        let n: int = if b[16] != q[16] {
            16
        } else {
            17
        };
        lemma_neighbours_keep_apart(b, q, n);
    }
}

/// Two byte sequences of endpoints with the same addresses and one same port.
proof fn lemma_same_but_two(b: Seq<u8>, q: Seq<u8>, n: int)
    requires
        b.len() == 36,
        q.len() == 36,
        b.subrange(0, 16) == q.subrange(0, 16),
        b.subrange(18, 34) == q.subrange(18, 34),
        (n == 34 && b[16] == q[16] && b[17] == q[17]) || (n == 16 && b[34] == q[34] && b[35] == q[35]),
    ensures
        forall|i: int| 0 <= i < 36 && i != n && i != n + 1 ==> b[i] == q[i],
{
    assert forall|i: int| 0 <= i < 36 && i != n && i != n + 1 implies b[i] == q[i] by {
        if i < 16 {
            assert(b.subrange(0, 16)[i] == b[i] && q.subrange(0, 16)[i] == q[i]);
        } else if 18 <= i < 34 {
            assert(b.subrange(18, 34)[i - 18] == b[i] && q.subrange(18, 34)[i - 18] == q[i]);
        }
    }
}

/// Numbers stand most significant byte first: a number is what its first byte
/// counts, and the rest behind it.
pub proof fn law_numbers_are_big_endian(b: Seq<u8>, i: int)
    requires
        0 <= i,
    ensures
        be16_at(b, i) is Some <==> i + 2 <= b.len(),
        i + 2 <= b.len() ==> be16_at(b, i)->0 == 256 * b[i] + b[i + 1],
        be32_at(b, i) == 16_777_216 * b[i] + 65_536 * b[i + 1] + 256 * b[i + 2] + b[i + 3],
        be128_at(b, i) == 79_228_162_514_264_337_593_543_950_336 * be32_at(b, i) + 18_446_744_073_709_551_616 * be32_at(
            b,
            i + 4,
        ) + 4_294_967_296 * be32_at(b, i + 8) + be32_at(b, i + 12),
{
}

/// Flows between the same ports whose addresses differ in their last byte, as those of
/// two hosts of one network do, are told apart.
pub proof fn law_hosts_tell_flows_apart(lo: (u128, u16), hi: (u128, u16), other: u128)
    ensures
        other != hi.0 && other / 256 == hi.0 / 256 ==> flow_key(lo, hi) != flow_key(lo, (other, hi.1)),
        other != lo.0 && other / 256 == lo.0 / 256 ==> flow_key(lo, hi) != flow_key((other, lo.1), hi),
{
    let b = endpoint_bytes(lo) + endpoint_bytes(hi);
    lemma_endpoint_bytes(lo, hi);
    if other != hi.0 && other / 256 == hi.0 / 256 {
        let q = endpoint_bytes(lo) + endpoint_bytes((other, hi.1));
        lemma_endpoint_bytes(lo, (other, hi.1));
        lemma_last_byte(hi.0 as nat, other as nat);
        let (x, y) = (be_bytes(hi.0 as nat, 16), be_bytes(other as nat, 16));
        assert forall|i: int| 0 <= i < 36 && i != 33 && i != 34 implies b[i] == q[i] by {
            if i < 16 {
                assert(b.subrange(0, 16)[i] == b[i] && q.subrange(0, 16)[i] == q[i]);
            } else if 18 <= i < 34 {
                assert(b.subrange(18, 34)[i - 18] == b[i] && q.subrange(18, 34)[i - 18] == q[i]);
                assert(x[i - 18] == y[i - 18]);
            }
        }
        assert(b.subrange(18, 34)[15] == b[33] && q.subrange(18, 34)[15] == q[33]);
        lemma_neighbours_keep_apart(b, q, 33);
    }
    if other != lo.0 && other / 256 == lo.0 / 256 {
        let q = endpoint_bytes((other, lo.1)) + endpoint_bytes(hi);
        lemma_endpoint_bytes((other, lo.1), hi);
        lemma_last_byte(lo.0 as nat, other as nat);
        let (x, y) = (be_bytes(lo.0 as nat, 16), be_bytes(other as nat, 16));
        assert forall|i: int| 0 <= i < 36 && i != 15 && i != 16 implies b[i] == q[i] by {
            if i < 16 {
                assert(b.subrange(0, 16)[i] == b[i] && q.subrange(0, 16)[i] == q[i]);
                assert(x[i] == y[i]);
            } else if 18 <= i < 34 {
                assert(b.subrange(18, 34)[i - 18] == b[i] && q.subrange(18, 34)[i - 18] == q[i]);
            }
        }
        assert(b.subrange(0, 16)[15] == b[15] && q.subrange(0, 16)[15] == q[15]);
        lemma_neighbours_keep_apart(b, q, 15);
    }
}

/// Two numbers that differ in their last byte alone.
proof fn lemma_last_byte(x: nat, y: nat)
    requires
        x / 256 == y / 256,
        x != y,
    ensures
        be_bytes(x, 16).len() == 16,
        be_bytes(y, 16).len() == 16,
        forall|i: int| 0 <= i < 15 ==> #[trigger] be_bytes(x, 16)[i] == be_bytes(y, 16)[i],
        be_bytes(x, 16)[15] != be_bytes(y, 16)[15],
{
    lemma_be_bytes_len(x, 16);
    lemma_be_bytes_len(y, 16);
    lemma_be_bytes_len(x / 256, 15);
    assert(x % 256 != y % 256);
}

} // verus!
