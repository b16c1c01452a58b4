//! TCP sessions: handshake coverage and the segments that the capture lost.
//!
//! A session is the sorted pair of its endpoints, whichever of them sends. What
//! is judged is the capture, not the network: a jump in the sequence numbers of
//! one direction, or an acknowledgement of bytes that were never seen, shows a
//! segment that is missing from the file. Lengths are those of the IP header,
//! so a snap length does not disturb them.

use vstd::prelude::*;

use crate::bytes::{be128, be16, be32, flow_hash};
#[allow(unused_imports)]
use crate::bytes::{be128_at, be16_at, be32_at, flow_key};
use crate::stats::{FlowState, Stats, MAX_FLOWS};
#[allow(unused_imports)]
use crate::stats::Tally;

verus! {

broadcast use vstd::std_specs::hash::group_hash_axioms;

/// A TCP segment, as far as the session needs it.
#[derive(Clone, Copy, Debug)]
pub struct Segment {
    pub src: (u128, u16),
    pub dst: (u128, u16),
    pub seq: u32,
    pub ackn: u32,
    pub syn: bool,
    pub ack: bool,
    pub fin: bool,
    /// Payload bytes on the wire.
    pub payload: u32,
    /// The IP header claims more bytes than were captured.
    pub cut: bool,
}

/// Where the TCP header starts, the on-wire length of the packet, and its addresses.
pub open spec fn ip_frame(ip: Seq<u8>, is_v6: bool) -> Option<(int, int, u128, u128)> {
    if is_v6 {
        if ip.len() < 40 {
            None
        } else {
            Some((40int, 40 + be16_at(ip, 4)->0, be128_at(ip, 8) as u128, be128_at(ip, 24) as u128))
        }
    } else {
        if ip.len() < 20 || (ip[0] % 16) * 4 < 20 {
            None
        } else {
            Some(
                (
                    (ip[0] % 16) * 4,
                    be16_at(ip, 2)->0 as int,
                    be32_at(ip, 12) as u128,
                    be32_at(ip, 16) as u128,
                ),
            )
        }
    }
}

/// The payload of a packet of `total` bytes behind headers of `l4` and `doff` bytes.
pub open spec fn payload_len(total: int, l4: int, doff: int) -> int {
    if total < l4 + doff {
        0
    } else {
        total - l4 - doff
    }
}

/// The TCP segment in the IP packet `ip`, where its header is all there.
pub open spec fn segment_of(ip: Seq<u8>, is_v6: bool) -> Option<Segment> {
    match ip_frame(ip, is_v6) {
        Some((l4, total, src, dst)) => if l4 + 20 > ip.len() {
            None
        } else {
            let flags = ip[l4 + 13];
            Some(
                Segment {
                    src: (src, be16_at(ip, l4)->0),
                    dst: (dst, be16_at(ip, l4 + 2)->0),
                    seq: be32_at(ip, l4 + 4) as u32,
                    ackn: be32_at(ip, l4 + 8) as u32,
                    syn: flags & 0x02 != 0,
                    ack: flags & 0x10 != 0,
                    fin: flags & 0x01 != 0,
                    payload: payload_len(total, l4, (ip[l4 + 12] / 16) * 4) as u32,
                    cut: total > ip.len(),
                },
            )
        },
        None => None,
    }
}

/// Reads the TCP segment of an IP packet. Extension headers of IPv6 are not walked.
pub fn read_segment(ip: &[u8], is_v6: bool) -> (r: Option<Segment>)
    requires
        ip@.len() + 100 <= usize::MAX,
    ensures
        r == segment_of(ip@, is_v6),
        r is Some ==> r->0.payload <= 0x2_0000,
{
    let n: usize = ip.len();
    let l4: usize;
    let total: usize;
    let src: u128;
    let dst: u128;
    if is_v6 {
        if n < 40 {
            return None;
        }
        l4 = 40;
        total = match be16(ip, 4) {
            Some(x) => 40 + x as usize,
            None => return None,
        };
        src = be128(ip, 8);
        dst = be128(ip, 24);
    } else {
        if n < 20 {
            return None;
        }
        l4 = (ip[0] % 16) as usize * 4;
        if l4 < 20 {
            return None;
        }
        total = match be16(ip, 2) {
            Some(x) => x as usize,
            None => return None,
        };
        src = be32(ip, 12) as u128;
        dst = be32(ip, 16) as u128;
    }
    if l4 + 20 > n {
        return None;
    }
    let sport: u16 = match be16(ip, l4) {
        Some(x) => x,
        None => return None,
    };
    let dport: u16 = match be16(ip, l4 + 2) {
        Some(x) => x,
        None => return None,
    };
    let doff: usize = (ip[l4 + 12] / 16) as usize * 4;
    let flags: u8 = ip[l4 + 13];
    let payload: usize = if total < l4 + doff {
        0
    } else {
        total - l4 - doff
    };
    Some(
        Segment {
            src: (src, sport),
            dst: (dst, dport),
            seq: be32(ip, l4 + 4),
            ackn: be32(ip, l4 + 8),
            syn: flags & 0x02 != 0,
            ack: flags & 0x10 != 0,
            fin: flags & 0x01 != 0,
            payload: payload as u32,
            cut: total > n,
        },
    )
}

/// The order of endpoints: by address, then by port.
pub open spec fn endpoint_le(a: (u128, u16), b: (u128, u16)) -> bool {
    a.0 < b.0 || (a.0 == b.0 && a.1 <= b.1)
}

/// The key of the session between two endpoints.
pub open spec fn session_key(a: (u128, u16), b: (u128, u16)) -> u64 {
    if endpoint_le(a, b) {
        flow_key(a, b)
    } else {
        flow_key(b, a)
    }
}

/// A session of which nothing was seen yet.
pub open spec fn fresh_flow() -> FlowState {
    FlowState { saw_syn: false, saw_synack: false, saw_data_no_syn: false, next_of_lo: None, next_of_hi: None }
}

/// The next sequence number expected of the lesser or of the greater endpoint.
pub open spec fn expected(f: FlowState, of_lo: bool) -> Option<u32> {
    if of_lo {
        f.next_of_lo
    } else {
        f.next_of_hi
    }
}

/// Whether `x` lies beyond `y`, by less than 16 million: a forward jump.
pub open spec fn jumps(y: Option<u32>, x: u32) -> bool {
    y is Some && 0 < x.wrapping_sub(y->0) < 16_000_000
}

/// The sequence numbers that a segment takes: its payload, and one each for SYN and FIN.
pub open spec fn segment_span(g: Segment) -> int {
    g.payload + (if g.syn {
        1int
    } else {
        0
    }) + (if g.fin {
        1int
    } else {
        0
    })
}

/// The number expected behind `g`; it never moves backwards.
pub open spec fn next_expected(cur: Option<u32>, g: Segment) -> Option<u32> {
    let end = g.seq.wrapping_add(segment_span(g) as u32);
    match cur {
        Some(c) => if end.wrapping_sub(c) >= 0x8000_0000 {
            Some(c)
        } else {
            Some(end)
        },
        None => Some(end),
    }
}

/// A session after one more segment, sent by its lesser endpoint or by the greater.
pub open spec fn flow_after(f: FlowState, g: Segment, from_lo: bool) -> FlowState {
    FlowState {
        saw_syn: f.saw_syn || (g.syn && !g.ack),
        saw_synack: f.saw_synack || (g.syn && g.ack),
        saw_data_no_syn: f.saw_data_no_syn || (!g.syn && g.payload > 0 && !f.saw_syn && !f.saw_synack),
        next_of_lo: if from_lo {
            next_expected(f.next_of_lo, g)
        } else {
            f.next_of_lo
        },
        next_of_hi: if from_lo {
            f.next_of_hi
        } else {
            next_expected(f.next_of_hi, g)
        },
    }
}

/// One more segment. A session beyond the cap is not tracked.
pub open spec fn with_segment(t: Tally, g: Segment) -> Tally {
    let t = Tally {
        inner_trunc: if g.cut {
            t.inner_trunc + 1
        } else {
            t.inner_trunc
        },
        ..t
    };
    let from_lo = endpoint_le(g.src, g.dst);
    let key = session_key(g.src, g.dst);
    let f = if t.flows.contains_key(key) {
        t.flows[key]
    } else {
        fresh_flow()
    };
    if !t.flows.contains_key(key) && t.flows.len() >= MAX_FLOWS {
        t
    } else {
        Tally {
            seq_gaps: if jumps(expected(f, from_lo), g.seq) {
                t.seq_gaps + 1
            } else {
                t.seq_gaps
            },
            acked_unseen: if g.ack && jumps(expected(f, !from_lo), g.ackn) {
                t.acked_unseen + 1
            } else {
                t.acked_unseen
            },
            flows: t.flows.insert(key, flow_after(f, g, from_lo)),
            ..t
        }
    }
}

/// The TCP packet `ip`.
pub open spec fn with_tcp(t: Tally, ip: Seq<u8>, is_v6: bool) -> Tally {
    match segment_of(ip, is_v6) {
        Some(g) => with_segment(t, g),
        None => t,
    }
}

fn is_jump(y: Option<u32>, x: u32) -> (r: bool)
    ensures
        r == jumps(y, x),
{
    match y {
        Some(y) => {
            let d: u32 = x.wrapping_sub(y);
            d > 0 && d < 16_000_000
        },
        None => false,
    }
}

fn step_expected(cur: Option<u32>, g: &Segment) -> (r: Option<u32>)
    requires
        g.payload <= 0x2_0000,
    ensures
        r == next_expected(cur, *g),
{
    let mut span: u32 = g.payload;
    if g.syn {
        span = span + 1;
    }
    if g.fin {
        span = span + 1;
    }
    let end: u32 = g.seq.wrapping_add(span);
    match cur {
        Some(c) => if end.wrapping_sub(c) >= 0x8000_0000 {
            Some(c)
        } else {
            Some(end)
        },
        None => Some(end),
    }
}

/// Feeds one segment into its session.
fn feed_segment(g: Segment, s: &mut Stats)
    requires
        old(s)@.wf(),
        g.payload <= 0x2_0000,
        old(s).inner_trunc < u64::MAX,
        old(s).seq_gaps < u64::MAX,
        old(s).acked_unseen < u64::MAX,
    ensures
        final(s)@ == with_segment(old(s)@, g),
        final(s)@.wf(),
{
    if g.cut {
        s.inner_trunc = s.inner_trunc + 1;
    }
    let from_lo: bool = g.src.0 < g.dst.0 || (g.src.0 == g.dst.0 && g.src.1 <= g.dst.1);
    let key: u64 = if from_lo {
        flow_hash(g.src, g.dst)
    } else {
        flow_hash(g.dst, g.src)
    };
    let known: bool = s.flows.contains_key(&key);
    if !known && s.flows.len() >= MAX_FLOWS {
        return ;
    }
    let mut f: FlowState = match s.flows.get(&key) {
        Some(f) => *f,
        None => FlowState {
            saw_syn: false,
            saw_synack: false,
            saw_data_no_syn: false,
            next_of_lo: None,
            next_of_hi: None,
        },
    };
    let ghost f0 = f;
    if !g.syn && g.payload > 0 && !f.saw_syn && !f.saw_synack {
        f.saw_data_no_syn = true;
    }
    if g.syn && !g.ack {
        f.saw_syn = true;
    }
    if g.syn && g.ack {
        f.saw_synack = true;
    }
    let own: Option<u32> = if from_lo {
        f.next_of_lo
    } else {
        f.next_of_hi
    };
    let peer: Option<u32> = if from_lo {
        f.next_of_hi
    } else {
        f.next_of_lo
    };
    if is_jump(own, g.seq) {
        s.seq_gaps = s.seq_gaps + 1;
    }
    if g.ack && is_jump(peer, g.ackn) {
        s.acked_unseen = s.acked_unseen + 1;
    }
    let next: Option<u32> = step_expected(own, &g);
    if from_lo {
        f.next_of_lo = next;
    } else {
        f.next_of_hi = next;
    }
    assert(f == flow_after(f0, g, from_lo));
    s.flows.insert(key, f);
    assert(s@ =~= with_segment(old(s)@, g));
}

/// Feeds one IP packet that carries TCP: handshake coverage, sequence gaps,
/// acknowledgements of unseen bytes, and packets cut short.
pub fn tcp_session(ip: &[u8], is_v6: bool, s: &mut Stats)
    requires
        old(s)@.wf(),
        ip@.len() + 100 <= usize::MAX,
        old(s).inner_trunc < u64::MAX,
        old(s).seq_gaps < u64::MAX,
        old(s).acked_unseen < u64::MAX,
    ensures
        final(s)@ == with_tcp(old(s)@, ip@, is_v6),
        final(s)@.wf(),
{
    if let Some(g) = read_segment(ip, is_v6) {
        feed_segment(g, s);
    }
}

/// How much of the handshake of a session the capture holds.
#[derive(Clone, Copy, Debug, PartialEq, Eq, Structural)]
pub enum Coverage {
    /// SYN and SYN-ACK.
    Complete,
    /// SYN without SYN-ACK: one direction only?
    SynOnly,
    /// Payload before any SYN: the capture started late.
    MidStream,
    /// Neither.
    Unclear,
}

pub open spec fn coverage(f: FlowState) -> Coverage {
    if f.saw_syn && f.saw_synack {
        Coverage::Complete
    } else if f.saw_syn {
        Coverage::SynOnly
    } else if f.saw_data_no_syn {
        Coverage::MidStream
    } else {
        Coverage::Unclear
    }
}

/// The sessions among `keys` with the coverage `c`.
pub open spec fn sessions(flows: Map<u64, FlowState>, keys: Set<u64>, c: Coverage) -> Set<u64> {
    keys.filter(|k: u64| coverage(flows[k]) == c)
}

/// The tally with its sessions counted.
pub open spec fn with_sessions(t: Tally) -> Tally {
    Tally {
        tcp_flows: t.flows.len(),
        hs_complete: t.hs_complete + sessions(t.flows, t.flows.dom(), Coverage::Complete).len(),
        hs_syn_only: t.hs_syn_only + sessions(t.flows, t.flows.dom(), Coverage::SynOnly).len(),
        hs_midstream: t.hs_midstream + sessions(t.flows, t.flows.dom(), Coverage::MidStream).len(),
        ..t
    }
}

proof fn lemma_one_more_session(flows: Map<u64, FlowState>, keys: Set<u64>, k: u64, c: Coverage)
    requires
        keys.finite(),
        !keys.contains(k),
    ensures
        sessions(flows, keys, c).finite(),
        sessions(flows, keys, c).len() <= keys.len(),
        sessions(flows, keys.insert(k), c).len() == sessions(flows, keys, c).len() + (if coverage(flows[k]) == c {
            1int
        } else {
            0
        }),
{
    let p = |k: u64| coverage(flows[k]) == c;
    keys.lemma_len_filter(p);
    if coverage(flows[k]) == c {
        assert(sessions(flows, keys.insert(k), c) =~= sessions(flows, keys, c).insert(k));
    } else {
        assert(sessions(flows, keys.insert(k), c) =~= sessions(flows, keys, c));
    }
}

/// Counts the sessions, and adds them to the tallies of handshake coverage.
pub fn finalize_flows(s: &mut Stats)
    requires
        old(s)@.wf(),
        with_sessions(old(s)@).hs_complete <= u64::MAX,
        with_sessions(old(s)@).hs_syn_only <= u64::MAX,
        with_sessions(old(s)@).hs_midstream <= u64::MAX,
    ensures
        final(s)@ == with_sessions(old(s)@),
        final(s)@.wf(),
{
    let mut complete: u64 = 0;
    let mut syn_only: u64 = 0;
    let mut midstream: u64 = 0;
    let ghost flows = s.flows@;
    let ghost mut done: Set<u64> = Set::empty();
    proof {
        assert(sessions(flows, done, Coverage::Complete) =~= Set::empty());
        assert(sessions(flows, done, Coverage::SynOnly) =~= Set::empty());
        assert(sessions(flows, done, Coverage::MidStream) =~= Set::empty());
    }
    for k in it: s.flows.keys()
        invariant
            flows == s.flows@,
            flows.dom().finite(),
            flows.len() <= MAX_FLOWS,
            it.seq().unref().to_set() == flows.dom(),
            it.seq().no_duplicates(),
            it.seq().len() == flows.dom().len(),
            done.finite(),
            done.len() == it.index(),
            it.index() <= it.seq().len(),
            done =~= it.seq().take(it.index() as int).unref().to_set(),
            done.subset_of(flows.dom()),
            complete == sessions(flows, done, Coverage::Complete).len(),
            syn_only == sessions(flows, done, Coverage::SynOnly).len(),
            midstream == sessions(flows, done, Coverage::MidStream).len(),
            complete <= done.len(),
            syn_only <= done.len(),
            midstream <= done.len(),
    {
        proof {
            let i = it.index() as int;
            assert(it.seq().unref()[i] == *k);
            assert(it.seq().unref().to_set().contains(*k));
            assert(!done.contains(*k)) by {
                if done.contains(*k) {
                    let j = choose|j: int| 0 <= j < i && it.seq().take(i).unref()[j] == *k;
                    assert(*it.seq()[j] == *k);
                    assert(it.seq()[j] == it.seq()[i]);
                }
            }
            assert(it.seq().take(i + 1).unref() =~= it.seq().take(i).unref().push(*k));
            assert(it.seq().take(i + 1).unref().to_set() =~= done.insert(*k)) by {
                assert forall|x: u64| it.seq().take(i + 1).unref().to_set().contains(x) <==> done.insert(*k).contains(
                    x,
                ) by {
                    let a = it.seq().take(i).unref();
                    if a.push(*k).contains(x) {
                        let j = choose|j: int| 0 <= j < a.push(*k).len() && a.push(*k)[j] == x;
                        if j < a.len() {
                            assert(a[j] == x);
                        }
                    }
                    if a.contains(x) {
                        let j = choose|j: int| 0 <= j < a.len() && a[j] == x;
                        assert(a.push(*k)[j] == x);
                    }
                    assert(a.push(*k)[a.len() as int] == *k);
                }
            }
            lemma_one_more_session(flows, done, *k, Coverage::Complete);
            lemma_one_more_session(flows, done, *k, Coverage::SynOnly);
            lemma_one_more_session(flows, done, *k, Coverage::MidStream);
            done = done.insert(*k);
        }
        if let Some(f) = s.flows.get(k) {
            if f.saw_syn && f.saw_synack {
                complete = complete + 1;
            } else if f.saw_syn {
                syn_only = syn_only + 1;
            } else if f.saw_data_no_syn {
                midstream = midstream + 1;
            }
        }
    }
    proof {
        vstd::set_lib::lemma_subset_equality(done, flows.dom());
    }
    s.tcp_flows = s.flows.len() as u64;
    s.hs_complete = s.hs_complete + complete;
    s.hs_syn_only = s.hs_syn_only + syn_only;
    s.hs_midstream = s.hs_midstream + midstream;
    assert(s@ =~= with_sessions(old(s)@));
}

/// Both directions of a conversation belong to one session.
pub proof fn law_session_has_both_directions(a: (u128, u16), b: (u128, u16))
    ensures
        session_key(a, b) == session_key(b, a),
        a != b ==> endpoint_le(a, b) != endpoint_le(b, a),
{
}

/// A segment that starts where the last one of its direction ended is no gap,
/// nor is one that starts earlier, which is a retransmission or out of order.
pub proof fn law_no_gap_without_a_jump(t: Tally, g: Segment)
    requires
        t.flows.contains_key(session_key(g.src, g.dst)),
        ({
            let exp = expected(t.flows[session_key(g.src, g.dst)], endpoint_le(g.src, g.dst));
            exp is None || g.seq == exp->0 || g.seq.wrapping_sub(exp->0) >= 0x8000_0000
        }),
    ensures
        with_segment(t, g).seq_gaps == t.seq_gaps,
{
}

/// A segment that starts beyond what its direction was expected to send next is
/// a gap: what lies between is missing from the file.
pub proof fn law_forward_jump_is_a_gap(t: Tally, g: Segment)
    requires
        t.flows.contains_key(session_key(g.src, g.dst)),
        ({
            let exp = expected(t.flows[session_key(g.src, g.dst)], endpoint_le(g.src, g.dst));
            exp is Some && 0 < g.seq.wrapping_sub(exp->0) < 16_000_000
        }),
    ensures
        with_segment(t, g).seq_gaps == t.seq_gaps + 1,
{
}

/// An acknowledgement of no more than what the peer was seen to send is no sign
/// of a drop.
pub proof fn law_no_drop_without_a_late_ack(t: Tally, g: Segment)
    requires
        t.flows.contains_key(session_key(g.src, g.dst)),
        ({
            let end = expected(t.flows[session_key(g.src, g.dst)], !endpoint_le(g.src, g.dst));
            end is None || g.ackn == end->0 || g.ackn.wrapping_sub(end->0) >= 0x8000_0000
        }),
    ensures
        with_segment(t, g).acked_unseen == t.acked_unseen,
{
}

/// Sequence numbers go by the lengths on the wire: cutting a packet short behind
/// its TCP header changes nothing of its segment, but that it shows as cut.
pub proof fn law_truncation_keeps_the_segment(ip: Seq<u8>, is_v6: bool, n: int)
    requires
        segment_of(ip, is_v6) is Some,
        ({
            let (l4, _, _, _) = ip_frame(ip, is_v6)->0;
            l4 + 20 <= n <= ip.len()
        }),
    ensures
        ({
            let (_, total, _, _) = ip_frame(ip, is_v6)->0;
            segment_of(ip.take(n), is_v6) == Some(Segment { cut: total > n, ..segment_of(ip, is_v6)->0 })
        }),
{
    let short = ip.take(n);
    assert(forall|i: int| 0 <= i < n ==> short[i] == ip[i]);
}

/// Cutting a packet short behind its TCP header changes nothing of the accounting
/// of its session; it is tallied as cut if and only if its IP header claims more
/// bytes than are left.
#[verifier::rlimit(30)]
pub proof fn law_truncation_keeps_the_accounting(t: Tally, ip: Seq<u8>, is_v6: bool, n: int)
    requires
        segment_of(ip, is_v6) is Some,
        ({
            let (l4, _, _, _) = ip_frame(ip, is_v6)->0;
            l4 + 20 <= n <= ip.len()
        }),
    ensures
        ({
            let whole = with_tcp(t, ip, is_v6);
            let short = with_tcp(t, ip.take(n), is_v6);
            let (_, total, _, _) = ip_frame(ip, is_v6)->0;
            &&& short == (Tally { inner_trunc: short.inner_trunc, ..whole })
            &&& whole.inner_trunc == t.inner_trunc + (if total > ip.len() {
                1int
            } else {
                0
            })
            &&& short.inner_trunc == t.inner_trunc + (if total > n {
                1int
            } else {
                0
            })
        }),
{
    law_truncation_keeps_the_segment(ip, is_v6, n);
}

/// Every session is covered in one of four ways, so the three that are reported
/// never exceed the number of sessions.
pub proof fn law_coverage_is_a_partition(t: Tally)
    requires
        t.flows.dom().finite(),
    ensures
        sessions(t.flows, t.flows.dom(), Coverage::Complete).len() + sessions(
            t.flows,
            t.flows.dom(),
            Coverage::SynOnly,
        ).len() + sessions(t.flows, t.flows.dom(), Coverage::MidStream).len() + sessions(
            t.flows,
            t.flows.dom(),
            Coverage::Unclear,
        ).len() == t.flows.len(),
{
    lemma_partition(t.flows, t.flows.dom());
}

proof fn lemma_partition(flows: Map<u64, FlowState>, keys: Set<u64>)
    requires
        keys.finite(),
    ensures
        sessions(flows, keys, Coverage::Complete).len() + sessions(flows, keys, Coverage::SynOnly).len() + sessions(
            flows,
            keys,
            Coverage::MidStream,
        ).len() + sessions(flows, keys, Coverage::Unclear).len() == keys.len(),
    decreases keys.len(),
{
    if keys.len() == 0 {
        assert(keys =~= Set::empty());
        assert(sessions(flows, keys, Coverage::Complete) =~= Set::empty());
        assert(sessions(flows, keys, Coverage::SynOnly) =~= Set::empty());
        assert(sessions(flows, keys, Coverage::MidStream) =~= Set::empty());
        assert(sessions(flows, keys, Coverage::Unclear) =~= Set::empty());
    } else {
        let k = keys.choose();
        let fewer = keys.remove(k);
        lemma_partition(flows, fewer);
        assert(fewer.insert(k) =~= keys);
        lemma_one_more_session(flows, fewer, k, Coverage::Complete);
        lemma_one_more_session(flows, fewer, k, Coverage::SynOnly);
        lemma_one_more_session(flows, fewer, k, Coverage::MidStream);
        lemma_one_more_session(flows, fewer, k, Coverage::Unclear);
    }
}

/// The sequence number behind a segment is `seq + payload`, one more for a SYN and
/// one more for a FIN, modulo 2^32. It is what the direction of a new session is
/// expected to send next, while nothing is expected of the other one yet.
pub proof fn law_first_segment_sets_what_is_next(t: Tally, g: Segment)
    requires
        !t.flows.contains_key(session_key(g.src, g.dst)),
        t.flows.len() < 200_000,
        g.payload <= 0x2_0000,
    ensures
        ({
            let f = with_segment(t, g).flows[session_key(g.src, g.dst)];
            let end = g.seq + g.payload + (if g.syn {
                1int
            } else {
                0
            }) + (if g.fin {
                1int
            } else {
                0
            });
            let next = Some((end % 0x1_0000_0000) as u32);
            &&& with_segment(t, g).flows.contains_key(session_key(g.src, g.dst))
            &&& g.src.0 < g.dst.0 || (g.src.0 == g.dst.0 && g.src.1 <= g.dst.1) ==> f.next_of_lo == next
                && f.next_of_hi is None
            &&& g.src.0 > g.dst.0 || (g.src.0 == g.dst.0 && g.src.1 > g.dst.1) ==> f.next_of_hi == next
                && f.next_of_lo is None
        }),
{
    lemma_end_of(g);
}

/// The end of a segment, modulo 2^32.
proof fn lemma_end_of(g: Segment)
    requires
        g.payload <= 0x2_0000,
    ensures
        ({
            let span = g.payload + (if g.syn {
                1int
            } else {
                0
            }) + (if g.fin {
                1int
            } else {
                0
            });
            g.seq.wrapping_add(segment_span(g) as u32) == (g.seq + span) % 0x1_0000_0000
        }),
{
}

/// An acknowledgement of all that a segment sent, its SYN and its FIN with it, is
/// of captured data, whatever went before.
#[verifier::rlimit(30)]
pub proof fn law_ack_of_a_captured_segment_is_no_drop(t: Tally, g: Segment, h: Segment)
    requires
        g.payload <= 0x2_0000,
        h.src == g.dst,
        h.dst == g.src,
        g.src != g.dst,
        h.ackn == (g.seq + g.payload + (if g.syn {
            1int
        } else {
            0
        }) + (if g.fin {
            1int
        } else {
            0
        })) % 0x1_0000_0000,
    ensures
        with_segment(with_segment(t, g), h).acked_unseen == with_segment(t, g).acked_unseen,
{
    lemma_end_of(g);
    law_session_has_both_directions(g.src, g.dst);
    if t.flows.contains_key(session_key(g.src, g.dst)) || t.flows.len() < MAX_FLOWS {
        lemma_next_is_at_or_beyond(t, g);
    }
}

/// A segment that starts where the one before it in its direction ended leaves no
/// gap, whatever went before.
#[verifier::rlimit(30)]
pub proof fn law_stream_in_order_has_no_gap(t: Tally, g: Segment, h: Segment)
    requires
        g.payload <= 0x2_0000,
        h.src == g.src,
        h.dst == g.dst,
        h.seq == (g.seq + g.payload + (if g.syn {
            1int
        } else {
            0
        }) + (if g.fin {
            1int
        } else {
            0
        })) % 0x1_0000_0000,
    ensures
        with_segment(with_segment(t, g), h).seq_gaps == with_segment(t, g).seq_gaps,
{
    lemma_end_of(g);
    if t.flows.contains_key(session_key(g.src, g.dst)) || t.flows.len() < MAX_FLOWS {
        lemma_next_is_at_or_beyond(t, g);
    }
}

/// What a direction is expected to send behind a segment is its end, or lies
/// beyond that by less than half of all numbers.
proof fn lemma_next_is_at_or_beyond(t: Tally, g: Segment)
    requires
        t.flows.contains_key(session_key(g.src, g.dst)) || t.flows.len() < MAX_FLOWS,
    ensures
        with_segment(t, g).flows.contains_key(session_key(g.src, g.dst)),
        ({
            let f = with_segment(t, g).flows[session_key(g.src, g.dst)];
            let next = expected(f, endpoint_le(g.src, g.dst));
            let end = g.seq.wrapping_add(segment_span(g) as u32);
            next is Some && (next->0 == end || end.wrapping_sub(next->0) >= 0x8000_0000)
        }),
{
}

/// Missing segments are counted: of a new session, the first later segment of the
/// same direction that starts up to 16 million numbers beyond the end of the one
/// before is a gap, and an acknowledgement of the peer that far beyond is of
/// unseen data.
#[verifier::rlimit(30)]
pub proof fn law_missing_segment_is_counted(t: Tally, g: Segment, h: Segment, d: int)
    requires
        !t.flows.contains_key(session_key(g.src, g.dst)),
        t.flows.len() < 200_000,
        g.payload <= 0x2_0000,
        g.src != g.dst,
        0 < d < 16_000_000,
    ensures
        ({
            let end = g.seq + g.payload + (if g.syn {
                1int
            } else {
                0
            }) + (if g.fin {
                1int
            } else {
                0
            });
            let once = with_segment(t, g);
            &&& h.src == g.src && h.dst == g.dst && h.seq == (end + d) % 0x1_0000_0000 ==> with_segment(once, h).seq_gaps
                == once.seq_gaps + 1
            &&& h.src == g.dst && h.dst == g.src && h.ack && h.ackn == (end + d) % 0x1_0000_0000 ==> with_segment(
                once,
                h,
            ).acked_unseen == once.acked_unseen + 1
            &&& h.src == g.dst && h.dst == g.src && !h.ack ==> with_segment(once, h).acked_unseen == once.acked_unseen
        }),
{
    law_first_segment_sets_what_is_next(t, g);
    law_session_has_both_directions(g.src, g.dst);
    let end = g.seq + g.payload + (if g.syn {
        1int
    } else {
        0
    }) + (if g.fin {
        1int
    } else {
        0
    });
    lemma_beyond(end, d);
    if (h.src == g.src && h.dst == g.dst) || (h.src == g.dst && h.dst == g.src) {
        lemma_counts_of_a_segment(with_segment(t, g), h);
    }
}

/// A number that lies `d` beyond another one, modulo 2^32.
proof fn lemma_beyond(end: int, d: int)
    requires
        0 < d < 0x8000_0000,
    ensures
        ((end + d) % 0x1_0000_0000 - end % 0x1_0000_0000) % 0x1_0000_0000 == d,
{
    let e = end % 0x1_0000_0000;
    assert((end + d) % 0x1_0000_0000 == (e + d) % 0x1_0000_0000);
}

/// What a segment of a known session counts as.
proof fn lemma_counts_of_a_segment(t: Tally, g: Segment)
    requires
        t.flows.contains_key(session_key(g.src, g.dst)),
    ensures
        ({
            let f = t.flows[session_key(g.src, g.dst)];
            let u = with_segment(t, g);
            let lesser = g.src.0 < g.dst.0 || (g.src.0 == g.dst.0 && g.src.1 <= g.dst.1);
            let (own, peer) = if lesser {
                (f.next_of_lo, f.next_of_hi)
            } else {
                (f.next_of_hi, f.next_of_lo)
            };
            &&& u.seq_gaps == t.seq_gaps + (if own is Some && 0 < (g.seq - own->0) % 0x1_0000_0000 < 16_000_000 {
                1int
            } else {
                0
            })
            &&& u.acked_unseen == t.acked_unseen + (if g.ack && peer is Some && 0 < (g.ackn - peer->0) % 0x1_0000_0000
                < 16_000_000 {
                1int
            } else {
                0
            })
        }),
{
    let f = t.flows[session_key(g.src, g.dst)];
    let from_lo = endpoint_le(g.src, g.dst);
    if let Some(e) = expected(f, from_lo) {
        lemma_distance(g.seq, e);
    }
    if let Some(e) = expected(f, !from_lo) {
        lemma_distance(g.ackn, e);
    }
}

/// A segment is accounted to its own session alone, and raises each count by at
/// most one.
pub proof fn law_segment_touches_its_session_alone(t: Tally, g: Segment, key: u64)
    ensures
        ({
            let u = with_segment(t, g);
            &&& key != session_key(g.src, g.dst) ==> u.flows.contains_key(key) == t.flows.contains_key(key)
                && (t.flows.contains_key(key) ==> u.flows[key] == t.flows[key])
            &&& t.seq_gaps <= u.seq_gaps <= t.seq_gaps + 1
            &&& t.acked_unseen <= u.acked_unseen <= t.acked_unseen + 1
            &&& !t.flows.contains_key(session_key(g.src, g.dst)) ==> u.seq_gaps == t.seq_gaps && u.acked_unseen
                == t.acked_unseen
        }),
{
}

/// Handshakes are recognised: a SYN without ACK opens a session, one with ACK
/// answers it, and payload before either tells that the capture started late.
/// What was seen stays seen.
pub proof fn law_handshake_is_recognised(t: Tally, g: Segment)
    requires
        t.flows.contains_key(session_key(g.src, g.dst)) || t.flows.len() < 200_000,
    ensures
        ({
            let key = session_key(g.src, g.dst);
            let known = t.flows.contains_key(key);
            let u = with_segment(t, g).flows[key];
            let syn = known && t.flows[key].saw_syn;
            let synack = known && t.flows[key].saw_synack;
            &&& with_segment(t, g).flows.contains_key(key)
            &&& u.saw_syn <==> syn || (g.syn && !g.ack)
            &&& u.saw_synack <==> synack || (g.syn && g.ack)
            &&& u.saw_data_no_syn <==> (known && t.flows[key].saw_data_no_syn) || (!syn && !synack && !g.syn && g.payload
                >= 1)
        }),
{
}

/// The three tallies of handshake coverage: sessions with SYN and SYN-ACK, with a
/// SYN alone, and with neither but with payload before any SYN.
pub proof fn law_coverage_is_what_was_seen(t: Tally)
    ensures
        ({
            let u = with_sessions(t);
            let flows = t.flows;
            &&& u.tcp_flows == flows.len()
            &&& u.hs_complete - t.hs_complete == flows.dom().filter(
                |k: u64| flows[k].saw_syn && flows[k].saw_synack,
            ).len()
            &&& u.hs_syn_only - t.hs_syn_only == flows.dom().filter(
                |k: u64| flows[k].saw_syn && !flows[k].saw_synack,
            ).len()
            &&& u.hs_midstream - t.hs_midstream == flows.dom().filter(
                |k: u64| !flows[k].saw_syn && flows[k].saw_data_no_syn,
            ).len()
        }),
{
    let flows = t.flows;
    assert(sessions(flows, flows.dom(), Coverage::Complete) =~= flows.dom().filter(
        |k: u64| flows[k].saw_syn && flows[k].saw_synack,
    ));
    assert(sessions(flows, flows.dom(), Coverage::SynOnly) =~= flows.dom().filter(
        |k: u64| flows[k].saw_syn && !flows[k].saw_synack,
    ));
    assert(sessions(flows, flows.dom(), Coverage::MidStream) =~= flows.dom().filter(
        |k: u64| !flows[k].saw_syn && flows[k].saw_data_no_syn,
    ));
}

/// Where the fields of a segment stand: addresses and length in the IP header,
/// the rest in the TCP header behind it, whose start an IPv4 packet gives in words
/// of four bytes. The payload is what the IP length leaves behind both headers.
#[verifier::rlimit(30)]
pub proof fn law_segment_fields(ip: Seq<u8>, is_v6: bool)
    ensures
        ({
            let l4: int = if is_v6 {
                40
            } else {
                4 * (ip[0] as int % 16)
            };
            let total: int = if is_v6 {
                40 + 256 * ip[4] + ip[5]
            } else {
                256 * ip[2] + ip[3]
            };
            let there = ip.len() >= l4 + 20 && (is_v6 || l4 >= 20);
            let s = segment_of(ip, is_v6);
            let doff = 4 * (ip[l4 + 12] as int / 16);
            &&& s is Some <==> there
            &&& there ==> {
                &&& s->0.src.1 == 256 * ip[l4] + ip[l4 + 1]
                &&& s->0.dst.1 == 256 * ip[l4 + 2] + ip[l4 + 3]
                &&& s->0.seq == 16_777_216 * ip[l4 + 4] + 65_536 * ip[l4 + 5] + 256 * ip[l4 + 6] + ip[l4 + 7]
                &&& s->0.ackn == 16_777_216 * ip[l4 + 8] + 65_536 * ip[l4 + 9] + 256 * ip[l4 + 10] + ip[l4 + 11]
                &&& s->0.fin <==> ip[l4 + 13] % 2 == 1
                &&& s->0.syn <==> (ip[l4 + 13] / 2) % 2 == 1
                &&& s->0.ack <==> (ip[l4 + 13] / 16) % 2 == 1
                &&& total >= l4 + doff ==> s->0.payload == total - l4 - doff
                &&& total < l4 + doff ==> s->0.payload == 0
                &&& s->0.cut <==> total > ip.len()
            }
            &&& there && !is_v6 ==> {
                &&& s->0.src.0 == 16_777_216 * ip[12] + 65_536 * ip[13] + 256 * ip[14] + ip[15]
                &&& s->0.dst.0 == 16_777_216 * ip[16] + 65_536 * ip[17] + 256 * ip[18] + ip[19]
            }
            &&& there && is_v6 ==> s->0.src.0 == be128_at(ip, 8) && s->0.dst.0 == be128_at(ip, 24)
        }),
{
    if ip.len() >= 20 {
        let l4: int = if is_v6 {
            40
        } else {
            4 * (ip[0] as int % 16)
        };
        if ip.len() >= l4 + 20 {
            let b = ip[l4 + 13];
            assert((b & 0x02 != 0) == ((b / 2) % 2 == 1)) by (bit_vector);
            assert((b & 0x10 != 0) == ((b / 16) % 2 == 1)) by (bit_vector);
            assert((b & 0x01 != 0) == (b % 2 == 1)) by (bit_vector);
        }
    }
}

/// A packet without a whole TCP header leaves the tally as it is; any other one is
/// tallied as cut if and only if its IP header claims more bytes than there are.
pub proof fn law_only_whole_headers_count(t: Tally, ip: Seq<u8>, is_v6: bool)
    ensures
        segment_of(ip, is_v6) is None ==> with_tcp(t, ip, is_v6) == t,
        segment_of(ip, is_v6) is Some ==> with_tcp(t, ip, is_v6).inner_trunc == t.inner_trunc + (if (if is_v6 {
            40 + 256 * ip[4] + ip[5]
        } else {
            256 * ip[2] + ip[3]
        }) > ip.len() {
            1int
        } else {
            0
        }),
{
}

/// A difference of two sequence numbers, modulo 2^32.
proof fn lemma_distance(x: u32, y: u32)
    ensures
        x.wrapping_sub(y) == (x - y) % 0x1_0000_0000,
{
    if x < y {
        assert((x - y) % 0x1_0000_0000 == x - y + 0x1_0000_0000);
    }
}

/// A segment of a known session is held against what was seen of it. It leaves a gap
/// if and only if it starts less than 16 million numbers beyond what its direction
/// was expected to send next, modulo 2^32, and it acknowledges unseen data if and only
/// if it does so that far beyond what its peer was. Its own direction goes on behind
/// it, or stays where it was where the segment ends earlier, by up to half of all
/// numbers: a retransmission is not taken for progress. The other direction stays.
#[verifier::rlimit(30)]
pub proof fn law_segment_is_held_against_its_session(t: Tally, g: Segment)
    requires
        t.flows.contains_key(session_key(g.src, g.dst)),
        g.payload <= 0x2_0000,
    ensures
        ({
            let f = t.flows[session_key(g.src, g.dst)];
            let u = with_segment(t, g);
            let v = u.flows[session_key(g.src, g.dst)];
            let lesser = g.src.0 < g.dst.0 || (g.src.0 == g.dst.0 && g.src.1 <= g.dst.1);
            let (own, peer) = if lesser {
                (f.next_of_lo, f.next_of_hi)
            } else {
                (f.next_of_hi, f.next_of_lo)
            };
            let (own_after, peer_after) = if lesser {
                (v.next_of_lo, v.next_of_hi)
            } else {
                (v.next_of_hi, v.next_of_lo)
            };
            let end = (g.seq + g.payload + (if g.syn {
                1int
            } else {
                0
            }) + (if g.fin {
                1int
            } else {
                0
            })) % 0x1_0000_0000;
            &&& u.seq_gaps == t.seq_gaps + (if own is Some && 0 < (g.seq - own->0) % 0x1_0000_0000 < 16_000_000 {
                1int
            } else {
                0
            })
            &&& u.acked_unseen == t.acked_unseen + (if g.ack && peer is Some && 0 < (g.ackn - peer->0) % 0x1_0000_0000
                < 16_000_000 {
                1int
            } else {
                0
            })
            &&& own is None || (end - own->0) % 0x1_0000_0000 < 0x8000_0000 ==> own_after == Some(end as u32)
            &&& own is Some && (end - own->0) % 0x1_0000_0000 >= 0x8000_0000 ==> own_after == own
            &&& peer_after == peer
        }),
{
    lemma_end_of(g);
    let f = t.flows[session_key(g.src, g.dst)];
    let from_lo = endpoint_le(g.src, g.dst);
    let end = g.seq.wrapping_add(segment_span(g) as u32);
    if let Some(e) = expected(f, from_lo) {
        lemma_distance(g.seq, e);
        lemma_distance(end, e);
    }
    if let Some(e) = expected(f, !from_lo) {
        lemma_distance(g.ackn, e);
    }
}

} // verus!
