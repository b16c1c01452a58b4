//! What is tallied while the packets of a capture are walked.
//!
//! `Stats` is the running state, `Tally` its mathematical model. Every function
//! that feeds a packet into `Stats` says which `Tally` comes out of which. All
//! collections have a cap, so that memory stays bounded whatever the capture.

use std::collections::{HashMap, HashSet};

use vstd::prelude::*;

use crate::bytes::{be128, be16, be32, fnv1a_masked};
#[allow(unused_imports)]
use crate::bytes::{be128_at, be16_at, be32_at, fnv, unrouted, FNV_OFFSET};
use crate::binary64::Binary64;
#[allow(unused_imports)]
use crate::binary64::{difference, less, zero};
#[allow(unused_imports)]
use crate::frame::{tag_stack, LINK_ETHERNET};
use crate::moments::Moment;
#[allow(unused_imports)]
use crate::moments::{is_seconds, is_span};

verus! {

broadcast use vstd::std_specs::hash::group_hash_axioms;

pub const MAX_MACS: usize = 300_000;

pub const MAX_IPS: usize = 400_000;

pub const MAX_VLAN_IDS: usize = 4096;

pub const MAX_CHAINS: usize = 400;

pub const MAX_FLOWS: usize = 200_000;

pub const MAX_SEEN: usize = 2_000_000;

/// What is known of one TCP session: which parts of the handshake were seen, and
/// the next sequence number expected of each endpoint of the sorted pair.
#[derive(Clone, Copy, Debug, PartialEq, Eq, Structural)]
pub struct FlowState {
    pub saw_syn: bool,
    pub saw_synack: bool,
    pub saw_data_no_syn: bool,
    pub next_of_lo: Option<u32>,
    pub next_of_hi: Option<u32>,
}

/// The tally of the packets walked so far.
pub struct Stats {
    /// Frames with an Ethernet header.
    pub decoded: u64,
    pub unicast: u64,
    pub multicast: u64,
    pub broadcast: u64,
    pub ipv4: u64,
    pub ipv6: u64,
    pub arp: u64,
    pub vlan: u64,
    pub l2other: u64,
    pub gre: u64,
    pub erspan: u64,
    pub vxlan: u64,
    pub geneve: u64,
    /// Source addresses, each as the big-endian number of its six bytes.
    pub macs: HashSet<u64>,
    pub ips: HashSet<u128>,
    /// Timestamps in seconds: the least, the greatest and the last one.
    pub ts_first: Option<Binary64>,
    pub ts_last: Option<Binary64>,
    pub ts_prev: Option<Binary64>,
    /// The largest forward jump between consecutive timestamps, in seconds.
    pub ts_maxgap: Binary64,
    /// The same of the timestamps in whole nanoseconds.
    pub ns_first: Option<u128>,
    pub ns_last: Option<u128>,
    pub ns_prev: Option<u128>,
    pub ns_maxgap: u128,
    /// Masked packet hash: timestamp of the last copy, and whether it was tagged.
    pub seen: HashMap<u64, (u128, bool)>,
    pub dup_frames: u64,
    /// Duplicate copies that differ in VLAN tagging.
    pub dup_tag_diff: u64,
    /// Frames with two or more stacked tags.
    pub qinq: u64,
    pub vlan_ids: HashSet<u16>,
    pub max_depth: u32,
    pub multi_encap: u64,
    /// How often each encapsulation chain occurred, in the order of their first frames.
    pub chains: Vec<(String, u64)>,
    pub flows: HashMap<u64, FlowState>,
    pub seq_gaps: u64,
    /// Frames below 60 bytes on the wire.
    pub runts: u64,
    /// Frames above 1518 bytes on the wire.
    pub oversize: u64,
    pub tcp_flows: u64,
    pub hs_complete: u64,
    pub hs_syn_only: u64,
    pub hs_midstream: u64,
    pub acked_unseen: u64,
    pub inner_trunc: u64,
    pub vxlan_legacy: u64,
    pub vxlan_bad: u64,
}

/// The model of `Stats`.
#[verifier::ext_equal]
pub struct Tally {
    pub decoded: nat,
    pub unicast: nat,
    pub multicast: nat,
    pub broadcast: nat,
    pub ipv4: nat,
    pub ipv6: nat,
    pub arp: nat,
    pub vlan: nat,
    pub l2other: nat,
    pub gre: nat,
    pub erspan: nat,
    pub vxlan: nat,
    pub geneve: nat,
    pub macs: Set<u64>,
    pub ips: Set<u128>,
    pub ts_first: Option<Binary64>,
    pub ts_last: Option<Binary64>,
    pub ts_prev: Option<Binary64>,
    pub ts_maxgap: Binary64,
    pub ns_first: Option<u128>,
    pub ns_last: Option<u128>,
    pub ns_prev: Option<u128>,
    pub ns_maxgap: u128,
    pub seen: Map<u64, (u128, bool)>,
    pub dup_frames: nat,
    pub dup_tag_diff: nat,
    pub qinq: nat,
    pub vlan_ids: Set<u16>,
    pub max_depth: nat,
    pub multi_encap: nat,
    pub chains: Seq<(Seq<char>, nat)>,
    pub flows: Map<u64, FlowState>,
    pub seq_gaps: nat,
    pub runts: nat,
    pub oversize: nat,
    pub tcp_flows: nat,
    pub hs_complete: nat,
    pub hs_syn_only: nat,
    pub hs_midstream: nat,
    pub acked_unseen: nat,
    pub inner_trunc: nat,
    pub vxlan_legacy: nat,
    pub vxlan_bad: nat,
}

/// The chains of a list of names and counts.
pub open spec fn chains_view(v: Seq<(String, u64)>) -> Seq<(Seq<char>, nat)> {
    Seq::new(v.len(), |i: int| (v[i].0@, v[i].1 as nat))
}

impl View for Stats {
    type V = Tally;

    open spec fn view(&self) -> Tally {
        Tally {
            decoded: self.decoded as nat,
            unicast: self.unicast as nat,
            multicast: self.multicast as nat,
            broadcast: self.broadcast as nat,
            ipv4: self.ipv4 as nat,
            ipv6: self.ipv6 as nat,
            arp: self.arp as nat,
            vlan: self.vlan as nat,
            l2other: self.l2other as nat,
            gre: self.gre as nat,
            erspan: self.erspan as nat,
            vxlan: self.vxlan as nat,
            geneve: self.geneve as nat,
            macs: self.macs@,
            ips: self.ips@,
            ts_first: self.ts_first,
            ts_last: self.ts_last,
            ts_prev: self.ts_prev,
            ts_maxgap: self.ts_maxgap,
            ns_first: self.ns_first,
            ns_last: self.ns_last,
            ns_prev: self.ns_prev,
            ns_maxgap: self.ns_maxgap,
            seen: self.seen@,
            dup_frames: self.dup_frames as nat,
            dup_tag_diff: self.dup_tag_diff as nat,
            qinq: self.qinq as nat,
            vlan_ids: self.vlan_ids@,
            max_depth: self.max_depth as nat,
            multi_encap: self.multi_encap as nat,
            chains: chains_view(self.chains@),
            flows: self.flows@,
            seq_gaps: self.seq_gaps as nat,
            runts: self.runts as nat,
            oversize: self.oversize as nat,
            tcp_flows: self.tcp_flows as nat,
            hs_complete: self.hs_complete as nat,
            hs_syn_only: self.hs_syn_only as nat,
            hs_midstream: self.hs_midstream as nat,
            acked_unseen: self.acked_unseen as nat,
            inner_trunc: self.inner_trunc as nat,
            vxlan_legacy: self.vxlan_legacy as nat,
            vxlan_bad: self.vxlan_bad as nat,
        }
    }
}

/// The tally before the first packet.
pub open spec fn empty_tally() -> Tally {
    Tally {
        decoded: 0,
        unicast: 0,
        multicast: 0,
        broadcast: 0,
        ipv4: 0,
        ipv6: 0,
        arp: 0,
        vlan: 0,
        l2other: 0,
        gre: 0,
        erspan: 0,
        vxlan: 0,
        geneve: 0,
        macs: Set::empty(),
        ips: Set::empty(),
        ts_first: None,
        ts_last: None,
        ts_prev: None,
        ts_maxgap: zero(),
        ns_first: None,
        ns_last: None,
        ns_prev: None,
        ns_maxgap: 0,
        seen: Map::empty(),
        dup_frames: 0,
        dup_tag_diff: 0,
        qinq: 0,
        vlan_ids: Set::empty(),
        max_depth: 0,
        multi_encap: 0,
        chains: Seq::empty(),
        flows: Map::empty(),
        seq_gaps: 0,
        runts: 0,
        oversize: 0,
        tcp_flows: 0,
        hs_complete: 0,
        hs_syn_only: 0,
        hs_midstream: 0,
        acked_unseen: 0,
        inner_trunc: 0,
        vxlan_legacy: 0,
        vxlan_bad: 0,
    }
}

/// No chain is listed twice.
pub open spec fn distinct(chains: Seq<(Seq<char>, nat)>) -> bool {
    forall|i: int, j: int| 0 <= i < j < chains.len() ==> #[trigger] chains[i].0 != #[trigger] chains[j].0
}

impl Tally {
    /// Every counter is at most `n`.
    pub open spec fn at_most(self, n: nat) -> bool {
        &&& self.decoded <= n
        &&& self.unicast <= n
        &&& self.multicast <= n
        &&& self.broadcast <= n
        &&& self.ipv4 <= n
        &&& self.ipv6 <= n
        &&& self.arp <= n
        &&& self.vlan <= n
        &&& self.l2other <= n
        &&& self.gre <= n
        &&& self.erspan <= n
        &&& self.vxlan <= n
        &&& self.geneve <= n
        &&& self.dup_frames <= n
        &&& self.dup_tag_diff <= n
        &&& self.qinq <= n
        &&& self.multi_encap <= n
        &&& self.seq_gaps <= n
        &&& self.runts <= n
        &&& self.oversize <= n
        &&& self.acked_unseen <= n
        &&& self.inner_trunc <= n
        &&& self.vxlan_legacy <= n
        &&& self.vxlan_bad <= n
        &&& forall|i: int| 0 <= i < self.chains.len() ==> (#[trigger] self.chains[i]).1 <= n
    }

    /// The caps and the invariants of the collections.
    pub open spec fn wf(self) -> bool {
        &&& self.macs.finite() && self.macs.len() <= MAX_MACS
        &&& self.ips.finite() && self.ips.len() <= MAX_IPS + 1
        &&& self.vlan_ids.finite()
        &&& forall|id: u16| self.vlan_ids.contains(id) ==> id < 4096
        &&& self.seen.dom().finite() && self.seen.len() <= MAX_SEEN
        &&& self.flows.dom().finite() && self.flows.len() <= MAX_FLOWS
        &&& self.chains.len() <= MAX_CHAINS
        &&& distinct(self.chains)
        &&& self.max_depth <= 4
        &&& self.times_wf()
    }

    /// The timestamps in seconds are in their range.
    pub open spec fn times_wf(self) -> bool {
        &&& self.ts_first is Some ==> is_seconds(self.ts_first->0)
        &&& self.ts_last is Some ==> is_seconds(self.ts_last->0)
        &&& self.ts_prev is Some ==> is_seconds(self.ts_prev->0)
        &&& is_span(self.ts_maxgap)
        &&& self.ts_first is Some <==> self.ns_first is Some
        &&& self.ts_last is Some <==> self.ns_last is Some
    }
}

impl Stats {
    /// Nothing tallied yet.
    pub fn new() -> (r: Stats)
        ensures
            r@ == empty_tally(),
            r@.wf(),
    {
        let r = Stats {
            decoded: 0,
            unicast: 0,
            multicast: 0,
            broadcast: 0,
            ipv4: 0,
            ipv6: 0,
            arp: 0,
            vlan: 0,
            l2other: 0,
            gre: 0,
            erspan: 0,
            vxlan: 0,
            geneve: 0,
            macs: HashSet::new(),
            ips: HashSet::new(),
            ts_first: None,
            ts_last: None,
            ts_prev: None,
            ts_maxgap: Binary64 { mant: 0, exp: 0 },
            ns_first: None,
            ns_last: None,
            ns_prev: None,
            ns_maxgap: 0,
            seen: HashMap::new(),
            dup_frames: 0,
            dup_tag_diff: 0,
            qinq: 0,
            vlan_ids: HashSet::new(),
            max_depth: 0,
            multi_encap: 0,
            chains: Vec::new(),
            flows: HashMap::new(),
            seq_gaps: 0,
            runts: 0,
            oversize: 0,
            tcp_flows: 0,
            hs_complete: 0,
            hs_syn_only: 0,
            hs_midstream: 0,
            acked_unseen: 0,
            inner_trunc: 0,
            vxlan_legacy: 0,
            vxlan_bad: 0,
        };
        assert(r@ =~= empty_tally());
        r
    }
}

/// A frame of `origlen` bytes on the wire.
pub open spec fn with_framelen(t: Tally, origlen: u32) -> Tally {
    if origlen < 60 {
        Tally { runts: t.runts + 1, ..t }
    } else if origlen > 1518 {
        Tally { oversize: t.oversize + 1, ..t }
    } else {
        t
    }
}

/// Tallies a frame below the Ethernet minimum or above the standard maximum.
pub fn note_framelen(s: &mut Stats, origlen: u32)
    requires
        old(s).runts < u64::MAX,
        old(s).oversize < u64::MAX,
    ensures
        final(s)@ == with_framelen(old(s)@, origlen),
{
    if origlen < 60 {
        s.runts = s.runts + 1;
    } else if origlen > 1518 {
        s.oversize = s.oversize + 1;
    }
}

/// The lesser of a timestamp and those before it.
pub open spec fn earliest(first: Option<Binary64>, ts: Binary64) -> Binary64 {
    match first {
        Some(v) => if less(ts, v) {
            ts
        } else {
            v
        },
        None => ts,
    }
}

/// The greater of a timestamp and those before it.
pub open spec fn latest(last: Option<Binary64>, ts: Binary64) -> Binary64 {
    match last {
        Some(v) => if less(v, ts) {
            ts
        } else {
            v
        },
        None => ts,
    }
}

/// The greater of the largest jump so far and that from the last timestamp on.
pub open spec fn larger_jump(gap: Binary64, prev: Option<Binary64>, ts: Binary64) -> Binary64 {
    match prev {
        Some(p) => if less(gap, difference(ts, p)) {
            difference(ts, p)
        } else {
            gap
        },
        None => gap,
    }
}

/// A timestamp; zero stands for none.
pub open spec fn with_ts(t: Tally, m: Moment) -> Tally {
    if m.ns == 0 {
        t
    } else {
        Tally {
            ts_maxgap: larger_jump(t.ts_maxgap, t.ts_prev, m.seconds),
            ts_prev: Some(m.seconds),
            ts_first: Some(earliest(t.ts_first, m.seconds)),
            ts_last: Some(latest(t.ts_last, m.seconds)),
            ns_maxgap: match t.ns_prev {
                Some(prev) => if m.ns - prev > t.ns_maxgap {
                    (m.ns - prev) as u128
                } else {
                    t.ns_maxgap
                },
                None => t.ns_maxgap,
            },
            ns_prev: Some(m.ns),
            ns_first: match t.ns_first {
                Some(v) => if v < m.ns {
                    Some(v)
                } else {
                    Some(m.ns)
                },
                None => Some(m.ns),
            },
            ns_last: match t.ns_last {
                Some(v) => if v > m.ns {
                    Some(v)
                } else {
                    Some(m.ns)
                },
                None => Some(m.ns),
            },
            ..t
        }
    }
}

/// Notes the seconds of a timestamp.
fn note_seconds(s: &mut Stats, ts: Binary64)
    requires
        old(s)@.times_wf(),
        is_seconds(ts),
        ts.mant > 0,
    ensures
        final(s)@ == (Tally {
            ts_maxgap: larger_jump(old(s)@.ts_maxgap, old(s)@.ts_prev, ts),
            ts_prev: Some(ts),
            ts_first: Some(earliest(old(s)@.ts_first, ts)),
            ts_last: Some(latest(old(s)@.ts_last, ts)),
            ..old(s)@
        }),
        is_span(final(s)@.ts_maxgap),
{
    if let Some(prev) = s.ts_prev {
        let gap: Binary64 = ts.minus(prev);
        if s.ts_maxgap.is_less(gap) {
            s.ts_maxgap = gap;
        }
    }
    s.ts_prev = Some(ts);
    let first: Binary64 = match s.ts_first {
        Some(v) => if ts.is_less(v) {
            ts
        } else {
            v
        },
        None => ts,
    };
    s.ts_first = Some(first);
    let last: Binary64 = match s.ts_last {
        Some(v) => if v.is_less(ts) {
            ts
        } else {
            v
        },
        None => ts,
    };
    s.ts_last = Some(last);
    assert(s@ =~= (Tally {
        ts_maxgap: larger_jump(old(s)@.ts_maxgap, old(s)@.ts_prev, ts),
        ts_prev: Some(ts),
        ts_first: Some(earliest(old(s)@.ts_first, ts)),
        ts_last: Some(latest(old(s)@.ts_last, ts)),
        ..old(s)@
    }));
}

/// Notes a timestamp: the span of the capture, and the largest forward jump
/// between consecutive frames.
pub fn note_ts(s: &mut Stats, m: Moment)
    requires
        old(s)@.wf(),
        m.wf(),
    ensures
        final(s)@ == with_ts(old(s)@, m),
        final(s)@.wf(),
{
    let ts: u128 = m.ns;
    if ts == 0 {
        return ;
    }
    note_seconds(s, m.seconds);
    if let Some(prev) = s.ns_prev {
        if ts > prev && ts - prev > s.ns_maxgap {
            s.ns_maxgap = ts - prev;
        }
    }
    s.ns_prev = Some(ts);
    s.ns_first = match s.ns_first {
        Some(v) => if v < ts {
            Some(v)
        } else {
            Some(ts)
        },
        None => Some(ts),
    };
    s.ns_last = match s.ns_last {
        Some(v) => if v > ts {
            Some(v)
        } else {
            Some(ts)
        },
        None => Some(ts),
    };
    assert(s@ =~= with_ts(old(s)@, m));
}

/// The place of a chain in the list.
pub open spec fn listed(chains: Seq<(Seq<char>, nat)>, name: Seq<char>, i: int) -> bool {
    0 <= i < chains.len() && chains[i].0 == name
}

/// One more frame with the chain `name`; a chain that is not listed yet is
/// listed while there is room.
pub open spec fn with_chain(chains: Seq<(Seq<char>, nat)>, name: Seq<char>) -> Seq<(Seq<char>, nat)> {
    if exists|i: int| listed(chains, name, i) {
        let i = choose|i: int| listed(chains, name, i);
        chains.update(i, (name, chains[i].1 + 1))
    } else if chains.len() < MAX_CHAINS {
        chains.push((name, 1))
    } else {
        chains
    }
}

/// Tallies the encapsulation chain of one packet.
pub fn record_chain(s: &mut Stats, name: String)
    requires
        old(s)@.wf(),
        forall|i: int| 0 <= i < old(s)@.chains.len() ==> (#[trigger] old(s)@.chains[i]).1 < u64::MAX,
    ensures
        final(s)@ == (Tally { chains: with_chain(old(s)@.chains, name@), ..old(s)@ }),
        final(s)@.wf(),
{
    let ghost t0 = s@;
    let n: usize = s.chains.len();
    let mut i: usize = 0;
    while i < n
        invariant
            n == s.chains@.len(),
            i <= n,
            *s == *old(s),
            s@ == t0,
            t0.wf(),
            forall|j: int| 0 <= j < t0.chains.len() ==> (#[trigger] t0.chains[j]).1 < u64::MAX,
            forall|j: int| 0 <= j < i ==> (#[trigger] t0.chains[j]).0 != name@,
        decreases n - i,
    {
        assert(t0.chains[i as int] == (s.chains@[i as int].0@, s.chains@[i as int].1 as nat));
        if s.chains[i].0 == name {
            let count: u64 = s.chains[i].1;
            assert(listed(t0.chains, name@, i as int));
            assert(forall|j: int| listed(t0.chains, name@, j) ==> j == i);
            s.chains.set(i, (name, count + 1));
            assert(s@.chains =~= with_chain(t0.chains, name@));
            assert(s@ =~= (Tally { chains: with_chain(t0.chains, name@), ..t0 }));
            assert(distinct(s@.chains));
            return ;
        }
        i = i + 1;
    }
    assert(!exists|j: int| listed(t0.chains, name@, j));
    if n < MAX_CHAINS {
        s.chains.push((name, 1));
        assert(s@.chains =~= t0.chains.push((name@, 1)));
        assert(distinct(s@.chains));
    }
    assert(s@ =~= (Tally { chains: with_chain(t0.chains, name@), ..t0 }));
}

/// The addresses of a packet, added while there is room for more.
pub open spec fn with_ips(t: Tally, src: u128, dst: u128) -> Tally {
    if t.ips.len() < MAX_IPS {
        Tally { ips: t.ips.insert(src).insert(dst), ..t }
    } else {
        t
    }
}

/// The addresses of the IPv4 packet `d`.
pub open spec fn with_ipv4(t: Tally, d: Seq<u8>) -> Tally {
    if d.len() >= 20 {
        with_ips(t, be32_at(d, 12) as u128, be32_at(d, 16) as u128)
    } else {
        t
    }
}

/// The addresses of the IPv6 packet `d`.
pub open spec fn with_ipv6(t: Tally, d: Seq<u8>) -> Tally {
    if d.len() >= 40 {
        with_ips(t, be128_at(d, 8) as u128, be128_at(d, 24) as u128)
    } else {
        t
    }
}

/// Collects source and destination of an IPv4 packet.
pub fn collect_ipv4(d: &[u8], s: &mut Stats)
    requires
        old(s)@.wf(),
    ensures
        final(s)@ == with_ipv4(old(s)@, d@),
        final(s)@.wf(),
{
    if d.len() >= 20 && s.ips.len() < MAX_IPS {
        s.ips.insert(be32(d, 12) as u128);
        s.ips.insert(be32(d, 16) as u128);
    }
}

/// Collects source and destination of an IPv6 packet.
pub fn collect_ipv6(d: &[u8], s: &mut Stats)
    requires
        old(s)@.wf(),
    ensures
        final(s)@ == with_ipv6(old(s)@, d@),
        final(s)@.wf(),
{
    if d.len() >= 40 && s.ips.len() < MAX_IPS {
        s.ips.insert(be128(d, 8));
        s.ips.insert(be128(d, 24));
    }
}

/// Whether a packet at `ts` recurs within the window after `prev`.
pub open spec fn recurs(prev: u128, ts: u128, window: i128) -> bool {
    0 <= ts - prev <= window
}

/// An IP packet at `ts`: a duplicate where its masked hash was seen at most
/// `window` nanoseconds before.
pub open spec fn with_copy(t: Tally, ip: Seq<u8>, is_v6: bool, ts: u128, tagged: bool, window: i128) -> Tally {
    let key = fnv(FNV_OFFSET, unrouted(ip, is_v6));
    let dup = t.seen.contains_key(key) && recurs(t.seen[key].0, ts, window);
    Tally {
        dup_frames: if dup {
            t.dup_frames + 1
        } else {
            t.dup_frames
        },
        dup_tag_diff: if dup && t.seen[key].1 != tagged {
            t.dup_tag_diff + 1
        } else {
            t.dup_tag_diff
        },
        seen: if t.seen.len() < MAX_SEEN || t.seen.contains_key(key) {
            t.seen.insert(key, (ts, tagged))
        } else {
            t.seen
        },
        ..t
    }
}

/// The SPAN double-capture detector: a packet whose bytes, the router-rewritten
/// fields aside, recur within the window is a mirror duplicate, not a
/// retransmission, which would come later. `tagged` is whether this copy carried
/// a VLAN tag: copies that differ there show a tag applied on egress. A packet
/// without a timestamp is left out.
pub fn dedup(ip: &[u8], is_v6: bool, ts: Option<u128>, tagged: bool, dup_window: i128, s: &mut Stats)
    requires
        old(s)@.wf(),
        old(s).dup_frames < u64::MAX,
        old(s).dup_tag_diff < u64::MAX,
    ensures
        final(s)@ == (match ts {
            Some(ts) => with_copy(old(s)@, ip@, is_v6, ts, tagged, dup_window),
            None => old(s)@,
        }),
        final(s)@.wf(),
{
    let ts: u128 = match ts {
        Some(t) => t,
        None => return ,
    };
    let key: u64 = fnv1a_masked(ip, is_v6);
    if let Some(last) = s.seen.get(&key) {
        let prev: u128 = last.0;
        let prev_tagged: bool = last.1;
        if ts >= prev && dup_window >= 0 && ts - prev <= dup_window as u128 {
            s.dup_frames = s.dup_frames + 1;
            if prev_tagged != tagged {
                s.dup_tag_diff = s.dup_tag_diff + 1;
            }
        }
    }
    if s.seen.len() < MAX_SEEN || s.seen.contains_key(&key) {
        s.seen.insert(key, (ts, tagged));
    }
    assert(s@ =~= with_copy(old(s)@, ip@, is_v6, ts, tagged, dup_window));
}

/// The VLAN id of a tag control word, added while there is room for more.
pub open spec fn with_vlan_id(ids: Set<u16>, tci: u16) -> Set<u16> {
    if ids.len() < MAX_VLAN_IDS {
        ids.insert(tci % 4096)
    } else {
        ids
    }
}

/// The VLAN ids of a stack of tags, outermost first.
pub open spec fn with_vlan_ids(ids: Set<u16>, tcis: Seq<u16>) -> Set<u16>
    decreases tcis.len(),
{
    if tcis.len() == 0 {
        ids
    } else {
        with_vlan_ids(with_vlan_id(ids, tcis[0]), tcis.skip(1))
    }
}

/// The tags of a frame: none where its link type carries none.
pub open spec fn tags_of(f: Seq<u8>, link: i32) -> Seq<u16> {
    if link == LINK_ETHERNET && be16_at(f, 12) is Some {
        tag_stack(f, be16_at(f, 12)->0, 14).tcis
    } else {
        Seq::empty()
    }
}

/// The VLAN tags of a frame. A frame that ends within its tags leaves their ids,
/// but is not counted as tagged.
pub open spec fn with_tags(t: Tally, f: Seq<u8>, link: i32) -> Tally {
    let tags = tags_of(f, link);
    let whole = crate::frame::l2_of(f, link) is Some;
    Tally {
        vlan_ids: with_vlan_ids(t.vlan_ids, tags),
        vlan: if whole && tags.len() >= 1 {
            t.vlan + 1
        } else {
            t.vlan
        },
        qinq: if whole && tags.len() >= 2 {
            t.qinq + 1
        } else {
            t.qinq
        },
        ..t
    }
}

/// The link layer of a frame, with its VLAN tags tallied: ethertype, offset of
/// the network layer and number of tags.
pub fn l2v(f: &[u8], link: i32, s: &mut Stats) -> (r: Option<(u16, usize, usize)>)
    requires
        old(s)@.wf(),
        old(s).vlan < u64::MAX,
        old(s).qinq < u64::MAX,
    ensures
        match (r, crate::frame::l2_of(f@, link)) {
            (Some(a), Some(b)) => a.0 == b.0 && a.1 == b.1 && a.1 <= f@.len() && a.2 == tags_of(f@, link).len(),
            (None, None) => true,
            _ => false,
        },
        final(s)@ == with_tags(old(s)@, f@, link),
        final(s)@.wf(),
{
    if link != LINK_ETHERNET {
        assert(with_tags(s@, f@, link) =~= s@);
        return match crate::frame::l2(f, link) {
            Some((et, off)) => Some((et, off, 0)),
            None => None,
        };
    }
    let mut et: u16 = match be16(f, 12) {
        Some(x) => x,
        None => {
            assert(with_tags(s@, f@, link) =~= s@);
            return None;
        },
    };
    let ghost stack = tag_stack(f@, et, 14);
    let mut off: usize = 14;
    let mut tags: usize = 0;
    let n: usize = f.len();
    while et == 0x8100 || et == 0x88a8
        invariant
            n == f@.len(),
            14 <= off <= n,
            4 * tags + 14 == off,
            stack.end == tag_stack(f@, et, off as int).end,
            stack.tcis.len() == tags + tag_stack(f@, et, off as int).tcis.len(),
            stack == tag_stack(f@, be16_at(f@, 12)->0, 14),
            be16_at(f@, 12) is Some,
            link == LINK_ETHERNET,
            with_vlan_ids(old(s)@.vlan_ids, stack.tcis) == with_vlan_ids(
                s@.vlan_ids,
                tag_stack(f@, et, off as int).tcis,
            ),
            s@ == (Tally { vlan_ids: s@.vlan_ids, ..old(s)@ }),
            s@.wf(),
            old(s).vlan < u64::MAX,
            old(s).qinq < u64::MAX,
        decreases n - off,
    {
        let ghost here = tag_stack(f@, et, off as int);
        if let Some(tci) = be16(f, off) {
            assert(here.tcis[0] == tci);
            if s.vlan_ids.len() < MAX_VLAN_IDS {
                s.vlan_ids.insert(tci % 4096);
            }
            assert(s@ =~= (Tally { vlan_ids: s@.vlan_ids, ..old(s)@ }));
        }
        if n - off <= 2 {
            assert(be16_at(f@, off + 2) is None);
            assert(here.tcis.len() > 0 ==> with_vlan_ids(s@.vlan_ids, here.tcis.skip(1)) == s@.vlan_ids);
            assert(s@ =~= with_tags(old(s)@, f@, link));
            return None;
        }
        et = match be16(f, off + 2) {
            Some(x) => x,
            None => {
                assert(here.tcis.len() > 0 ==> with_vlan_ids(s@.vlan_ids, here.tcis.skip(1)) == s@.vlan_ids);
                assert(s@ =~= with_tags(old(s)@, f@, link));
                return None;
            },
        };
        assert(here.tcis.skip(1) =~= tag_stack(f@, et, off + 4).tcis);
        off = off + 4;
        tags = tags + 1;
    }
    if tags >= 1 {
        s.vlan = s.vlan + 1;
    }
    if tags >= 2 {
        s.qinq = s.qinq + 1;
    }
    assert(s@ =~= with_tags(old(s)@, f@, link));
    Some((et, off, tags))
}

/// Counting a chain keeps the list free of repeats and within its cap.
pub proof fn lemma_chain_wf(chains: Seq<(Seq<char>, nat)>, name: Seq<char>)
    requires
        chains.len() <= MAX_CHAINS,
        distinct(chains),
    ensures
        with_chain(chains, name).len() <= MAX_CHAINS,
        distinct(with_chain(chains, name)),
{
    let after = with_chain(chains, name);
    if exists|i: int| listed(chains, name, i) {
        let i = choose|i: int| listed(chains, name, i);
        assert forall|a: int, b: int| 0 <= a < b < after.len() implies #[trigger] after[a].0 != #[trigger] after[b].0 by {
            assert(after[a].0 == chains[a].0 && after[b].0 == chains[b].0);
        }
    } else if chains.len() < MAX_CHAINS {
        assert forall|a: int, b: int| 0 <= a < b < after.len() implies #[trigger] after[a].0 != #[trigger] after[b].0 by {
            assert(after[a] == chains[a]);
            if b == chains.len() {
                assert(!listed(chains, name, a));
            } else {
                assert(after[b] == chains[b]);
            }
        }
    }
}

proof fn lemma_vlan_ids_wf(ids: Set<u16>, tcis: Seq<u16>)
    requires
        ids.finite(),
        forall|id: u16| ids.contains(id) ==> id < 4096,
    ensures
        with_vlan_ids(ids, tcis).finite(),
        forall|id: u16| with_vlan_ids(ids, tcis).contains(id) ==> id < 4096,
    decreases tcis.len(),
{
    if tcis.len() > 0 {
        lemma_vlan_ids_wf(with_vlan_id(ids, tcis[0]), tcis.skip(1));
    }
}

/// Counting the tags of a frame keeps the tally within its caps.
pub proof fn lemma_tags_wf(t: Tally, f: Seq<u8>, link: i32)
    requires
        t.wf(),
    ensures
        with_tags(t, f, link).wf(),
{
    lemma_vlan_ids_wf(t.vlan_ids, tags_of(f, link));
}

/// The ids below `n`.
pub open spec fn ids_below(n: nat) -> Set<u16>
    decreases n,
{
    if n == 0 {
        Set::empty()
    } else {
        ids_below((n - 1) as nat).insert((n - 1) as u16)
    }
}

proof fn lemma_ids_below(n: nat)
    requires
        n <= 4096,
    ensures
        ids_below(n).finite(),
        ids_below(n).len() == n,
        forall|id: u16| ids_below(n).contains(id) <==> id < n,
    decreases n,
{
    if n > 0 {
        lemma_ids_below((n - 1) as nat);
    }
}

/// The set of VLAN ids is never full: the id of every tag is in it, and none
/// that was in it is lost.
pub proof fn law_no_vlan_id_is_lost(t: Tally, tci: u16)
    requires
        t.wf(),
    ensures
        with_vlan_id(t.vlan_ids, tci) == t.vlan_ids.insert(tci % 4096),
        t.vlan_ids.len() <= MAX_VLAN_IDS,
{
    let all = ids_below(4096);
    lemma_ids_below(4096);
    assert(t.vlan_ids.subset_of(all));
    vstd::set_lib::lemma_len_subset(t.vlan_ids, all);
    if t.vlan_ids.len() == 4096 {
        vstd::set_lib::lemma_subset_equality(t.vlan_ids, all);
        assert(t.vlan_ids.insert(tci % 4096) =~= t.vlan_ids);
    }
}

/// The two copies of a mirrored packet are recognised as one frame captured
/// twice: the second, which may differ in the fields that a router rewrites,
/// comes within the window and is counted as a duplicate, and it is noted when
/// only one of the two carried a VLAN tag.
pub proof fn law_mirror_copy_is_a_duplicate(
    t: Tally,
    a: Seq<u8>,
    b: Seq<u8>,
    is_v6: bool,
    first: u128,
    second: u128,
    a_tagged: bool,
    b_tagged: bool,
    window: i128,
)
    requires
        t.seen.len() < 2_000_000,
        a.len() == b.len(),
        is_v6 ==> forall|i: int| 0 <= i < a.len() && i != 7 ==> a[i] == b[i],
        !is_v6 ==> forall|i: int| 0 <= i < a.len() && i != 1 && i != 8 && i != 10 && i != 11 ==> a[i] == b[i],
        0 <= second - first <= window,
    ensures
        ({
            let once = with_copy(t, a, is_v6, first, a_tagged, window);
            let twice = with_copy(once, b, is_v6, second, b_tagged, window);
            &&& twice.dup_frames == once.dup_frames + 1
            &&& twice.dup_tag_diff == once.dup_tag_diff + (if a_tagged != b_tagged {
                1int
            } else {
                0
            })
        }),
{
    crate::bytes::law_masked_hash_survives_routing(a, b, is_v6);
}

/// What recurs later than the window is no duplicate, but a retransmission; nor is
/// what goes back in time.
pub proof fn law_late_copy_is_no_duplicate(
    t: Tally,
    ip: Seq<u8>,
    is_v6: bool,
    first: u128,
    second: u128,
    tagged: bool,
    window: i128,
)
    requires
        t.seen.len() < 2_000_000,
        second - first > window || second < first,
    ensures
        ({
            let once = with_copy(t, ip, is_v6, first, tagged, window);
            let twice = with_copy(once, ip, is_v6, second, tagged, window);
            twice.dup_frames == once.dup_frames && twice.dup_tag_diff == once.dup_tag_diff
        }),
{
}

/// A retransmission is no duplicate of its first copy: the packet with the new
/// identification is counted as it would be had the first one never been seen.
pub proof fn law_retransmission_is_no_duplicate(
    t: Tally,
    a: Seq<u8>,
    b: Seq<u8>,
    first: u128,
    second: u128,
    a_tagged: bool,
    b_tagged: bool,
    window: i128,
)
    requires
        a.len() == b.len(),
        a.len() >= 6,
        forall|i: int|
            0 <= i < a.len() && i != 4 && i != 5 && i != 1 && i != 8 && i != 10 && i != 11 ==> a[i] == b[i],
        a[4] != b[4] || a[5] != b[5],
    ensures
        ({
            let once = with_copy(t, a, false, first, a_tagged, window);
            let twice = with_copy(once, b, false, second, b_tagged, window);
            let alone = with_copy(t, b, false, second, b_tagged, window);
            &&& twice.dup_frames - once.dup_frames == alone.dup_frames - t.dup_frames
            &&& twice.dup_tag_diff - once.dup_tag_diff == alone.dup_tag_diff - t.dup_tag_diff
        }),
{
    crate::bytes::law_new_identification_changes_the_hash(a, b);
}

/// Counting tags reads a frame as `l2` does: the same ethertype at the same
/// offset, four bytes behind for every tag, or neither reads it. Nothing but the
/// tags is tallied: a frame counts as tagged from one tag on and as double-tagged
/// from two on, if its tags are whole.
pub proof fn law_tags_are_read_as_they_are_skipped(t: Tally, f: Seq<u8>, link: i32)
    ensures
        ({
            let u = with_tags(t, f, link);
            let n = tags_of(f, link).len();
            let read = crate::frame::l2_of(f, link);
            &&& read is Some ==> ({
                let (_, off) = read->0;
                if link == LINK_ETHERNET {
                    off == 14 + 4 * n
                } else {
                    n == 0
                }
            })
            &&& u.vlan == t.vlan + (if read is Some && n >= 1 {
                1int
            } else {
                0
            })
            &&& u.qinq == t.qinq + (if read is Some && n >= 2 {
                1int
            } else {
                0
            })
            &&& u == (Tally { vlan: u.vlan, qinq: u.qinq, vlan_ids: u.vlan_ids, ..t })
        }),
{
    if link == LINK_ETHERNET {
        if let Some(et) = be16_at(f, 12) {
            lemma_tag_offset(f, et, 14);
        }
    }
}

/// A whole stack of tags ends four bytes further for each of them.
proof fn lemma_tag_offset(f: Seq<u8>, et: u16, off: int)
    requires
        0 <= off,
    ensures
        ({
            let s = tag_stack(f, et, off);
            s.end is Some ==> ({
                let (_, end) = s.end->0;
                end == off + 4 * s.tcis.len()
            })
        }),
    decreases f.len() - off,
{
    if crate::frame::is_vlan_tag(et) {
        if let Some(next) = be16_at(f, off + 2) {
            lemma_tag_offset(f, next, off + 4);
        }
    }
}

/// A packet is no duplicate of another one that differs from it in a byte of the
/// header or of the payload, the byte behind and the router-rewritten fields
/// aside: it is counted as it would be had the other one never been seen.
pub proof fn law_other_packet_is_no_duplicate(
    t: Tally,
    a: Seq<u8>,
    b: Seq<u8>,
    is_v6: bool,
    n: int,
    first: u128,
    second: u128,
    a_tagged: bool,
    b_tagged: bool,
    window: i128,
)
    requires
        a.len() == b.len(),
        0 <= n < a.len(),
        a[n] != b[n],
        is_v6 ==> n != 7,
        !is_v6 ==> n != 1 && n != 8 && n != 10 && n != 11,
        is_v6 ==> forall|i: int| 0 <= i < a.len() && i != n && i != n + 1 && i != 7 ==> a[i] == b[i],
        !is_v6 ==> forall|i: int|
            0 <= i < a.len() && i != n && i != n + 1 && i != 1 && i != 8 && i != 10 && i != 11 ==> a[i] == b[i],
    ensures
        ({
            let once = with_copy(t, a, is_v6, first, a_tagged, window);
            let twice = with_copy(once, b, is_v6, second, b_tagged, window);
            let alone = with_copy(t, b, is_v6, second, b_tagged, window);
            &&& twice.dup_frames - once.dup_frames == alone.dup_frames - t.dup_frames
            &&& twice.dup_tag_diff - once.dup_tag_diff == alone.dup_tag_diff - t.dup_tag_diff
        }),
{
    crate::bytes::law_other_bytes_change_the_hash(a, b, is_v6, n);
}

/// Nothing seen yet is a duplicate, and one packet is at most one duplicate.
pub proof fn law_first_copy_is_no_duplicate(t: Tally, ip: Seq<u8>, is_v6: bool, ts: u128, tagged: bool, window: i128)
    ensures
        t.seen.len() == 0 && t.seen.dom().finite() ==> with_copy(t, ip, is_v6, ts, tagged, window).dup_frames
            == t.dup_frames,
        t.dup_frames <= with_copy(t, ip, is_v6, ts, tagged, window).dup_frames <= t.dup_frames + 1,
        with_copy(t, ip, is_v6, ts, tagged, window).dup_tag_diff - t.dup_tag_diff <= with_copy(
            t,
            ip,
            is_v6,
            ts,
            tagged,
            window,
        ).dup_frames - t.dup_frames,
        window < 0 ==> with_copy(t, ip, is_v6, ts, tagged, window).dup_frames == t.dup_frames,
{
    if t.seen.len() == 0 && t.seen.dom().finite() {
        assert(t.seen.dom() =~= Set::empty());
    }
}

/// A frame is runt below 60 bytes on the wire, oversize above 1518, and neither
/// in between.
pub proof fn law_frame_lengths(t: Tally, origlen: u32)
    ensures
        ({
            let u = with_framelen(t, origlen);
            &&& u.runts == t.runts + (if origlen < 60 {
                1int
            } else {
                0
            })
            &&& u.oversize == t.oversize + (if origlen > 1518 {
                1int
            } else {
                0
            })
            &&& u == (Tally { runts: u.runts, oversize: u.oversize, ..t })
        }),
{
}

/// The span of a capture reaches from the earliest to the latest timestamp, and no
/// forward step between consecutive ones is larger than the largest. A zero
/// timestamp counts for nothing.
pub proof fn law_span_covers_every_timestamp(t: Tally, m: Moment)
    ensures
        ({
            let u = with_ts(t, m);
            &&& m.ns == 0 ==> u == t
            &&& m.ns > 0 ==> u.ns_first is Some && u.ns_last is Some && u.ns_first->0 <= m.ns <= u.ns_last->0
            &&& m.ns > 0 ==> u.ns_prev == Some(m.ns) && u.ts_prev == Some(m.seconds)
            &&& t.ns_first is Some ==> u.ns_first is Some && u.ns_first->0 <= t.ns_first->0
            &&& t.ns_last is Some ==> u.ns_last is Some && u.ns_last->0 >= t.ns_last->0
            &&& u.ns_first == t.ns_first || u.ns_first == Some(m.ns)
            &&& u.ns_last == t.ns_last || u.ns_last == Some(m.ns)
            &&& m.ns > 0 && t.ns_prev is Some ==> u.ns_maxgap >= m.ns - t.ns_prev->0
            &&& u.ns_maxgap >= t.ns_maxgap
            &&& u.ns_maxgap > t.ns_maxgap ==> t.ns_prev is Some && u.ns_maxgap == m.ns - t.ns_prev->0
            &&& m.ns > 0 ==> u.ts_first is Some && u.ts_last is Some && !less(m.seconds, u.ts_first->0) && !less(
                u.ts_last->0,
                m.seconds,
            )
            &&& m.ns > 0 ==> (u.ts_first == t.ts_first || u.ts_first == Some(m.seconds)) && (u.ts_last == t.ts_last
                || u.ts_last == Some(m.seconds))
            &&& t.ts_first is Some ==> u.ts_first is Some && !less(t.ts_first->0, u.ts_first->0)
            &&& t.ts_last is Some ==> u.ts_last is Some && !less(u.ts_last->0, t.ts_last->0)
            &&& !less(u.ts_maxgap, t.ts_maxgap)
            &&& m.ns > 0 && t.ts_prev is Some ==> !less(u.ts_maxgap, difference(m.seconds, t.ts_prev->0))
            &&& u.ts_maxgap == t.ts_maxgap || (t.ts_prev is Some && u.ts_maxgap == difference(
                m.seconds,
                t.ts_prev->0,
            ))
        }),
{
}

/// How often a chain was counted.
pub open spec fn chain_count(chains: Seq<(Seq<char>, nat)>, name: Seq<char>) -> nat
    decreases chains.len(),
{
    if chains.len() == 0 {
        0
    } else {
        chain_count(chains.drop_last(), name) + (if chains.last().0 == name {
            chains.last().1
        } else {
            0
        })
    }
}

proof fn lemma_chain_count_update(chains: Seq<(Seq<char>, nat)>, i: int, x: (Seq<char>, nat), name: Seq<char>)
    requires
        0 <= i < chains.len(),
        x.0 == chains[i].0,
    ensures
        chain_count(chains.update(i, x), name) == chain_count(chains, name) + (if name == x.0 {
            x.1 - chains[i].1
        } else {
            0
        }),
    decreases chains.len(),
{
    let after = chains.update(i, x);
    if i == chains.len() - 1 {
        assert(after.drop_last() =~= chains.drop_last());
    } else {
        assert(after.drop_last() =~= chains.drop_last().update(i, x));
        lemma_chain_count_update(chains.drop_last(), i, x, name);
    }
}

/// Every frame adds one to the count of its chain, and to no other, as long as
/// the chain is known or fewer than 400 are.
pub proof fn law_chain_is_counted_once(t: Tally, chain: Seq<char>, other: Seq<char>)
    requires
        t.chains.len() < 400,
    ensures
        chain_count(with_chain(t.chains, chain), chain) == chain_count(t.chains, chain) + 1,
        other != chain ==> chain_count(with_chain(t.chains, chain), other) == chain_count(t.chains, other),
{
    let c = t.chains;
    if exists|i: int| listed(c, chain, i) {
        let i = choose|i: int| listed(c, chain, i);
        lemma_chain_count_update(c, i, (chain, c[i].1 + 1), chain);
        lemma_chain_count_update(c, i, (chain, c[i].1 + 1), other);
    } else {
        assert(c.push((chain, 1)).drop_last() =~= c);
    }
}

/// Every tag of a stack leaves its id, the low twelve bits, among those seen, and
/// none that was seen is lost.
pub proof fn law_every_tag_is_noted(t: Tally, tcis: Seq<u16>)
    requires
        t.wf(),
    ensures
        forall|i: int| 0 <= i < tcis.len() ==> with_vlan_ids(t.vlan_ids, tcis).contains(#[trigger] tcis[i] % 4096),
        t.vlan_ids.subset_of(with_vlan_ids(t.vlan_ids, tcis)),
    decreases tcis.len(),
{
    if tcis.len() > 0 {
        law_no_vlan_id_is_lost(t, tcis[0]);
        let ids = with_vlan_id(t.vlan_ids, tcis[0]);
        let u = Tally { vlan_ids: ids, ..t };
        assert(u.wf());
        let rest = tcis.skip(1);
        law_every_tag_is_noted(u, rest);
        let all = with_vlan_ids(t.vlan_ids, tcis);
        assert forall|i: int| 0 <= i < tcis.len() implies all.contains(#[trigger] tcis[i] % 4096) by {
            if i > 0 {
                assert(rest[i - 1] == tcis[i]);
            } else {
                assert(ids.contains(tcis[0] % 4096));
            }
        }
    }
}

/// A packet is held against its last copy: a third one that comes within the window of
/// the second is a duplicate, however far from the first.
pub proof fn law_copy_is_held_against_the_last(
    t: Tally,
    ip: Seq<u8>,
    is_v6: bool,
    first: u128,
    second: u128,
    third: u128,
    tagged: bool,
    window: i128,
)
    requires
        t.seen.len() < 2_000_000,
        second <= third,
        third - second <= window,
    ensures
        ({
            let once = with_copy(t, ip, is_v6, first, tagged, window);
            let twice = with_copy(once, ip, is_v6, second, tagged, window);
            let thrice = with_copy(twice, ip, is_v6, third, tagged, window);
            thrice.dup_frames == twice.dup_frames + 1 && thrice.dup_tag_diff == twice.dup_tag_diff
        }),
{
}

} // verus!
