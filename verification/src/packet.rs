//! One packet: its tunnels are peeled, then the inner frame is classified.

use vstd::prelude::*;

use crate::bytes::rest;
#[allow(unused_imports)]
use crate::bytes::tail;
use crate::frame::{
    layer, proto_name, ETHERTYPE_ARP, ETHERTYPE_IPV4, ETHERTYPE_IPV6, LINK_ETHERNET, LINK_LINUX_SLL, LINK_RAW_IP,
};
#[allow(unused_imports)]
use crate::frame::{l2_of, layer_of, proto_text, LayerModel};
use crate::session::tcp_session;
#[allow(unused_imports)]
use crate::session::{segment_of, with_segment, with_tcp};
use crate::stats::{collect_ipv4, collect_ipv6, dedup, l2v, record_chain, Stats, MAX_MACS};
#[allow(unused_imports)]
use crate::stats::{tags_of, with_chain, with_copy, with_ipv4, with_ipv6, with_tags, Tally};

verus! {

broadcast use vstd::std_specs::hash::group_hash_axioms;

/// One more if `b`.
pub open spec fn plus_if(n: nat, b: bool) -> nat {
    if b {
        n + 1
    } else {
        n
    }
}

/// A tunnel layer.
pub open spec fn with_layer(t: Tally, l: LayerModel) -> Tally {
    Tally {
        gre: plus_if(t.gre, l.gre),
        erspan: plus_if(t.erspan, l.erspan),
        vxlan: plus_if(t.vxlan, l.vxlan),
        vxlan_legacy: plus_if(t.vxlan_legacy, l.vxlan_legacy),
        vxlan_bad: plus_if(t.vxlan_bad, l.vxlan_bad),
        geneve: plus_if(t.geneve, l.geneve),
        ..t
    }
}

/// Peels one tunnel layer off a frame and counts it: the inner frame, its link
/// type and the name of the layer; the frame itself where nothing can be peeled.
pub fn decap_once<'a>(f: &'a [u8], link: i32, s: &mut Stats) -> (r: (&'a [u8], i32, Option<&'static str>))
    requires
        f@.len() + 100 <= usize::MAX,
        old(s)@.at_most((u64::MAX - 1) as nat),
    ensures
        match layer_of(f@, link).inner {
            Some((inner, inner_link, name)) => r.0@ == inner && r.1 == inner_link && r.2 is Some && r.2->0@ == name,
            None => r.0@ == f@ && r.1 == link && r.2 is None,
        },
        r.0@.len() <= f@.len(),
        final(s)@ == with_layer(old(s)@, layer_of(f@, link)),
        old(s)@.wf() ==> final(s)@.wf(),
{
    let l = layer(f, link);
    if l.gre {
        s.gre = s.gre + 1;
    }
    if l.erspan {
        s.erspan = s.erspan + 1;
    }
    if l.vxlan {
        s.vxlan = s.vxlan + 1;
    }
    if l.vxlan_legacy {
        s.vxlan_legacy = s.vxlan_legacy + 1;
    }
    if l.vxlan_bad {
        s.vxlan_bad = s.vxlan_bad + 1;
    }
    if l.geneve {
        s.geneve = s.geneve + 1;
    }
    assert(l@ == layer_of(f@, link));
    match l.inner {
        Some((inner, inner_link, name)) => (inner, inner_link, Some(name)),
        None => (f, link, None),
    }
}

/// A frame with its outer layers peeled off, and what was tallied on the way.
#[verifier::ext_equal]
pub struct Peeled {
    pub tally: Tally,
    pub frame: Seq<u8>,
    pub link: i32,
    /// The names of the layers, joined by `>`.
    pub chain: Seq<char>,
    pub depth: nat,
}

/// The name of a link type at the head of a chain.
pub open spec fn link_text(link: i32) -> Seq<char> {
    if link == LINK_ETHERNET {
        "Eth"@
    } else if link == LINK_RAW_IP {
        "IP"@
    } else if link == LINK_LINUX_SLL {
        "SLL"@
    } else {
        "L2"@
    }
}

/// A chain with one more link.
pub open spec fn link_on(chain: Seq<char>, name: Seq<char>) -> Seq<char> {
    chain + ">"@ + name
}

/// Peels up to `layers` tunnel layers.
pub open spec fn peeled(p: Peeled, layers: nat) -> Peeled
    decreases layers,
{
    if layers == 0 {
        p
    } else {
        let l = layer_of(p.frame, p.link);
        let tally = with_layer(p.tally, l);
        match l.inner {
            Some((frame, link, name)) => {
                let chain = link_on(p.chain, name);
                peeled(
                    Peeled {
                        tally,
                        frame,
                        link,
                        chain: if link == LINK_ETHERNET {
                            link_on(chain, "Eth"@)
                        } else {
                            chain
                        },
                        depth: p.depth + 1,
                    },
                    (layers - 1) as nat,
                )
            },
            None => Peeled { tally, ..p },
        }
    }
}

/// At most this many nested tunnels are peeled.
pub const MAX_LAYERS: u32 = 4;

/// A packet with its tunnels peeled and their depth noted.
pub open spec fn unwrapped(t: Tally, f: Seq<u8>, link: i32) -> Peeled {
    let p = peeled(
        Peeled { tally: t, frame: f, link, chain: link_text(link), depth: 0 },
        MAX_LAYERS as nat,
    );
    Peeled {
        tally: Tally {
            max_depth: if p.depth > p.tally.max_depth {
                p.depth
            } else {
                p.tally.max_depth
            },
            multi_encap: plus_if(p.tally.multi_encap, p.depth >= 2),
            ..p.tally
        },
        ..p
    }
}

/// The six bytes at `i` as a big-endian number.
pub open spec fn mac_at(f: Seq<u8>, i: int) -> int {
    f[i] * 0x100_0000_0000 + f[i + 1] * 0x1_0000_0000 + f[i + 2] * 0x100_0000 + f[i + 3] * 0x1_0000 + f[i + 4] * 0x100
        + f[i + 5]
}

/// Whether a frame is addressed to everyone.
pub open spec fn is_broadcast(f: Seq<u8>) -> bool {
    f[0] == 0xff && f[1] == 0xff && f[2] == 0xff && f[3] == 0xff && f[4] == 0xff && f[5] == 0xff
}

/// An Ethernet header: its cast, and its source while there is room for more.
pub open spec fn with_ethernet(t: Tally, f: Seq<u8>) -> Tally {
    let group = f[0] % 2 == 1;
    Tally {
        broadcast: plus_if(t.broadcast, is_broadcast(f)),
        multicast: plus_if(t.multicast, !is_broadcast(f) && group),
        unicast: plus_if(t.unicast, !is_broadcast(f) && !group),
        macs: if t.macs.len() < MAX_MACS {
            t.macs.insert(mac_at(f, 6) as u64)
        } else {
            t.macs
        },
        decoded: t.decoded + 1,
        ..t
    }
}

/// A chain counted.
pub open spec fn with_chain_of(t: Tally, chain: Seq<char>) -> Tally {
    Tally { chains: with_chain(t.chains, chain), ..t }
}

/// A frame whose network layer is not known.
pub open spec fn with_other(t: Tally, chain: Seq<char>) -> Tally {
    with_chain_of(Tally { l2other: t.l2other + 1, ..t }, chain)
}

/// An IP packet: its session, its addresses, its earlier copies.
pub open spec fn with_ip(
    t: Tally,
    ip: Seq<u8>,
    is_v6: bool,
    ts: Option<u128>,
    tagged: bool,
    window: i128,
) -> Tally {
    let at: int = if is_v6 {
        6
    } else {
        9
    };
    let t = if ip.len() > at && ip[at] == 6 {
        with_tcp(t, ip, is_v6)
    } else {
        t
    };
    let t = if is_v6 {
        with_ipv6(t, ip)
    } else {
        with_ipv4(t, ip)
    };
    match ts {
        Some(ts) => with_copy(t, ip, is_v6, ts, tagged, window),
        None => t,
    }
}

/// The chain of an IP packet, with its protocol where the header holds it.
pub open spec fn ip_chain(chain: Seq<char>, ip: Seq<u8>, is_v6: bool) -> Seq<char> {
    let at: int = if is_v6 {
        6
    } else {
        9
    };
    let chain = link_on(
        chain,
        if is_v6 {
            "IPv6"@
        } else {
            "IPv4"@
        },
    );
    if ip.len() > at {
        link_on(chain, proto_text(ip[at]))
    } else {
        chain
    }
}

/// The chain with the VLAN tags of the frame.
pub open spec fn tag_chain(chain: Seq<char>, tags: nat) -> Seq<char> {
    if tags >= 2 {
        link_on(chain, "QinQ"@)
    } else if tags == 1 {
        link_on(chain, "VLAN"@)
    } else {
        chain
    }
}

/// The network layer of a frame: ethertype `et`, bytes `ip`.
pub open spec fn with_network(
    t: Tally,
    chain: Seq<char>,
    et: u16,
    ip: Seq<u8>,
    ts: Option<u128>,
    tagged: bool,
    window: i128,
) -> Tally {
    if et == ETHERTYPE_ARP {
        with_chain_of(Tally { arp: t.arp + 1, ..t }, link_on(chain, "ARP"@))
    } else if et == ETHERTYPE_IPV4 {
        with_chain_of(
            with_ip(Tally { ipv4: t.ipv4 + 1, ..t }, ip, false, ts, tagged, window),
            ip_chain(chain, ip, false),
        )
    } else if et == ETHERTYPE_IPV6 {
        with_chain_of(
            with_ip(Tally { ipv6: t.ipv6 + 1, ..t }, ip, true, ts, tagged, window),
            ip_chain(chain, ip, true),
        )
    } else {
        with_other(t, link_on(chain, "other"@))
    }
}

/// The inner frame of a packet.
pub open spec fn with_inner(p: Peeled, ts: Option<u128>, window: i128) -> Tally {
    if p.link == LINK_ETHERNET && p.frame.len() < 14 {
        with_other(p.tally, p.chain)
    } else {
        let t = if p.link == LINK_ETHERNET {
            with_ethernet(p.tally, p.frame)
        } else {
            p.tally
        };
        let t = with_tags(t, p.frame, p.link);
        let tags = tags_of(p.frame, p.link).len();
        match l2_of(p.frame, p.link) {
            Some((et, off)) => with_network(
                t,
                tag_chain(p.chain, tags),
                et,
                tail(p.frame, off),
                ts,
                tags > 0,
                window,
            ),
            None => with_other(t, p.chain),
        }
    }
}

/// One packet: its tunnels peeled, its inner frame tallied.
#[verifier::opaque]
pub open spec fn with_packet(t: Tally, f: Seq<u8>, link: i32, ts: Option<u128>, window: i128) -> Tally {
    with_inner(unwrapped(t, f, link), ts, window)
}

proof fn lemma_layer_at_most(t: Tally, l: LayerModel, n: nat)
    requires
        t.at_most(n),
    ensures
        with_layer(t, l).at_most(n + 1),
{
}

proof fn lemma_at_most_monotonic(t: Tally, n: nat, m: nat)
    requires
        t.at_most(n),
        n <= m,
    ensures
        t.at_most(m),
{
}

fn push_link(chain: &mut String, name: &str)
    ensures
        final(chain)@ == link_on(old(chain)@, name@),
{
    chain.append(">");
    chain.append(name);
}

/// Peels the tunnels of a packet: the inner frame, its link type and the chain.
fn unwrap_tunnels<'a>(f: &'a [u8], link: i32, s: &mut Stats) -> (r: (&'a [u8], i32, String))
    requires
        f@.len() + 100 <= usize::MAX,
        old(s)@.wf(),
        old(s)@.at_most((u64::MAX - 8) as nat),
    ensures
        final(s)@ == unwrapped(old(s)@, f@, link).tally,
        r.0@ == unwrapped(old(s)@, f@, link).frame,
        r.1 == unwrapped(old(s)@, f@, link).link,
        r.2@ == unwrapped(old(s)@, f@, link).chain,
        r.0@.len() <= f@.len(),
        final(s)@.wf(),
        final(s)@.at_most((u64::MAX - 3) as nat),
{
    let mut chain = String::from_str(
        if link == LINK_ETHERNET {
            "Eth"
        } else if link == LINK_RAW_IP {
            "IP"
        } else if link == LINK_LINUX_SLL {
            "SLL"
        } else {
            "L2"
        },
    );
    let ghost start = Peeled { tally: s@, frame: f@, link, chain: link_text(link), depth: 0 };
    let ghost goal = peeled(start, MAX_LAYERS as nat);
    let mut inner = f;
    let mut ilink: i32 = link;
    let mut depth: u32 = 0;
    let mut more = true;
    while depth < MAX_LAYERS && more
        invariant
            depth <= MAX_LAYERS,
            f@.len() + 100 <= usize::MAX,
            inner@.len() <= f@.len(),
            s@.wf(),
            s@.at_most((u64::MAX - 8 + depth + (if more {
                0int
            } else {
                1
            })) as nat),
            more ==> goal == peeled(
                Peeled { tally: s@, frame: inner@, link: ilink, chain: chain@, depth: depth as nat },
                (MAX_LAYERS - depth) as nat,
            ),
            !more ==> goal == (Peeled { tally: s@, frame: inner@, link: ilink, chain: chain@, depth: depth as nat }),
            !more ==> depth < MAX_LAYERS,
        decreases
            MAX_LAYERS - depth,
            (if more {
                1int
            } else {
                0
            }),
    {
        proof {
            lemma_layer_at_most(s@, layer_of(inner@, ilink), (u64::MAX - 8 + depth) as nat);
            lemma_at_most_monotonic(s@, (u64::MAX - 8 + depth) as nat, (u64::MAX - 1) as nat);
        }
        let (nf, nl, tok) = decap_once(inner, ilink, s);
        match tok {
            Some(name) => {
                push_link(&mut chain, name);
                if nl == LINK_ETHERNET {
                    push_link(&mut chain, "Eth");
                }
                inner = nf;
                ilink = nl;
                depth = depth + 1;
            },
            None => {
                more = false;
            },
        }
    }
    if depth > s.max_depth {
        s.max_depth = depth;
    }
    proof {
        lemma_at_most_monotonic(s@, (u64::MAX - 8 + depth + (if more {
                0int
            } else {
                1
            })) as nat, (u64::MAX - 4) as nat);
    }
    if depth >= 2 {
        s.multi_encap = s.multi_encap + 1;
    }
    assert(s@ =~= unwrapped(old(s)@, f@, link).tally);
    (inner, ilink, chain)
}

/// Classifies an Ethernet header.
fn note_ethernet(f: &[u8], s: &mut Stats)
    requires
        f@.len() >= 14,
        old(s)@.wf(),
        old(s)@.at_most((u64::MAX - 3) as nat),
    ensures
        final(s)@ == with_ethernet(old(s)@, f@),
        final(s)@.wf(),
        final(s)@.at_most((u64::MAX - 2) as nat),
{
    if f[0] == 0xff && f[1] == 0xff && f[2] == 0xff && f[3] == 0xff && f[4] == 0xff && f[5] == 0xff {
        s.broadcast = s.broadcast + 1;
    } else if f[0] % 2 == 1 {
        s.multicast = s.multicast + 1;
    } else {
        s.unicast = s.unicast + 1;
    }
    if s.macs.len() < MAX_MACS {
        let mac: u64 = f[6] as u64 * 0x100_0000_0000 + f[7] as u64 * 0x1_0000_0000 + f[8] as u64 * 0x100_0000 + f[9] as u64
            * 0x1_0000 + f[10] as u64 * 0x100 + f[11] as u64;
        s.macs.insert(mac);
    }
    s.decoded = s.decoded + 1;
    assert(s@ =~= with_ethernet(old(s)@, f@));
}

/// Tallies an IP packet behind its chain.
fn note_ip(
    ip: &[u8],
    is_v6: bool,
    ts: Option<u128>,
    tagged: bool,
    dup_window: i128,
    chain: &mut String,
    s: &mut Stats,
)
    requires
        ip@.len() + 100 <= usize::MAX,
        old(s)@.wf(),
        old(s).inner_trunc < u64::MAX,
        old(s).seq_gaps < u64::MAX,
        old(s).acked_unseen < u64::MAX,
        old(s).dup_frames < u64::MAX,
        old(s).dup_tag_diff < u64::MAX,
    ensures
        final(s)@ == with_ip(old(s)@, ip@, is_v6, ts, tagged, dup_window),
        final(chain)@ == ip_chain(old(chain)@, ip@, is_v6),
        final(s)@.wf(),
        final(s)@.chains == old(s)@.chains,
{
    push_link(
        chain,
        if is_v6 {
            "IPv6"
        } else {
            "IPv4"
        },
    );
    let at: usize = if is_v6 {
        6
    } else {
        9
    };
    if ip.len() > at {
        let p: u8 = ip[at];
        push_link(chain, proto_name(p));
        if p == 6 {
            tcp_session(ip, is_v6, s);
        }
    }
    if is_v6 {
        collect_ipv6(ip, s);
    } else {
        collect_ipv4(ip, s);
    }
    dedup(ip, is_v6, ts, tagged, dup_window, s);
}

/// Tallies the network layer of a frame, and the chain that leads to it.
fn note_network(
    et: u16,
    ip: &[u8],
    ts: Option<u128>,
    tagged: bool,
    dup_window: i128,
    chain: String,
    s: &mut Stats,
)
    requires
        ip@.len() + 100 <= usize::MAX,
        old(s)@.wf(),
        old(s)@.at_most((u64::MAX - 1) as nat),
    ensures
        final(s)@ == with_network(old(s)@, chain@, et, ip@, ts, tagged, dup_window),
        final(s)@.wf(),
{
    let ghost name = chain@;
    let mut chain = chain;
    if et == ETHERTYPE_ARP {
        s.arp = s.arp + 1;
        push_link(&mut chain, "ARP");
    } else if et == ETHERTYPE_IPV4 {
        s.ipv4 = s.ipv4 + 1;
        let ghost t = s@;
        assert(t =~= (Tally { ipv4: old(s)@.ipv4 + 1, ..old(s)@ }));
        note_ip(ip, false, ts, tagged, dup_window, &mut chain, s);
    } else if et == ETHERTYPE_IPV6 {
        s.ipv6 = s.ipv6 + 1;
        let ghost t = s@;
        assert(t =~= (Tally { ipv6: old(s)@.ipv6 + 1, ..old(s)@ }));
        note_ip(ip, true, ts, tagged, dup_window, &mut chain, s);
    } else {
        s.l2other = s.l2other + 1;
        push_link(&mut chain, "other");
    }
    record_chain(s, chain);
    assert(s@ =~= with_network(old(s)@, name, et, ip@, ts, tagged, dup_window));
}

/// Full analysis of one packet: peels its tunnels, then tallies cast, devices,
/// VLAN tags, network layer, session and duplicates of the inner frame. `ts` is
/// the time of capture in nanoseconds, where the packet carries one.
pub fn analyze_packet(f: &[u8], link: i32, ts: Option<u128>, dup_window: i128, s: &mut Stats)
    requires
        f@.len() + 100 <= usize::MAX,
        old(s)@.wf(),
        old(s)@.at_most((u64::MAX - 8) as nat),
    ensures
        final(s)@ == with_packet(old(s)@, f@, link, ts, dup_window),
        final(s)@.wf(),
{
    reveal(with_packet);
    let ghost p = unwrapped(s@, f@, link);
    let (inner, ilink, mut chain) = unwrap_tunnels(f, link, s);
    if ilink == LINK_ETHERNET {
        if inner.len() < 14 {
            s.l2other = s.l2other + 1;
            record_chain(s, chain);
            assert(s@ =~= with_inner(p, ts, dup_window));
            return ;
        }
        note_ethernet(inner, s);
    }
    match l2v(inner, ilink, s) {
        Some((et, off, tags)) => {
            if tags >= 2 {
                push_link(&mut chain, "QinQ");
            } else if tags == 1 {
                push_link(&mut chain, "VLAN");
            }
            note_network(et, rest(inner, off), ts, tags > 0, dup_window, chain, s);
        },
        None => {
            s.l2other = s.l2other + 1;
            record_chain(s, chain);
            assert(s@ =~= with_inner(p, ts, dup_window));
        },
    }
}

/// Peeling raises a counter by at most one per layer.
proof fn lemma_peeled_at_most(p: Peeled, layers: nat, n: nat)
    requires
        p.tally.at_most(n),
    ensures
        peeled(p, layers).tally.at_most(n + layers),
    decreases layers,
{
    if layers > 0 {
        let l = layer_of(p.frame, p.link);
        lemma_layer_at_most(p.tally, l, n);
        match l.inner {
            Some((frame, link, name)) => {
                let chain = link_on(p.chain, name);
                let next = Peeled {
                    tally: with_layer(p.tally, l),
                    frame,
                    link,
                    chain: if link == LINK_ETHERNET {
                        link_on(chain, "Eth"@)
                    } else {
                        chain
                    },
                    depth: p.depth + 1,
                };
                lemma_peeled_at_most(next, (layers - 1) as nat, n + 1);
            },
            None => {
                lemma_at_most_monotonic(with_layer(p.tally, l), n + 1, n + layers);
            },
        }
    }
}

proof fn lemma_chain_at_most(chains: Seq<(Seq<char>, nat)>, name: Seq<char>, n: nat)
    requires
        forall|i: int| 0 <= i < chains.len() ==> (#[trigger] chains[i]).1 <= n,
    ensures
        forall|i: int| 0 <= i < with_chain(chains, name).len() ==> (#[trigger] with_chain(chains, name)[i]).1 <= n + 1,
{
    let after = with_chain(chains, name);
    assert forall|i: int| 0 <= i < after.len() implies (#[trigger] after[i]).1 <= n + 1 by {
        if i < chains.len() {
            assert(chains[i].1 <= n);
        }
    }
}

/// One packet raises no counter by more than eight.
pub proof fn law_packet_raises_little(t: Tally, f: Seq<u8>, link: i32, ts: Option<u128>, window: i128, n: nat)
    requires
        t.at_most(n),
    ensures
        with_packet(t, f, link, ts, window).at_most(n + 8),
{
    reveal(with_packet);
    let start = Peeled { tally: t, frame: f, link, chain: link_text(link), depth: 0 };
    lemma_peeled_at_most(start, MAX_LAYERS as nat, n);
    let p = unwrapped(t, f, link);
    assert(p.tally.at_most(n + 5));
    lemma_inner_at_most(p, ts, window, n + 5);
}

#[verifier::rlimit(40)]
proof fn lemma_network_at_most(
    t: Tally,
    chain: Seq<char>,
    et: u16,
    ip: Seq<u8>,
    ts: Option<u128>,
    tagged: bool,
    window: i128,
    n: nat,
)
    requires
        t.at_most(n),
    ensures
        with_network(t, chain, et, ip, ts, tagged, window).at_most(n + 1),
{
    lemma_chain_at_most(t.chains, link_on(chain, "ARP"@), n);
    lemma_chain_at_most(t.chains, link_on(chain, "other"@), n);
    lemma_chain_at_most(t.chains, ip_chain(chain, ip, false), n);
    lemma_chain_at_most(t.chains, ip_chain(chain, ip, true), n);
}

proof fn lemma_inner_at_most(p: Peeled, ts: Option<u128>, window: i128, n: nat)
    requires
        p.tally.at_most(n),
    ensures
        with_inner(p, ts, window).at_most(n + 3),
{
    if p.link == LINK_ETHERNET && p.frame.len() < 14 {
        lemma_chain_at_most(p.tally.chains, p.chain, n);
    } else {
        let t1 = if p.link == LINK_ETHERNET {
            with_ethernet(p.tally, p.frame)
        } else {
            p.tally
        };
        assert(t1.at_most(n + 1));
        let t2 = with_tags(t1, p.frame, p.link);
        assert(t2.at_most(n + 2));
        let tags = tags_of(p.frame, p.link).len();
        match l2_of(p.frame, p.link) {
            Some((et, off)) => {
                lemma_network_at_most(
                    t2,
                    tag_chain(p.chain, tags),
                    et,
                    tail(p.frame, off),
                    ts,
                    tags > 0,
                    window,
                    n + 2,
                );
            },
            None => {
                lemma_chain_at_most(t2.chains, p.chain, n + 2);
            },
        }
    }
}

/// Every decoded frame is unicast, multicast or broadcast, and only one of them;
/// a packet decodes at most one frame.
pub proof fn law_casts_add_up(t: Tally, f: Seq<u8>, link: i32, ts: Option<u128>, window: i128)
    ensures
        ({
            let u = with_packet(t, f, link, ts, window);
            &&& u.unicast + u.multicast + u.broadcast - u.decoded == t.unicast + t.multicast + t.broadcast - t.decoded
            &&& t.decoded <= u.decoded <= t.decoded + 1
        }),
{
    reveal(with_packet);
    lemma_peel_leaves_the_rest(t, f, link);
    lemma_inner_counts(unwrapped(t, f, link), ts, window);
}

/// Every packet is tallied once as IPv4, IPv6, ARP or other.
pub proof fn law_packet_is_classified_once(t: Tally, f: Seq<u8>, link: i32, ts: Option<u128>, window: i128)
    ensures
        ({
            let u = with_packet(t, f, link, ts, window);
            u.ipv4 + u.ipv6 + u.arp + u.l2other == t.ipv4 + t.ipv6 + t.arp + t.l2other + 1
        }),
{
    reveal(with_packet);
    lemma_peel_leaves_the_rest(t, f, link);
    lemma_inner_counts(unwrapped(t, f, link), ts, window);
}

/// The same range of time.
pub open spec fn same_times(t: Tally, u: Tally) -> bool {
    &&& u.ts_first == t.ts_first && u.ts_last == t.ts_last
    &&& u.ts_prev == t.ts_prev && u.ts_maxgap == t.ts_maxgap
    &&& u.ns_first == t.ns_first && u.ns_last == t.ns_last
    &&& u.ns_prev == t.ns_prev && u.ns_maxgap == t.ns_maxgap
}

/// The same sessions counted.
pub open spec fn same_sessions(t: Tally, u: Tally) -> bool {
    &&& u.tcp_flows == t.tcp_flows && u.hs_complete == t.hs_complete
    &&& u.hs_syn_only == t.hs_syn_only && u.hs_midstream == t.hs_midstream
}

/// The bytes of a packet say nothing of the lengths of frames, of the range of
/// time or of the number of sessions, which are tallied apart from them.
pub proof fn law_packet_leaves_the_rest(t: Tally, f: Seq<u8>, link: i32, ts: Option<u128>, window: i128)
    ensures
        ({
            let u = with_packet(t, f, link, ts, window);
            &&& u.runts == t.runts && u.oversize == t.oversize
            &&& same_times(t, u)
            &&& same_sessions(t, u)
        }),
{
    reveal(with_packet);
    lemma_peel_leaves_the_rest(t, f, link);
    lemma_inner_counts(unwrapped(t, f, link), ts, window);
}

/// Two tallies that agree on what is counted once per packet or frame, on the
/// lengths of frames, on the range of time, on the counted sessions and on the
/// depth of tunnels.
spec fn counts_alike(t: Tally, u: Tally) -> bool {
    &&& u.unicast == t.unicast && u.multicast == t.multicast && u.broadcast == t.broadcast
    &&& u.decoded == t.decoded
    &&& u.ipv4 == t.ipv4 && u.ipv6 == t.ipv6 && u.arp == t.arp && u.l2other == t.l2other
    &&& u.runts == t.runts && u.oversize == t.oversize
    &&& same_times(t, u)
    &&& same_sessions(t, u)
    &&& u.max_depth == t.max_depth
}

proof fn lemma_segment_counts_nothing(t: Tally, ip: Seq<u8>, is_v6: bool)
    ensures
        counts_alike(t, with_tcp(t, ip, is_v6)),
{
    if let Some(g) = segment_of(ip, is_v6) {
        assert(counts_alike(t, with_segment(t, g)));
    }
}

/// Behind the network layer nothing is counted that is counted once per packet.
proof fn lemma_ip_counts_nothing(t: Tally, ip: Seq<u8>, is_v6: bool, ts: Option<u128>, tagged: bool, window: i128)
    ensures
        counts_alike(t, with_ip(t, ip, is_v6, ts, tagged, window)),
{
    lemma_segment_counts_nothing(t, ip, is_v6);
}

/// What the network layer leaves alone, and what it counts.
proof fn lemma_network_counts(
    t: Tally,
    chain: Seq<char>,
    et: u16,
    ip: Seq<u8>,
    ts: Option<u128>,
    tagged: bool,
    window: i128,
)
    ensures
        ({
            let u = with_network(t, chain, et, ip, ts, tagged, window);
            &&& u.ipv4 + u.ipv6 + u.arp + u.l2other == t.ipv4 + t.ipv6 + t.arp + t.l2other + 1
            &&& counts_alike(t, Tally { ipv4: t.ipv4, ipv6: t.ipv6, arp: t.arp, l2other: t.l2other, ..u })
        }),
{
    if et == ETHERTYPE_IPV4 {
        lemma_ip_counts_nothing(Tally { ipv4: t.ipv4 + 1, ..t }, ip, false, ts, tagged, window);
    } else if et == ETHERTYPE_IPV6 {
        lemma_ip_counts_nothing(Tally { ipv6: t.ipv6 + 1, ..t }, ip, true, ts, tagged, window);
    }
}

/// The inner frame is classified once, and its cast once where it has one.
proof fn lemma_inner_counts(p: Peeled, ts: Option<u128>, window: i128)
    ensures
        ({
            let t = p.tally;
            let u = with_inner(p, ts, window);
            &&& u.ipv4 + u.ipv6 + u.arp + u.l2other == t.ipv4 + t.ipv6 + t.arp + t.l2other + 1
            &&& u.unicast + u.multicast + u.broadcast - u.decoded == t.unicast + t.multicast + t.broadcast - t.decoded
            &&& t.decoded <= u.decoded <= t.decoded + 1
            &&& u.runts == t.runts && u.oversize == t.oversize
            &&& same_times(t, u)
            &&& same_sessions(t, u)
            &&& u.max_depth == t.max_depth
        }),
{
    let t1 = if p.link == LINK_ETHERNET {
        with_ethernet(p.tally, p.frame)
    } else {
        p.tally
    };
    let t2 = with_tags(t1, p.frame, p.link);
    let tags = tags_of(p.frame, p.link).len();
    if let Some((et, off)) = l2_of(p.frame, p.link) {
        lemma_network_counts(t2, tag_chain(p.chain, tags), et, tail(p.frame, off), ts, tags > 0, window);
    }
}

proof fn lemma_peel_leaves_the_rest(t: Tally, f: Seq<u8>, link: i32)
    ensures
        ({
            let u = unwrapped(t, f, link).tally;
            u == Tally {
                gre: u.gre,
                erspan: u.erspan,
                vxlan: u.vxlan,
                vxlan_legacy: u.vxlan_legacy,
                vxlan_bad: u.vxlan_bad,
                geneve: u.geneve,
                max_depth: u.max_depth,
                multi_encap: u.multi_encap,
                ..t
            }
        }),
{
    let start = Peeled { tally: t, frame: f, link, chain: link_text(link), depth: 0 };
    lemma_peel_rest(start, MAX_LAYERS as nat);
}

proof fn lemma_peel_rest(p: Peeled, layers: nat)
    ensures
        ({
            let t = peeled(p, layers).tally;
            t == Tally {
                gre: t.gre,
                erspan: t.erspan,
                vxlan: t.vxlan,
                vxlan_legacy: t.vxlan_legacy,
                vxlan_bad: t.vxlan_bad,
                geneve: t.geneve,
                ..p.tally
            }
        }),
        p.depth <= peeled(p, layers).depth <= p.depth + layers,
    decreases layers,
{
    if layers > 0 {
        let l = layer_of(p.frame, p.link);
        match l.inner {
            Some((frame, link, name)) => {
                let chain = link_on(p.chain, name);
                let next = Peeled {
                    tally: with_layer(p.tally, l),
                    frame,
                    link,
                    chain: if link == LINK_ETHERNET {
                        link_on(chain, "Eth"@)
                    } else {
                        chain
                    },
                    depth: p.depth + 1,
                };
                lemma_peel_rest(next, (layers - 1) as nat);
            },
            None => {},
        }
    }
}

/// Memory stays bounded: no packet takes a collection over its cap. The depth of
/// tunnels is bounded too, and never decreases.
pub proof fn law_packet_keeps_the_caps(t: Tally, f: Seq<u8>, link: i32, ts: Option<u128>, window: i128)
    requires
        t.wf(),
    ensures
        ({
            let u = with_packet(t, f, link, ts, window);
            &&& u.wf()
            &&& u.chains.len() <= 400
            &&& u.macs.len() <= 300_000
            &&& u.ips.len() <= 400_001
            &&& u.flows.len() <= 200_000
            &&& u.seen.len() <= 2_000_000
            &&& u.vlan_ids.len() <= 4096
            &&& t.max_depth <= u.max_depth <= 4
        }),
{
    lemma_packet_wf(t, f, link, ts, window);
    crate::stats::law_no_vlan_id_is_lost(with_packet(t, f, link, ts, window), 0);
    reveal(with_packet);
    let start = Peeled { tally: t, frame: f, link, chain: link_text(link), depth: 0 };
    lemma_peel_rest(start, MAX_LAYERS as nat);
    lemma_inner_counts(unwrapped(t, f, link), ts, window);
}

proof fn lemma_packet_wf(t: Tally, f: Seq<u8>, link: i32, ts: Option<u128>, window: i128)
    requires
        t.wf(),
    ensures
        with_packet(t, f, link, ts, window).wf(),
{
    reveal(with_packet);
    lemma_peel_leaves_the_rest(t, f, link);
    let start = Peeled { tally: t, frame: f, link, chain: link_text(link), depth: 0 };
    lemma_peel_rest(start, MAX_LAYERS as nat);
    let p = unwrapped(t, f, link);
    assert(p.tally.wf());
    let t1 = if p.link == LINK_ETHERNET {
        with_ethernet(p.tally, p.frame)
    } else {
        p.tally
    };
    assert(t1.wf());
    crate::stats::lemma_tags_wf(t1, p.frame, p.link);
    let t2 = with_tags(t1, p.frame, p.link);
    let tags = tags_of(p.frame, p.link).len();
    crate::stats::lemma_chain_wf(p.tally.chains, p.chain);
    match l2_of(p.frame, p.link) {
        Some((et, off)) => {
            lemma_network_wf(t2, tag_chain(p.chain, tags), et, tail(p.frame, off), ts, tags > 0, window);
        },
        None => {},
    }
}

#[verifier::rlimit(40)]
proof fn lemma_ip_wf(t: Tally, ip: Seq<u8>, is_v6: bool, ts: Option<u128>, tagged: bool, window: i128)
    requires
        t.wf(),
    ensures
        with_ip(t, ip, is_v6, ts, tagged, window).wf(),
        with_ip(t, ip, is_v6, ts, tagged, window).chains == t.chains,
{
}

proof fn lemma_network_wf(
    t: Tally,
    chain: Seq<char>,
    et: u16,
    ip: Seq<u8>,
    ts: Option<u128>,
    tagged: bool,
    window: i128,
)
    requires
        t.wf(),
    ensures
        with_network(t, chain, et, ip, ts, tagged, window).wf(),
{
    crate::stats::lemma_chain_wf(t.chains, link_on(chain, "ARP"@));
    crate::stats::lemma_chain_wf(t.chains, link_on(chain, "other"@));
    crate::stats::lemma_chain_wf(t.chains, ip_chain(chain, ip, false));
    crate::stats::lemma_chain_wf(t.chains, ip_chain(chain, ip, true));
    lemma_ip_wf(Tally { ipv4: t.ipv4 + 1, ..t }, ip, false, ts, tagged, window);
    lemma_ip_wf(Tally { ipv6: t.ipv6 + 1, ..t }, ip, true, ts, tagged, window);
}

/// A packet without a tunnel: its own frame is tallied.
proof fn lemma_untunnelled(t: Tally, f: Seq<u8>, link: i32, ts: Option<u128>, window: i128)
    requires
        layer_of(f, link).inner is None,
    ensures
        with_packet(t, f, link, ts, window) == with_inner(
            Peeled { tally: with_layer(t, layer_of(f, link)), frame: f, link, chain: link_text(link), depth: 0 },
            ts,
            window,
        ),
{
    reveal(with_packet);
    let p = unwrapped(t, f, link);
    let q = with_layer(t, layer_of(f, link));
    assert(p.tally =~= q);
}

/// Counters that the network layer does not touch.
proof fn lemma_network_leaves(
    t: Tally,
    chain: Seq<char>,
    et: u16,
    ip: Seq<u8>,
    ts: Option<u128>,
    tagged: bool,
    window: i128,
)
    ensures
        ({
            let u = with_network(t, chain, et, ip, ts, tagged, window);
            &&& u.macs == t.macs && u.vlan_ids == t.vlan_ids && u.vlan == t.vlan && u.qinq == t.qinq
            &&& u.gre == t.gre && u.erspan == t.erspan && u.vxlan == t.vxlan && u.geneve == t.geneve
            &&& u.vxlan_legacy == t.vxlan_legacy && u.vxlan_bad == t.vxlan_bad
            &&& u.max_depth == t.max_depth && u.multi_encap == t.multi_encap
            &&& u.unicast == t.unicast && u.multicast == t.multicast && u.broadcast == t.broadcast
            &&& u.decoded == t.decoded
            &&& et != 0x0800 ==> u.ipv4 == t.ipv4
            &&& et == 0x0800 ==> u.ipv4 == t.ipv4 + 1
            &&& et != 0x86dd ==> u.ipv6 == t.ipv6
            &&& et == 0x86dd ==> u.ipv6 == t.ipv6 + 1
            &&& et != 0x0806 ==> u.arp == t.arp
            &&& et == 0x0806 ==> u.arp == t.arp + 1
            &&& et == 0x0800 || et == 0x86dd || et == 0x0806 ==> u.l2other == t.l2other
            &&& et != 0x0800 && et != 0x86dd && et != 0x0806 ==> u.l2other == t.l2other + 1
        }),
{
    if et == 0x0800 {
        lemma_ip_leaves(Tally { ipv4: t.ipv4 + 1, ..t }, ip, false, ts, tagged, window);
    } else if et == 0x86dd {
        lemma_ip_leaves(Tally { ipv6: t.ipv6 + 1, ..t }, ip, true, ts, tagged, window);
    }
}

/// An IP packet touches sessions, addresses and duplicates, and nothing else.
proof fn lemma_ip_leaves(t: Tally, ip: Seq<u8>, is_v6: bool, ts: Option<u128>, tagged: bool, window: i128)
    ensures
        ({
            let u = with_ip(t, ip, is_v6, ts, tagged, window);
            u == Tally {
                inner_trunc: u.inner_trunc,
                flows: u.flows,
                seq_gaps: u.seq_gaps,
                acked_unseen: u.acked_unseen,
                ips: u.ips,
                dup_frames: u.dup_frames,
                dup_tag_diff: u.dup_tag_diff,
                seen: u.seen,
                ..t
            }
        }),
{
    if let Some(g) = segment_of(ip, is_v6) {
        let u = with_segment(t, g);
        assert(u == Tally {
            inner_trunc: u.inner_trunc,
            flows: u.flows,
            seq_gaps: u.seq_gaps,
            acked_unseen: u.acked_unseen,
            ..t
        });
    }
}

/// The cast of a frame with an Ethernet header and no tunnel: one to all ones is
/// broadcast; of the others, one whose first byte is odd is multicast, and one whose
/// first byte is even is unicast. Its sender, the six bytes from the seventh on, is
/// among the devices while there is room.
pub proof fn law_cast_of_a_frame(t: Tally, f: Seq<u8>, ts: Option<u128>, window: i128)
    requires
        f.len() >= 14,
        layer_of(f, 1).inner is None,
    ensures
        ({
            let u = with_packet(t, f, 1, ts, window);
            let all = forall|i: int| 0 <= i < 6 ==> #[trigger] f[i] == 255;
            let sender = 0x100_0000_0000 * f[6] + 0x1_0000_0000 * f[7] + 0x100_0000 * f[8] + 0x1_0000 * f[9] + 0x100
                * f[10] + f[11];
            &&& u.decoded == t.decoded + 1
            &&& all ==> u.broadcast == t.broadcast + 1 && u.multicast == t.multicast && u.unicast == t.unicast
            &&& !all && f[0] % 2 == 1 ==> u.multicast == t.multicast + 1 && u.broadcast == t.broadcast && u.unicast
                == t.unicast
            &&& !all && f[0] % 2 == 0 ==> u.unicast == t.unicast + 1 && u.broadcast == t.broadcast && u.multicast
                == t.multicast
            &&& t.macs.len() < 300_000 ==> u.macs == t.macs.insert(sender as u64)
            &&& t.macs.len() >= 300_000 ==> u.macs == t.macs
        }),
{
    lemma_untunnelled(t, f, 1, ts, window);
    let t1 = with_ethernet(with_layer(t, layer_of(f, 1)), f);
    let t2 = with_tags(t1, f, 1);
    let tags = tags_of(f, 1).len();
    if let Some((et, off)) = l2_of(f, 1) {
        lemma_network_leaves(t2, tag_chain(link_text(1), tags), et, tail(f, off), ts, tags > 0, window);
    }
    assert(is_broadcast(f) <==> forall|i: int| 0 <= i < 6 ==> #[trigger] f[i] == 255);
}

/// What a packet without a tunnel counts as: IPv4, ARP, IPv6 or other, by its
/// ethertype. What is too short for its link header, or of an unknown link type, is
/// other, and has no cast.
pub proof fn law_network_of_a_frame(t: Tally, f: Seq<u8>, link: i32, ts: Option<u128>, window: i128)
    requires
        layer_of(f, link).inner is None,
    ensures
        ({
            let u = with_packet(t, f, link, ts, window);
            let et = match l2_of(f, link) {
                Some((et, _)) => et as int,
                None => -1int,
            };
            &&& u.ipv4 == t.ipv4 + (if et == 0x0800 {
                1int
            } else {
                0
            })
            &&& u.arp == t.arp + (if et == 0x0806 {
                1int
            } else {
                0
            })
            &&& u.ipv6 == t.ipv6 + (if et == 0x86dd {
                1int
            } else {
                0
            })
            &&& u.l2other == t.l2other + (if et == 0x0800 || et == 0x0806 || et == 0x86dd {
                0int
            } else {
                1
            })
            &&& link != 1 || f.len() < 14 ==> u.decoded == t.decoded && u.macs == t.macs && u.unicast == t.unicast
                && u.multicast == t.multicast && u.broadcast == t.broadcast
            &&& u.max_depth == t.max_depth && u.multi_encap == t.multi_encap
        }),
{
    lemma_untunnelled(t, f, link, ts, window);
    let t0 = with_layer(t, layer_of(f, link));
    let t1 = if link == 1 {
        with_ethernet(t0, f)
    } else {
        t0
    };
    let t2 = with_tags(t1, f, link);
    let tags = tags_of(f, link).len();
    if let Some((et, off)) = l2_of(f, link) {
        lemma_network_leaves(t2, tag_chain(link_text(link), tags), et, tail(f, off), ts, tags > 0, window);
    }
}

/// An IPv4 packet of at least twenty bytes adds its addresses, the four bytes from
/// the thirteenth and from the seventeenth on; an IPv6 packet of at least forty
/// bytes the sixteen from the ninth and from the twenty-fifth on. Nothing else adds
/// an address.
#[verifier::rlimit(30)]
pub proof fn law_addresses_of_a_frame(t: Tally, f: Seq<u8>, link: i32, ts: Option<u128>, window: i128)
    requires
        layer_of(f, link).inner is None,
        link == 1 ==> f.len() >= 14,
    ensures
        ({
            let u = with_packet(t, f, link, ts, window);
            match l2_of(f, link) {
                Some((et, off)) => {
                    let d = tail(f, off);
                    &&& et == 0x0800 && d.len() >= 20 && t.ips.len() < 400_000 ==> u.ips == t.ips.insert(
                        crate::bytes::be32_at(d, 12) as u128,
                    ).insert(crate::bytes::be32_at(d, 16) as u128)
                    &&& et == 0x86dd && d.len() >= 40 && t.ips.len() < 400_000 ==> u.ips == t.ips.insert(
                        crate::bytes::be128_at(d, 8) as u128,
                    ).insert(crate::bytes::be128_at(d, 24) as u128)
                    &&& !(et == 0x0800 && d.len() >= 20 || et == 0x86dd && d.len() >= 40) ==> u.ips == t.ips
                },
                None => u.ips == t.ips,
            }
        }),
{
    lemma_untunnelled(t, f, link, ts, window);
    let t0 = with_layer(t, layer_of(f, link));
    let t1 = if link == 1 {
        with_ethernet(t0, f)
    } else {
        t0
    };
    let t2 = with_tags(t1, f, link);
    if let Some((et, off)) = l2_of(f, link) {
        lemma_segment_keeps_addresses(Tally { ipv4: t2.ipv4 + 1, ..t2 }, tail(f, off), false);
        lemma_segment_keeps_addresses(Tally { ipv6: t2.ipv6 + 1, ..t2 }, tail(f, off), true);
    }
}

proof fn lemma_segment_keeps_addresses(t: Tally, ip: Seq<u8>, is_v6: bool)
    ensures
        with_tcp(t, ip, is_v6).ips == t.ips,
        with_tcp(t, ip, is_v6).seen == t.seen,
        with_tcp(t, ip, is_v6).dup_frames == t.dup_frames,
        with_tcp(t, ip, is_v6).dup_tag_diff == t.dup_tag_diff,
{
    if let Some(g) = segment_of(ip, is_v6) {
        assert(with_segment(t, g).ips == t.ips);
    }
}

/// A packet without a tunnel reaches the session tracker if and only if it is TCP
/// over IPv4 or IPv6, and the detector of duplicates if and only if it is IP with a
/// timestamp; both get the bytes behind the link header.
#[verifier::rlimit(30)]
pub proof fn law_session_of_a_frame(t: Tally, f: Seq<u8>, link: i32, ts: Option<u128>, window: i128)
    requires
        layer_of(f, link).inner is None,
        link == 1 ==> f.len() >= 14,
        l2_of(f, link) is Some,
    ensures
        ({
            let u = with_packet(t, f, link, ts, window);
            let (et, off) = l2_of(f, link)->0;
            let d = tail(f, off);
            let v6 = et == 0x86dd;
            let ip = et == 0x0800 || v6;
            let tcp = et == 0x0800 && d.len() > 9 && d[9] == 6 || v6 && d.len() > 6 && d[6] == 6;
            &&& tcp ==> u.flows == with_tcp(t, d, v6).flows && u.seq_gaps == with_tcp(t, d, v6).seq_gaps
                && u.acked_unseen == with_tcp(t, d, v6).acked_unseen && u.inner_trunc == with_tcp(t, d, v6).inner_trunc
            &&& !tcp ==> u.flows == t.flows && u.seq_gaps == t.seq_gaps && u.acked_unseen == t.acked_unseen
                && u.inner_trunc == t.inner_trunc
            &&& ip && ts is Some ==> {
                let copy = with_copy(t, d, v6, ts->0, tags_of(f, link).len() > 0, window);
                u.seen == copy.seen && u.dup_frames == copy.dup_frames && u.dup_tag_diff == copy.dup_tag_diff
            }
            &&& !ip || ts is None ==> u.seen == t.seen && u.dup_frames == t.dup_frames && u.dup_tag_diff
                == t.dup_tag_diff
        }),
{
    lemma_untunnelled(t, f, link, ts, window);
    let t0 = with_layer(t, layer_of(f, link));
    let t1 = if link == 1 {
        with_ethernet(t0, f)
    } else {
        t0
    };
    let t2 = with_tags(t1, f, link);
    let (et, off) = l2_of(f, link)->0;
    let d = tail(f, off);
    let v6 = et == 0x86dd;
    let t3 = if v6 {
        Tally { ipv6: t2.ipv6 + 1, ..t2 }
    } else {
        Tally { ipv4: t2.ipv4 + 1, ..t2 }
    };
    lemma_segment_keeps_addresses(t3, d, v6);
    lemma_segment_reads_sessions(t3, t, d, v6);
}

/// What a segment does to the sessions depends on the sessions alone.
proof fn lemma_segment_reads_sessions(t: Tally, u: Tally, ip: Seq<u8>, is_v6: bool)
    requires
        t.flows == u.flows,
        t.seq_gaps == u.seq_gaps,
        t.acked_unseen == u.acked_unseen,
        t.inner_trunc == u.inner_trunc,
    ensures
        with_tcp(t, ip, is_v6).flows == with_tcp(u, ip, is_v6).flows,
        with_tcp(t, ip, is_v6).seq_gaps == with_tcp(u, ip, is_v6).seq_gaps,
        with_tcp(t, ip, is_v6).acked_unseen == with_tcp(u, ip, is_v6).acked_unseen,
        with_tcp(t, ip, is_v6).inner_trunc == with_tcp(u, ip, is_v6).inner_trunc,
{
}

/// A tally without what is counted of tunnels and of chains.
pub open spec fn apart_from_tunnels(t: Tally) -> Tally {
    Tally {
        gre: 0,
        erspan: 0,
        vxlan: 0,
        vxlan_legacy: 0,
        vxlan_bad: 0,
        geneve: 0,
        max_depth: 0,
        multi_encap: 0,
        chains: Seq::empty(),
        ..t
    }
}

#[verifier::rlimit(30)]
proof fn lemma_ip_apart(t: Tally, ip: Seq<u8>, is_v6: bool, ts: Option<u128>, tagged: bool, window: i128)
    ensures
        apart_from_tunnels(with_ip(t, ip, is_v6, ts, tagged, window)) == with_ip(
            apart_from_tunnels(t),
            ip,
            is_v6,
            ts,
            tagged,
            window,
        ),
{
    if let Some(g) = segment_of(ip, is_v6) {
        assert(apart_from_tunnels(with_segment(t, g)) =~= with_segment(apart_from_tunnels(t), g));
    }
    let a = with_ip(t, ip, is_v6, ts, tagged, window);
    let b = with_ip(apart_from_tunnels(t), ip, is_v6, ts, tagged, window);
    assert(apart_from_tunnels(a) =~= b);
}

#[verifier::rlimit(30)]
proof fn lemma_network_apart(
    t: Tally,
    u: Tally,
    c: Seq<char>,
    d: Seq<char>,
    et: u16,
    ip: Seq<u8>,
    ts: Option<u128>,
    tagged: bool,
    window: i128,
)
    requires
        apart_from_tunnels(t) == apart_from_tunnels(u),
    ensures
        apart_from_tunnels(with_network(t, c, et, ip, ts, tagged, window)) == apart_from_tunnels(
            with_network(u, d, et, ip, ts, tagged, window),
        ),
{
    let a = apart_from_tunnels(t);
    let b = apart_from_tunnels(u);
    assert(a.ipv4 == t.ipv4 && b.ipv4 == u.ipv4 && a.ipv6 == t.ipv6 && b.ipv6 == u.ipv6 && a.arp == t.arp && b.arp
        == u.arp && a.l2other == t.l2other && b.l2other == u.l2other);
    let (t4, u4) = (Tally { ipv4: t.ipv4 + 1, ..t }, Tally { ipv4: u.ipv4 + 1, ..u });
    let (t6, u6) = (Tally { ipv6: t.ipv6 + 1, ..t }, Tally { ipv6: u.ipv6 + 1, ..u });
    assert(apart_from_tunnels(t4) == (Tally { ipv4: a.ipv4 + 1, ..a }));
    assert(apart_from_tunnels(u4) == (Tally { ipv4: b.ipv4 + 1, ..b }));
    assert(apart_from_tunnels(t6) == (Tally { ipv6: a.ipv6 + 1, ..a }));
    assert(apart_from_tunnels(u6) == (Tally { ipv6: b.ipv6 + 1, ..b }));
    if et == 0x0800 {
        lemma_ip_apart(t4, ip, false, ts, tagged, window);
        lemma_ip_apart(u4, ip, false, ts, tagged, window);
    } else if et == 0x86dd {
        lemma_ip_apart(t6, ip, true, ts, tagged, window);
        lemma_ip_apart(u6, ip, true, ts, tagged, window);
    } else if et == 0x0806 {
        assert(apart_from_tunnels(Tally { arp: t.arp + 1, ..t }) == (Tally { arp: a.arp + 1, ..a }));
        assert(apart_from_tunnels(Tally { arp: u.arp + 1, ..u }) == (Tally { arp: b.arp + 1, ..b }));
    } else {
        assert(apart_from_tunnels(Tally { l2other: t.l2other + 1, ..t }) == (Tally { l2other: a.l2other + 1, ..a }));
        assert(apart_from_tunnels(Tally { l2other: u.l2other + 1, ..u }) == (Tally { l2other: b.l2other + 1, ..b }));
    }
}

#[verifier::rlimit(30)]
proof fn lemma_inner_apart(p: Peeled, q: Peeled, ts: Option<u128>, window: i128)
    requires
        p.frame == q.frame,
        p.link == q.link,
        apart_from_tunnels(p.tally) == apart_from_tunnels(q.tally),
    ensures
        apart_from_tunnels(with_inner(p, ts, window)) == apart_from_tunnels(with_inner(q, ts, window)),
{
    let (t, u) = (p.tally, q.tally);
    let a = apart_from_tunnels(t);
    let b = apart_from_tunnels(u);
    assert(a.macs == t.macs && b.macs == u.macs && a.vlan_ids == t.vlan_ids && b.vlan_ids == u.vlan_ids);
    assert(a.unicast == t.unicast && b.unicast == u.unicast && a.multicast == t.multicast && b.multicast == u.multicast
        && a.broadcast == t.broadcast && b.broadcast == u.broadcast && a.decoded == t.decoded && b.decoded == u.decoded
        && a.vlan == t.vlan && b.vlan == u.vlan && a.qinq == t.qinq && b.qinq == u.qinq && a.l2other == t.l2other
        && b.l2other == u.l2other);
    let f = p.frame;
    let (t1, u1) = if p.link == 1 {
        (with_ethernet(t, f), with_ethernet(u, f))
    } else {
        (t, u)
    };
    assert(apart_from_tunnels(with_ethernet(t, f)) == with_ethernet(a, f));
    assert(apart_from_tunnels(with_ethernet(u, f)) == with_ethernet(b, f));
    assert(apart_from_tunnels(t1) == apart_from_tunnels(u1));
    let (t2, u2) = (with_tags(t1, f, p.link), with_tags(u1, f, p.link));
    assert(apart_from_tunnels(t2) == with_tags(apart_from_tunnels(t1), f, p.link));
    assert(apart_from_tunnels(u2) == with_tags(apart_from_tunnels(u1), f, p.link));
    let tags = tags_of(f, p.link).len();
    if let Some((et, off)) = l2_of(f, p.link) {
        lemma_network_apart(
            t2,
            u2,
            tag_chain(p.chain, tags),
            tag_chain(q.chain, tags),
            et,
            tail(f, off),
            ts,
            tags > 0,
            window,
        );
    }
    let (a2, b2) = (apart_from_tunnels(t2), apart_from_tunnels(u2));
    assert(apart_from_tunnels(with_other(t2, p.chain)) == (Tally { l2other: a2.l2other + 1, ..a2 }));
    assert(apart_from_tunnels(with_other(u2, q.chain)) == (Tally { l2other: b2.l2other + 1, ..b2 }));
    assert(apart_from_tunnels(with_other(t, p.chain)) == (Tally { l2other: a.l2other + 1, ..a }));
    assert(apart_from_tunnels(with_other(u, q.chain)) == (Tally { l2other: b.l2other + 1, ..b }));
}

/// A tunnel is transparent: the frame that it carries is tallied as it would be on
/// its own. The tunnel itself is counted, with a depth of one, and not as nested.
#[verifier::rlimit(30)]
pub proof fn law_tunnel_is_transparent(t: Tally, f: Seq<u8>, link: i32, ts: Option<u128>, window: i128)
    requires
        layer_of(f, link).inner is Some,
        ({
            let (g, inner, _) = layer_of(f, link).inner->0;
            layer_of(g, inner).inner is None
        }),
    ensures
        ({
            let l = layer_of(f, link);
            let (g, inner, _) = l.inner->0;
            let m = layer_of(g, inner);
            let u = with_packet(t, f, link, ts, window);
            &&& apart_from_tunnels(u) == apart_from_tunnels(with_packet(t, g, inner, ts, window))
            &&& u.gre == t.gre + (if l.gre {
                1int
            } else {
                0
            }) + (if m.gre {
                1int
            } else {
                0
            })
            &&& u.erspan == t.erspan + (if l.erspan {
                1int
            } else {
                0
            })
            &&& u.vxlan == t.vxlan + (if l.vxlan {
                1int
            } else {
                0
            })
            &&& u.vxlan_legacy == t.vxlan_legacy + (if l.vxlan_legacy {
                1int
            } else {
                0
            })
            &&& u.vxlan_bad == t.vxlan_bad + (if l.vxlan_bad {
                1int
            } else {
                0
            })
            &&& u.geneve == t.geneve + (if m.geneve {
                1int
            } else {
                0
            })
            &&& u.max_depth == (if t.max_depth < 1 {
                1
            } else {
                t.max_depth
            })
            &&& u.multi_encap == t.multi_encap
        }),
{
    let l = layer_of(f, link);
    let (g, inner, name) = l.inner->0;
    let m = layer_of(g, inner);
    lemma_untunnelled(t, g, inner, ts, window);
    reveal(with_packet);
    reveal_with_fuel(peeled, 3);
    let p = unwrapped(t, f, link);
    assert(p.frame == g && p.link == inner && p.depth == 1);
    let q = Peeled { tally: with_layer(t, m), frame: g, link: inner, chain: link_text(inner), depth: 0 };
    assert(apart_from_tunnels(p.tally) =~= apart_from_tunnels(q.tally));
    lemma_inner_apart(p, q, ts, window);
    lemma_inner_keeps_tunnels(p, ts, window);
    assert(p.tally.gre == plus_if(plus_if(t.gre, l.gre), m.gre));
}

/// The inner frame leaves alone what is counted of tunnels.
proof fn lemma_inner_keeps_tunnels(p: Peeled, ts: Option<u128>, window: i128)
    ensures
        ({
            let u = with_inner(p, ts, window);
            let t = p.tally;
            &&& u.gre == t.gre && u.erspan == t.erspan && u.vxlan == t.vxlan && u.geneve == t.geneve
            &&& u.vxlan_legacy == t.vxlan_legacy && u.vxlan_bad == t.vxlan_bad
            &&& u.max_depth == t.max_depth && u.multi_encap == t.multi_encap
        }),
{
    let t1 = if p.link == 1 {
        with_ethernet(p.tally, p.frame)
    } else {
        p.tally
    };
    let t2 = with_tags(t1, p.frame, p.link);
    let tags = tags_of(p.frame, p.link).len();
    if let Some((et, off)) = l2_of(p.frame, p.link) {
        lemma_network_leaves(t2, tag_chain(p.chain, tags), et, tail(p.frame, off), ts, tags > 0, window);
    }
}

/// A tunnel within a tunnel: both are opened, the packet counts once as nested, and
/// the depth is at least two.
#[verifier::rlimit(30)]
pub proof fn law_nested_tunnels(t: Tally, f: Seq<u8>, link: i32, ts: Option<u128>, window: i128)
    requires
        layer_of(f, link).inner is Some,
        ({
            let (g, inner, _) = layer_of(f, link).inner->0;
            layer_of(g, inner).inner is Some
        }),
    ensures
        ({
            let u = with_packet(t, f, link, ts, window);
            &&& u.multi_encap == t.multi_encap + 1
            &&& u.max_depth >= 2
        }),
{
    let (g, inner, name) = layer_of(f, link).inner->0;
    let (h, inner2, name2) = layer_of(g, inner).inner->0;
    reveal(with_packet);
    let start = Peeled { tally: t, frame: f, link, chain: link_text(link), depth: 0 };
    lemma_peel_leaves_nested(start, 4);
    reveal_with_fuel(peeled, 3);
    let p = unwrapped(t, f, link);
    let one = Peeled {
        tally: with_layer(t, layer_of(f, link)),
        frame: g,
        link: inner,
        chain: if inner == 1 {
            link_on(link_on(link_text(link), name), "Eth"@)
        } else {
            link_on(link_text(link), name)
        },
        depth: 1,
    };
    let two = Peeled {
        tally: with_layer(one.tally, layer_of(g, inner)),
        frame: h,
        link: inner2,
        chain: if inner2 == 1 {
            link_on(link_on(one.chain, name2), "Eth"@)
        } else {
            link_on(one.chain, name2)
        },
        depth: 2,
    };
    assert(peeled(start, 4) == peeled(one, 3));
    assert(peeled(one, 3) == peeled(two, 2));
    lemma_peel_rest(two, 2);
    lemma_inner_keeps_tunnels(p, ts, window);
}

proof fn lemma_peel_leaves_nested(p: Peeled, layers: nat)
    ensures
        peeled(p, layers).tally.multi_encap == p.tally.multi_encap,
{
    lemma_peel_rest(p, layers);
}

/// The chain of an untagged Ethernet frame without a tunnel that carries a known
/// protocol over IPv4 or IPv6, or ARP, reads from the outside in.
pub proof fn law_chain_of_a_frame(t: Tally, f: Seq<u8>, ts: Option<u128>, window: i128)
    requires
        f.len() >= 14,
        layer_of(f, 1).inner is None,
        t.chains.len() < 400,
        tags_of(f, 1).len() <= 1,
        l2_of(f, 1) is Some,
    ensures
        ({
            let u = with_packet(t, f, 1, ts, window);
            let (et, off) = l2_of(f, 1)->0;
            let d = tail(f, off);
            let head = if tags_of(f, 1).len() == 1 {
                "Eth>VLAN>"@
            } else {
                "Eth>"@
            };
            let name = if et == 0x0806 {
                head + "ARP"@
            } else if et == 0x0800 {
                if d.len() > 9 {
                    head + "IPv4>"@ + proto_text(d[9])
                } else {
                    head + "IPv4"@
                }
            } else if et == 0x86dd {
                if d.len() > 6 {
                    head + "IPv6>"@ + proto_text(d[6])
                } else {
                    head + "IPv6"@
                }
            } else {
                head + "other"@
            };
            crate::stats::chain_count(u.chains, name) == crate::stats::chain_count(t.chains, name) + 1
        }),
{
    let tags = tags_of(f, 1).len();
    let (et, off) = l2_of(f, 1)->0;
    let d = tail(f, off);
    let c = tag_chain(link_text(1), tags);
    let head = if tags == 1 {
        "Eth>VLAN>"@
    } else {
        "Eth>"@
    };
    lemma_chains_after(t, f, ts, window);
    lemma_head_of_chain(tags);
    lemma_rest_of_chain(c, head, et, d);
    crate::stats::law_chain_is_counted_once(t, network_chain(c, et, d), c);
}

/// The chain of a frame whose links up to the network layer are `c`.
spec fn network_chain(c: Seq<char>, et: u16, d: Seq<u8>) -> Seq<char> {
    if et == ETHERTYPE_ARP {
        link_on(c, "ARP"@)
    } else if et == ETHERTYPE_IPV4 {
        ip_chain(c, d, false)
    } else if et == ETHERTYPE_IPV6 {
        ip_chain(c, d, true)
    } else {
        link_on(c, "other"@)
    }
}

proof fn lemma_chains_after(t: Tally, f: Seq<u8>, ts: Option<u128>, window: i128)
    requires
        f.len() >= 14,
        layer_of(f, 1).inner is None,
        l2_of(f, 1) is Some,
    ensures
        ({
            let (et, off) = l2_of(f, 1)->0;
            let c = tag_chain(link_text(1), tags_of(f, 1).len());
            with_packet(t, f, 1, ts, window).chains == with_chain(t.chains, network_chain(c, et, tail(f, off)))
        }),
{
    lemma_untunnelled(t, f, 1, ts, window);
    let t1 = with_ethernet(with_layer(t, layer_of(f, 1)), f);
    let t2 = with_tags(t1, f, 1);
    let tags = tags_of(f, 1).len();
    let (et, off) = l2_of(f, 1)->0;
    let d = tail(f, off);
    lemma_ip_leaves(Tally { ipv4: t2.ipv4 + 1, ..t2 }, d, false, ts, tags > 0, window);
    lemma_ip_leaves(Tally { ipv6: t2.ipv6 + 1, ..t2 }, d, true, ts, tags > 0, window);
}

proof fn lemma_head_of_chain(tags: nat)
    requires
        tags <= 1,
    ensures
        tag_chain(link_text(1), tags) + ">"@ == (if tags == 1 {
            "Eth>VLAN>"@
        } else {
            "Eth>"@
        }),
{
    reveal_strlit("Eth");
    reveal_strlit("VLAN");
    reveal_strlit(">");
    reveal_strlit("Eth>");
    reveal_strlit("Eth>VLAN>");
    assert("Eth"@ + ">"@ =~= "Eth>"@);
    assert("Eth"@ + ">"@ + "VLAN"@ + ">"@ =~= "Eth>VLAN>"@);
}

proof fn lemma_rest_of_chain(c: Seq<char>, head: Seq<char>, et: u16, d: Seq<u8>)
    requires
        c + ">"@ == head,
    ensures
        et == 0x0806 ==> network_chain(c, et, d) == head + "ARP"@,
        et == 0x0800 && d.len() > 9 ==> network_chain(c, et, d) == head + "IPv4>"@ + proto_text(d[9]),
        et == 0x0800 && d.len() <= 9 ==> network_chain(c, et, d) == head + "IPv4"@,
        et == 0x86dd && d.len() > 6 ==> network_chain(c, et, d) == head + "IPv6>"@ + proto_text(d[6]),
        et == 0x86dd && d.len() <= 6 ==> network_chain(c, et, d) == head + "IPv6"@,
        et != 0x0806 && et != 0x0800 && et != 0x86dd ==> network_chain(c, et, d) == head + "other"@,
{
    reveal_strlit("IPv4");
    reveal_strlit("IPv6");
    reveal_strlit(">");
    reveal_strlit("IPv4>");
    reveal_strlit("IPv6>");
    assert("IPv4"@ + ">"@ =~= "IPv4>"@);
    assert("IPv6"@ + ">"@ =~= "IPv6>"@);
    if et == 0x0800 && d.len() > 9 {
        let p = proto_text(d[9]);
        assert(head + "IPv4"@ + ">"@ + p =~= head + ("IPv4"@ + ">"@) + p);
    }
    if et == 0x86dd && d.len() > 6 {
        let p = proto_text(d[6]);
        assert(head + "IPv6"@ + ">"@ + p =~= head + ("IPv6"@ + ">"@) + p);
    }
}

/// The tags of a frame without a tunnel: one more frame is tagged, or double-tagged
/// where it has two or more, and the ids of its tags, the low twelve bits, are noted.
pub proof fn law_tags_of_a_frame(t: Tally, f: Seq<u8>, ts: Option<u128>, window: i128)
    requires
        f.len() >= 14,
        layer_of(f, 1).inner is None,
        l2_of(f, 1) is Some,
        t.wf(),
    ensures
        ({
            let u = with_packet(t, f, 1, ts, window);
            let tags = tags_of(f, 1);
            &&& u.vlan == t.vlan + (if tags.len() >= 1 {
                1int
            } else {
                0
            })
            &&& u.qinq == t.qinq + (if tags.len() >= 2 {
                1int
            } else {
                0
            })
            &&& forall|i: int| 0 <= i < tags.len() ==> u.vlan_ids.contains(#[trigger] tags[i] % 4096)
            &&& t.vlan_ids.subset_of(u.vlan_ids)
            &&& tags.len() == 0 ==> u.vlan_ids == t.vlan_ids
        }),
{
    lemma_untunnelled(t, f, 1, ts, window);
    let t1 = with_ethernet(with_layer(t, layer_of(f, 1)), f);
    let t2 = with_tags(t1, f, 1);
    let tags = tags_of(f, 1);
    let (et, off) = l2_of(f, 1)->0;
    lemma_network_leaves(t2, tag_chain(link_text(1), tags.len()), et, tail(f, off), ts, tags.len() > 0, window);
    crate::stats::law_every_tag_is_noted(t, tags);
}

/// A packet is at most one duplicate, one gap, one acknowledgement of unseen data, one
/// truncated segment, one tagged and one nested frame; it is a duplicate with other
/// tags only if it is a duplicate, and double-tagged only if it is tagged.
#[verifier::rlimit(30)]
pub proof fn law_packet_counts_at_most_once(t: Tally, f: Seq<u8>, link: i32, ts: Option<u128>, window: i128)
    ensures
        ({
            let u = with_packet(t, f, link, ts, window);
            &&& t.dup_frames <= u.dup_frames <= t.dup_frames + 1
            &&& 0 <= u.dup_tag_diff - t.dup_tag_diff <= u.dup_frames - t.dup_frames
            &&& t.seq_gaps <= u.seq_gaps <= t.seq_gaps + 1
            &&& t.acked_unseen <= u.acked_unseen <= t.acked_unseen + 1
            &&& t.inner_trunc <= u.inner_trunc <= t.inner_trunc + 1
            &&& t.vlan <= u.vlan <= t.vlan + 1
            &&& 0 <= u.qinq - t.qinq <= u.vlan - t.vlan
            &&& t.multi_encap <= u.multi_encap <= t.multi_encap + 1
        }),
{
    reveal(with_packet);
    lemma_peel_leaves_the_rest(t, f, link);
    let start = Peeled { tally: t, frame: f, link, chain: link_text(link), depth: 0 };
    lemma_peel_leaves_nested(start, 4);
    let p = unwrapped(t, f, link);
    lemma_inner_keeps_tunnels(p, ts, window);
    let t1 = if p.link == 1 {
        with_ethernet(p.tally, p.frame)
    } else {
        p.tally
    };
    let t2 = with_tags(t1, p.frame, p.link);
    let tags = tags_of(p.frame, p.link).len();
    if let Some((et, off)) = l2_of(p.frame, p.link) {
        let d = tail(p.frame, off);
        lemma_network_leaves(t2, tag_chain(p.chain, tags), et, d, ts, tags > 0, window);
        lemma_ip_marks(Tally { ipv4: t2.ipv4 + 1, ..t2 }, d, false, ts, tags > 0, window);
        lemma_ip_marks(Tally { ipv6: t2.ipv6 + 1, ..t2 }, d, true, ts, tags > 0, window);
    }
}

proof fn lemma_ip_marks(t: Tally, ip: Seq<u8>, is_v6: bool, ts: Option<u128>, tagged: bool, window: i128)
    ensures
        ({
            let u = with_ip(t, ip, is_v6, ts, tagged, window);
            &&& t.dup_frames <= u.dup_frames <= t.dup_frames + 1
            &&& 0 <= u.dup_tag_diff - t.dup_tag_diff <= u.dup_frames - t.dup_frames
            &&& t.seq_gaps <= u.seq_gaps <= t.seq_gaps + 1
            &&& t.acked_unseen <= u.acked_unseen <= t.acked_unseen + 1
            &&& t.inner_trunc <= u.inner_trunc <= t.inner_trunc + 1
        }),
{
    lemma_segment_keeps_addresses(t, ip, is_v6);
    if let Some(g) = segment_of(ip, is_v6) {
        crate::session::law_segment_touches_its_session_alone(t, g, 0);
        assert(t.inner_trunc <= with_segment(t, g).inner_trunc <= t.inner_trunc + 1);
    }
}

/// The chain of a frame that is not Ethernet starts with the name of its link: `IP` for
/// raw packets, `SLL` for Linux cooked ones. What is not read at all is its link alone.
#[verifier::rlimit(30)]
pub proof fn law_chain_of_other_links(t: Tally, f: Seq<u8>, link: i32, ts: Option<u128>, window: i128)
    requires
        link != 1,
        layer_of(f, link).inner is None,
        t.chains.len() < 400,
    ensures
        ({
            let u = with_packet(t, f, link, ts, window);
            let head = if link == 101 {
                "IP"@
            } else if link == 113 {
                "SLL"@
            } else {
                "L2"@
            };
            let name = match l2_of(f, link) {
                Some((et, off)) => {
                    let d = tail(f, off);
                    if et == 0x0806 {
                        head + ">"@ + "ARP"@
                    } else if et == 0x0800 {
                        if d.len() > 9 {
                            head + ">"@ + "IPv4>"@ + proto_text(d[9])
                        } else {
                            head + ">"@ + "IPv4"@
                        }
                    } else if et == 0x86dd {
                        if d.len() > 6 {
                            head + ">"@ + "IPv6>"@ + proto_text(d[6])
                        } else {
                            head + ">"@ + "IPv6"@
                        }
                    } else {
                        head + ">"@ + "other"@
                    }
                },
                None => head,
            };
            crate::stats::chain_count(u.chains, name) == crate::stats::chain_count(t.chains, name) + 1
        }),
{
    lemma_untunnelled(t, f, link, ts, window);
    let t0 = with_layer(t, layer_of(f, link));
    let t2 = with_tags(t0, f, link);
    let c = link_text(link);
    match l2_of(f, link) {
        Some((et, off)) => {
            let d = tail(f, off);
            lemma_ip_leaves(Tally { ipv4: t2.ipv4 + 1, ..t2 }, d, false, ts, false, window);
            lemma_ip_leaves(Tally { ipv6: t2.ipv6 + 1, ..t2 }, d, true, ts, false, window);
            lemma_rest_of_chain(c, c + ">"@, et, d);
            crate::stats::law_chain_is_counted_once(t, network_chain(c, et, d), c);
        },
        None => {
            crate::stats::law_chain_is_counted_once(t, c, c);
        },
    }
}

/// The chain of a tunnel that carries an untagged Ethernet frame names the outer link,
/// the tunnel and the inner frame.
#[verifier::rlimit(30)]
pub proof fn law_chain_of_a_tunnel(t: Tally, f: Seq<u8>, ts: Option<u128>, window: i128)
    requires
        layer_of(f, 1).inner is Some,
        ({
            let (g, inner, _) = layer_of(f, 1).inner->0;
            &&& inner == 1
            &&& g.len() >= 14
            &&& layer_of(g, 1).inner is None
            &&& tags_of(g, 1).len() == 0
            &&& l2_of(g, 1) is Some
        }),
        t.chains.len() < 400,
    ensures
        ({
            let u = with_packet(t, f, 1, ts, window);
            let (g, _, tunnel) = layer_of(f, 1).inner->0;
            let (et, off) = l2_of(g, 1)->0;
            let d = tail(g, off);
            let head = "Eth"@ + ">"@ + tunnel + ">"@ + "Eth"@ + ">"@;
            let name = if et == 0x0806 {
                head + "ARP"@
            } else if et == 0x0800 {
                if d.len() > 9 {
                    head + "IPv4>"@ + proto_text(d[9])
                } else {
                    head + "IPv4"@
                }
            } else if et == 0x86dd {
                if d.len() > 6 {
                    head + "IPv6>"@ + proto_text(d[6])
                } else {
                    head + "IPv6"@
                }
            } else {
                head + "other"@
            };
            crate::stats::chain_count(u.chains, name) == crate::stats::chain_count(t.chains, name) + 1
        }),
{
    let l = layer_of(f, 1);
    let (g, inner, tunnel) = l.inner->0;
    reveal(with_packet);
    reveal_with_fuel(peeled, 3);
    let p = unwrapped(t, f, 1);
    let c = link_on(link_on("Eth"@, tunnel), "Eth"@);
    assert(p.frame == g && p.link == 1 && p.chain == c);
    lemma_peel_leaves_the_rest(t, f, 1);
    let t2 = with_tags(with_ethernet(p.tally, g), g, 1);
    let (et, off) = l2_of(g, 1)->0;
    let d = tail(g, off);
    lemma_ip_leaves(Tally { ipv4: t2.ipv4 + 1, ..t2 }, d, false, ts, false, window);
    lemma_ip_leaves(Tally { ipv6: t2.ipv6 + 1, ..t2 }, d, true, ts, false, window);
    assert(with_inner(p, ts, window).chains == with_chain(t.chains, network_chain(c, et, d)));
    lemma_rest_of_chain(c, c + ">"@, et, d);
    crate::stats::law_chain_is_counted_once(t, network_chain(c, et, d), c);
}

/// A frame with two tags or more is called QinQ in its chain.
pub proof fn law_chain_of_a_double_tagged_frame(t: Tally, f: Seq<u8>, ts: Option<u128>, window: i128)
    requires
        f.len() >= 14,
        layer_of(f, 1).inner is None,
        t.chains.len() < 400,
        tags_of(f, 1).len() >= 2,
        l2_of(f, 1) matches Some((et, _)) && et == 0x0806,
    ensures
        ({
            let u = with_packet(t, f, 1, ts, window);
            let name = "Eth"@ + ">"@ + "QinQ"@ + ">"@ + "ARP"@;
            crate::stats::chain_count(u.chains, name) == crate::stats::chain_count(t.chains, name) + 1
        }),
{
    lemma_chains_after(t, f, ts, window);
    let c = link_on("Eth"@, "QinQ"@);
    crate::stats::law_chain_is_counted_once(t, link_on(c, "ARP"@), c);
}

/// Four tunnels one within the other are all opened; a fifth is not.
#[verifier::rlimit(30)]
pub proof fn law_four_tunnels_are_opened(
    t: Tally,
    f: Seq<u8>,
    link: i32,
    g: Seq<(Seq<u8>, i32)>,
    ts: Option<u128>,
    window: i128,
)
    requires
        g.len() == 5,
        g[0] == (f, link),
        forall|i: int|
            0 <= i < 4 ==> ((#[trigger] layer_of(g[i].0, g[i].1)).inner matches Some((h, l, _)) && (h, l) == g[i + 1]),
    ensures
        unwrapped(t, f, link).depth == 4,
        unwrapped(t, f, link).frame == g[4].0,
        unwrapped(t, f, link).link == g[4].1,
        with_packet(t, f, link, ts, window).max_depth >= 4,
        t.max_depth <= 4 ==> with_packet(t, f, link, ts, window).max_depth == 4,
{
    reveal(with_packet);
    reveal_with_fuel(peeled, 6);
    let start = Peeled { tally: t, frame: f, link, chain: link_text(link), depth: 0 };
    assert(layer_of(g[0].0, g[0].1).inner is Some);
    assert(layer_of(g[1].0, g[1].1).inner is Some);
    assert(layer_of(g[2].0, g[2].1).inner is Some);
    assert(layer_of(g[3].0, g[3].1).inner is Some);
    let p1 = lemma_one_layer(start, 3);
    assert((p1.frame, p1.link) == g[1]);
    let p2 = lemma_one_layer(p1, 2);
    assert((p2.frame, p2.link) == g[2]);
    let p3 = lemma_one_layer(p2, 1);
    assert((p3.frame, p3.link) == g[3]);
    let p4 = lemma_one_layer(p3, 0);
    assert((p4.frame, p4.link) == g[4]);
    lemma_peel_rest(start, 4);
    lemma_inner_keeps_tunnels(unwrapped(t, f, link), ts, window);
}

/// One layer off.
proof fn lemma_one_layer(p: Peeled, layers: nat) -> (q: Peeled)
    requires
        layer_of(p.frame, p.link).inner is Some,
    ensures
        peeled(p, layers + 1) == peeled(q, layers),
        q.depth == p.depth + 1,
        ({
            let (h, l, _) = layer_of(p.frame, p.link).inner->0;
            q.frame == h && q.link == l
        }),
{
    let l = layer_of(p.frame, p.link);
    let (frame, link, name) = l.inner->0;
    let chain = link_on(p.chain, name);
    Peeled {
        tally: with_layer(p.tally, l),
        frame,
        link,
        chain: if link == LINK_ETHERNET {
            link_on(chain, "Eth"@)
        } else {
            chain
        },
        depth: p.depth + 1,
    }
}

} // verus!
