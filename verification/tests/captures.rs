use picocap::binary64::Binary64;
use picocap::config::Config;
use picocap::frame::{detect_format, Format};
use picocap::reader::{analyze, analyze_core};
use picocap::report::{Intake, Level, Report};

// --- synthetic captures (classic pcap, little-endian, Ethernet) ---
fn pcap(records: &[(u32, u32, Vec<u8>)]) -> Vec<u8> {
    let mut o = Vec::new();
    o.extend([0xd4, 0xc3, 0xb2, 0xa1]);
    o.extend(2u16.to_le_bytes());
    o.extend(4u16.to_le_bytes());
    o.extend([0u8; 8]);
    o.extend(65535u32.to_le_bytes());
    o.extend(1u32.to_le_bytes());
    for (s, us, f) in records {
        o.extend(s.to_le_bytes());
        o.extend(us.to_le_bytes());
        o.extend((f.len() as u32).to_le_bytes());
        o.extend((f.len() as u32).to_le_bytes());
        o.extend(f);
    }
    o
}

const M1: [u8; 6] = [0x02, 0, 0, 0, 0, 1];
const M2: [u8; 6] = [0x02, 0, 0, 0, 0, 2];
const BCAST: [u8; 6] = [0xff; 6];
const MCAST: [u8; 6] = [0x01, 0, 0x5e, 0, 0, 1];

fn eth(dst: [u8; 6], src: [u8; 6], et: u16, payload: &[u8]) -> Vec<u8> {
    let mut f = Vec::new();
    f.extend(dst);
    f.extend(src);
    f.extend(et.to_be_bytes());
    f.extend(payload);
    f
}

// minimal IPv4 header (20 B), src 10.0.0.1 / dst 10.0.0.2
fn ipv4(proto: u8, id: u16, payload: &[u8]) -> Vec<u8> {
    let mut h = vec![0x45, 0x00];
    h.extend(((20 + payload.len()) as u16).to_be_bytes());
    h.extend(id.to_be_bytes());
    h.extend([0x40, 0x00, 0x40, proto, 0x00, 0x00]);
    h.extend([10, 0, 0, 1, 10, 0, 0, 2]);
    h.extend(payload);
    h
}

fn tcp(pad: u8) -> Vec<u8> {
    vec![pad; 20]
}

fn inner_ip_tcp(id: u16, pad: u8) -> Vec<u8> {
    eth(M2, M1, 0x0800, &ipv4(6, id, &tcp(pad)))
}

fn ipv4_full(src: [u8; 4], dst: [u8; 4], proto: u8, payload: &[u8]) -> Vec<u8> {
    let mut h = vec![0x45, 0x00];
    h.extend(((20 + payload.len()) as u16).to_be_bytes());
    h.extend([0, 0, 0x40, 0x00, 0x40, proto, 0, 0]);
    h.extend(src);
    h.extend(dst);
    h.extend(payload);
    h
}

// A 20-byte TCP header (data offset 5) + payload. flags: SYN 0x02, ACK 0x10, FIN 0x01.
fn tcp_seg(sport: u16, dport: u16, seq: u32, ack: u32, flags: u8, payload: &[u8]) -> Vec<u8> {
    let mut t = Vec::new();
    t.extend(sport.to_be_bytes());
    t.extend(dport.to_be_bytes());
    t.extend(seq.to_be_bytes());
    t.extend(ack.to_be_bytes());
    t.push(0x50);
    t.push(flags);
    t.extend(8192u16.to_be_bytes());
    t.extend([0, 0, 0, 0]);
    t.extend(payload);
    t
}

// A full Ethernet/IPv4/TCP frame between client 10.0.0.1 and server 10.0.0.2.
fn frame_tcp(
    from_client: bool,
    sport: u16,
    dport: u16,
    seq: u32,
    ack: u32,
    flags: u8,
    payload: &[u8],
) -> Vec<u8> {
    let (src, dst, smac, dmac) = if from_client {
        ([10, 0, 0, 1], [10, 0, 0, 2], M1, M2)
    } else {
        ([10, 0, 0, 2], [10, 0, 0, 1], M2, M1)
    };
    eth(
        dmac,
        smac,
        0x0800,
        &ipv4_full(
            src,
            dst,
            6,
            &tcp_seg(sport, dport, seq, ack, flags, payload),
        ),
    )
}

fn vlan(dst: [u8; 6], vid: u16, inner_et: u16, inner: &[u8]) -> Vec<u8> {
    let mut p = Vec::new();
    p.extend(vid.to_be_bytes());
    p.extend(inner_et.to_be_bytes());
    p.extend(inner);
    eth(dst, M1, 0x8100, &p)
}

fn qinq(outer: u16, inner_vid: u16, inner_et: u16, inner: &[u8]) -> Vec<u8> {
    let mut p = Vec::new();
    p.extend(outer.to_be_bytes());
    p.extend(0x8100u16.to_be_bytes());
    p.extend(inner_vid.to_be_bytes());
    p.extend(inner_et.to_be_bytes());
    p.extend(inner);
    eth(M2, M1, 0x88a8, &p)
}

fn vxlan_on(port: u16, flags: u8) -> Vec<u8> {
    let mut udp = Vec::new();
    udp.extend(1000u16.to_be_bytes());
    udp.extend(port.to_be_bytes());
    udp.extend([0, 0, 0, 0]);
    udp.extend([flags, 0, 0, 0, 0, 0, 0, 0]);
    udp.extend(inner_ip_tcp(1, 7));
    eth(M1, M2, 0x0800, &ipv4(17, 1, &udp))
}

fn vxlan_pkt() -> Vec<u8> {
    vxlan_on(4789, 0x08)
}

fn erspan_pkt(id: u16, pad: u8) -> Vec<u8> {
    let mut gre = Vec::new();
    gre.extend(0x1000u16.to_be_bytes());
    gre.extend(0x88beu16.to_be_bytes());
    gre.extend([0, 0, 0, 0]);
    gre.extend([0u8; 8]);
    gre.extend(inner_ip_tcp(id, pad));
    eth(M1, M2, 0x0800, &ipv4(47, 1, &gre))
}

fn check_capture(data: &[u8]) -> Report {
    analyze(data, &Config::default())
}

fn has_chain(r: &Report, name: &str) -> bool {
    r.stats.chains.iter().any(|c| c.0 == name)
}

fn some_chain_holds(r: &Report, part: &str) -> bool {
    r.stats.chains.iter().any(|c| c.0.contains(part))
}

fn hundred() -> Binary64 {
    Binary64::whole(100)
}

#[test]
fn tcp_handshake_and_capture_drop() {
    // SYN, SYN-ACK, ACK, data(100B), then a segment that skips 200 B forward
    // (a captured-side gap) — one complete handshake, one sequence gap.
    let (cp, sp) = (12345u16, 502u16);
    let recs = vec![
        (1u32, 0u32, frame_tcp(true, cp, sp, 1000, 0, 0x02, &[])), // SYN
        (1, 1, frame_tcp(false, sp, cp, 5000, 1001, 0x12, &[])),   // SYN-ACK
        (1, 2, frame_tcp(true, cp, sp, 1001, 5001, 0x10, &[])),    // ACK
        (1, 3, frame_tcp(true, cp, sp, 1001, 5001, 0x18, &[7u8; 100])), // data -> next 1101
        (1, 4, frame_tcp(true, cp, sp, 1301, 5001, 0x18, &[7u8; 50])), // GAP: expected 1101
    ];
    let r = check_capture(&pcap(&recs));
    assert_eq!(r.stats.tcp_flows, 1, "one TCP session");
    assert_eq!(r.stats.hs_complete, 1, "complete handshake");
    assert_eq!(r.stats.hs_syn_only, 0);
    assert_eq!(
        r.stats.seq_gaps, 1,
        "one forward sequence gap = capture drop"
    );
    assert!(
        r.checks
            .iter()
            .any(|c| c.label.starts_with("No capture drops") && c.level == Level::Warn),
        "capture-drop check should warn"
    );
}

#[test]
fn streaming_matches_in_memory() {
    // A capture read with its first bytes at hand gives the report of the whole slice.
    let (cp, sp) = (12345u16, 502u16);
    let recs = vec![
        (1u32, 0u32, frame_tcp(true, cp, sp, 1000, 0, 0x02, &[])),
        (1, 1, frame_tcp(false, sp, cp, 5000, 1001, 0x12, &[])),
        (1, 2, frame_tcp(true, cp, sp, 1001, 5001, 0x18, &[7u8; 100])),
        (1, 3, frame_tcp(true, cp, sp, 1301, 5001, 0x18, &[7u8; 50])),
    ];
    let bytes = pcap(&recs);
    let mem = check_capture(&bytes);
    let magic = &bytes[..24.min(bytes.len())];
    let strm = analyze_core(magic, &bytes, bytes.len(), &Config::default());
    assert_eq!(mem.packets, strm.packets);
    assert_eq!(mem.stats.tcp_flows, strm.stats.tcp_flows);
    assert_eq!(mem.stats.seq_gaps, strm.stats.seq_gaps);
    assert_eq!(mem.stats.hs_complete, strm.stats.hs_complete);
    assert_eq!(mem.conformance, strm.conformance);
}

#[test]
fn tcp_acked_unseen() {
    // Handshake, then the client ACKs 100 B of server data that the capture
    // never recorded — an ACKed-unseen segment (RFC 9293 §3.4 capture drop).
    let (cp, sp) = (30000u16, 502u16);
    let recs = vec![
        (1u32, 0u32, frame_tcp(true, cp, sp, 1000, 0, 0x02, &[])), // SYN
        (1, 1, frame_tcp(false, sp, cp, 5000, 1001, 0x12, &[])),   // SYN-ACK
        (1, 2, frame_tcp(true, cp, sp, 1001, 5001, 0x10, &[])),    // normal ACK
        // server data 5001..5101 is missing from the capture
        (1, 3, frame_tcp(true, cp, sp, 1001, 5101, 0x10, &[])), // ACK for unseen 100 B
    ];
    let r = check_capture(&pcap(&recs));
    assert_eq!(r.stats.acked_unseen, 1, "one ACK for data never captured");
    assert_eq!(r.stats.seq_gaps, 0, "no client-side data gap");
}

#[test]
fn inner_length_truncation() {
    // IP total-length claims 200 B but only a 20 B TCP header is present.
    let mut ip = vec![0x45, 0x00];
    ip.extend(200u16.to_be_bytes()); // total_length = 200 (exceeds captured)
    ip.extend([0, 0, 0x40, 0x00, 0x40, 6, 0, 0]);
    ip.extend([10, 0, 0, 1, 10, 0, 0, 2]);
    ip.extend(tcp_seg(1111, 502, 1, 0, 0x10, &[])); // 20 B L4, no payload
    let frame = eth(M2, M1, 0x0800, &ip);
    let r = check_capture(&pcap(&[(1u32, 0u32, frame)]));
    assert_eq!(
        r.stats.inner_trunc, 1,
        "inner IP length exceeds captured bytes"
    );
}

#[test]
fn routed_double_capture_ttl_tolerant() {
    // Two mirror copies of the SAME packet (same IP id) differing only in TTL
    // — a routed both-direction SPAN. The TTL-tolerant dedup must catch it.
    let seg = tcp_seg(1000, 80, 5, 0, 0x10, &[1, 2, 3, 4]);
    let ip1 = ipv4_full([10, 0, 0, 1], [10, 0, 0, 2], 6, &seg);
    let mut ip2 = ip1.clone();
    ip2[8] = 0x3f; // decremented TTL (egress copy of the same frame)
    let f1 = eth(M2, M1, 0x0800, &ip1);
    let f2 = eth(M2, M1, 0x0800, &ip2);
    let r = check_capture(&pcap(&[(1u32, 0u32, f1), (1, 10, f2)])); // 10 µs apart
    assert_eq!(
        r.stats.dup_frames, 1,
        "routed mirror copy (TTL differs) detected"
    );
}

#[test]
fn egress_tag_artifact_on_double_capture() {
    // The same inner frame appears twice within the window — once untagged,
    // once 802.1Q-tagged: the egress-copy VLAN-tag chipset artifact.
    let inner = ipv4(6, 42, &tcp_seg(1000, 80, 5, 0, 0x10, &[9u8; 20]));
    let untagged = eth(M2, M1, 0x0800, &inner);
    let tagged = vlan(M2, 100, 0x0800, &inner); // same inner IP, VLAN-tagged
    let r = check_capture(&pcap(&[(1u32, 0u32, untagged), (1, 1000, tagged)])); // 1 ms apart
    assert_eq!(
        r.stats.dup_frames, 1,
        "the two copies are the same inner frame"
    );
    assert_eq!(r.stats.dup_tag_diff, 1, "the copies differ in VLAN tagging");
}

#[test]
fn timestamp_discontinuity_flagged() {
    // Two frames > 2 days apart = a merged/replayed capture.
    let f = |id| eth(M2, M1, 0x0800, &ipv4(6, id, &tcp(0)));
    let r = check_capture(&pcap(&[(1000u32, 0u32, f(1)), (201000u32, 0u32, f(2))]));
    assert!(
        r.notices
            .iter()
            .any(|n| n.code == "timestamps_discontinuous"),
        "a multi-day inter-frame gap must raise a discontinuity notice"
    );
}

#[test]
fn tcp_clean_session_no_gap() {
    // A clean, in-order half-session: SYN then contiguous data, no gaps.
    let (cp, sp) = (40000u16, 44818u16);
    let recs = vec![
        (1u32, 0u32, frame_tcp(true, cp, sp, 100, 0, 0x02, &[])), // SYN -> next 101
        (1, 1, frame_tcp(true, cp, sp, 101, 0, 0x10, &[9u8; 40])), // 101..141
        (1, 2, frame_tcp(true, cp, sp, 141, 0, 0x10, &[9u8; 40])), // 141..181 contiguous
    ];
    let r = check_capture(&pcap(&recs));
    assert_eq!(r.stats.seq_gaps, 0, "contiguous stream has no gaps");
    assert_eq!(r.stats.hs_syn_only, 1, "SYN seen but no SYN-ACK");
}

#[test]
fn detect_formats() {
    let name = |data: &[u8]| detect_format(data).0.map(|f| f.name());
    assert_eq!(name(&[0xa1, 0xb2, 0xc3, 0xd4]), Some("pcap"));
    assert_eq!(name(&[0xd4, 0xc3, 0xb2, 0xa1]), Some("pcap"));
    assert_eq!(name(&[0x0a, 0x0d, 0x0d, 0x0a]), Some("pcapng"));
    assert_eq!(detect_format(&[0xa1, 0xb2, 0x3c, 0x4d]).1, 1); // ns
    assert_eq!(name(b"PK\x03\x04"), None);
}

#[test]
fn not_a_capture_is_rejected() {
    let r = check_capture(b"this is not a pcap file at all");
    assert_eq!(r.format.name(), "unknown");
    assert_eq!(r.intake.name(), "REJECT");
    assert_eq!(r.conformance, Binary64::whole(0));
}

#[test]
fn plain_ethernet_ipv4_tcp() {
    let cap = pcap(&[(0, 0, eth(M2, M1, 0x0800, &ipv4(6, 1, &tcp(0))))]);
    let r = check_capture(&cap);
    assert_eq!(r.format.name(), "pcap");
    assert_eq!(r.packets, 1);
    assert_eq!(r.stats.unicast, 1);
    assert_eq!(r.stats.ipv4, 1);
    assert!(has_chain(&r, "Eth>IPv4>TCP"));
    assert_eq!(r.score, hundred());
}

#[test]
fn cast_classification() {
    let cap = pcap(&[
        (0, 0, eth(M2, M1, 0x0800, &ipv4(6, 1, &tcp(0)))), // unicast
        (0, 1, eth(BCAST, M1, 0x0806, &[0u8; 28])),        // broadcast ARP
        (0, 2, eth(MCAST, M1, 0x0800, &ipv4(17, 2, &tcp(0)))), // multicast
    ]);
    let r = check_capture(&cap);
    assert_eq!(r.stats.unicast, 1);
    assert_eq!(r.stats.broadcast, 1);
    assert_eq!(r.stats.multicast, 1);
    assert_eq!(r.stats.arp, 1);
}

#[test]
fn vlan_tagging_counted() {
    let cap = pcap(&[(0, 0, vlan(M2, 100, 0x0800, &ipv4(6, 1, &tcp(0))))]);
    let r = check_capture(&cap);
    assert_eq!(r.stats.vlan, 1, "VLAN frame must be counted");
    assert_eq!(r.stats.qinq, 0);
    assert!(r.stats.vlan_ids.contains(&100));
    assert_eq!(r.stats.ipv4, 1, "inner IPv4 seen through the VLAN tag");
    assert!(some_chain_holds(&r, "VLAN"));
}

#[test]
fn qinq_double_tag() {
    let cap = pcap(&[(0, 0, qinq(200, 300, 0x0800, &ipv4(6, 1, &tcp(0))))]);
    let r = check_capture(&cap);
    assert_eq!(r.stats.qinq, 1, "QinQ (>=2 tags) must be detected");
    assert_eq!(r.stats.vlan, 1);
    assert!(r.stats.vlan_ids.contains(&300));
    assert!(some_chain_holds(&r, "QinQ"));
}

#[test]
fn vxlan_decapsulation() {
    let r = check_capture(&pcap(&[(0, 0, vxlan_pkt())]));
    assert_eq!(r.stats.vxlan, 1, "VXLAN tunnel must be counted");
    assert_eq!(r.stats.max_depth, 1);
    assert_eq!(r.stats.ipv4, 1, "inner IPv4 analysed, not the outer");
    assert!(some_chain_holds(&r, "VXLAN"));
}

#[test]
fn erspan_decapsulation() {
    let r = check_capture(&pcap(&[(0, 0, erspan_pkt(1, 0))]));
    assert_eq!(r.stats.gre, 1);
    assert_eq!(r.stats.erspan, 1);
    assert_eq!(r.stats.max_depth, 1);
    assert_eq!(r.stats.ipv4, 1, "inner IPv4 through GRE/ERSPAN");
    assert!(some_chain_holds(&r, "GRE/ERSPAN"));
}

#[test]
fn span_double_capture_detected() {
    // 5 distinct frames, each duplicated 1 ms later within the 5 ms window
    let mut recs = Vec::new();
    for i in 0..5u32 {
        let f = eth(M2, M1, 0x0800, &ipv4(6, i as u16, &tcp(i as u8)));
        recs.push((i, 0, f.clone()));
        recs.push((i, 1000, f)); // +1 ms
    }
    let r = check_capture(&pcap(&recs));
    assert_eq!(r.packets, 10);
    assert_eq!(
        r.stats.dup_frames, 5,
        "second copy of each pair is a duplicate"
    );
    assert!(
        r.notices.iter().any(|n| n.code == "span_double_capture"),
        "50% duplicates must raise the notice"
    );
    assert!(r.conformance.is_less(hundred()));
    assert_ne!(r.intake.name(), "ACCEPT");
}

#[test]
fn truncated_capture_scores_below_100() {
    let mut cap = pcap(&[
        (0, 0, eth(M2, M1, 0x0800, &ipv4(6, 1, &tcp(0)))),
        (0, 1, eth(M2, M1, 0x0800, &ipv4(6, 2, &tcp(0)))),
    ]);
    cap.truncate(cap.len() - 20); // cut into the last record's data
    let r = check_capture(&cap);
    assert!(
        r.score.is_less(hundred()),
        "truncated file must not be 100% integrity"
    );
    assert!(!r.clean);
}

fn clean_records() -> Vec<(u32, u32, Vec<u8>)> {
    // >64 KB, 6 distinct devices, spans 6 s, no duplicates
    let mut recs = Vec::new();
    for i in 0..1200u32 {
        let src = [0x02, 0, 0, 0, 0, (i % 6) as u8];
        let f = eth(
            M2,
            src,
            0x0800,
            &ipv4(6, (i % 65535) as u16, &[(i % 251) as u8; 40]),
        );
        recs.push((i % 7, i, f));
    }
    recs
}

#[test]
fn clean_capture_conforms() {
    let r = check_capture(&pcap(&clean_records()));
    assert!(
        r.total > 64 * 1024,
        "capture must exceed the tiny-file threshold"
    );
    assert!(r.src_macs >= 5, "enough devices for the diversity check");
    assert!(r.notices.is_empty(), "no quality findings expected");
    assert_eq!(r.intake.name(), "ACCEPT");
    assert_eq!(r.conformance, hundred());
}

// --- further captures ---

fn block(kind: u32, body: &[u8]) -> Vec<u8> {
    let mut padded = body.to_vec();
    while padded.len() % 4 != 0 {
        padded.push(0);
    }
    let len = (padded.len() + 12) as u32;
    let mut o = Vec::new();
    o.extend(kind.to_le_bytes());
    o.extend(len.to_le_bytes());
    o.extend(padded);
    o.extend(len.to_le_bytes());
    o
}

fn section() -> Vec<u8> {
    let mut b = Vec::new();
    b.extend(0x1a2b3c4du32.to_le_bytes());
    b.extend(1u16.to_le_bytes());
    b.extend(0u16.to_le_bytes());
    b.extend([0xff; 8]);
    block(0x0a0d0d0a, &b)
}

fn interface(link: u16, snaplen: u32) -> Vec<u8> {
    let mut b = Vec::new();
    b.extend(link.to_le_bytes());
    b.extend([0, 0]);
    b.extend(snaplen.to_le_bytes());
    block(1, &b)
}

fn enhanced(id: u32, micros: u64, origlen: u32, data: &[u8]) -> Vec<u8> {
    let mut b = Vec::new();
    b.extend(id.to_le_bytes());
    b.extend(((micros >> 32) as u32).to_le_bytes());
    b.extend((micros as u32).to_le_bytes());
    b.extend((data.len() as u32).to_le_bytes());
    b.extend(origlen.to_le_bytes());
    b.extend(data);
    block(6, &b)
}

fn simple(data: &[u8]) -> Vec<u8> {
    let mut b = Vec::new();
    b.extend((data.len() as u32).to_le_bytes());
    b.extend(data);
    block(3, &b)
}

#[test]
fn pcapng_blocks_are_walked() {
    let ip = ipv4_full([10, 0, 0, 1], [10, 0, 0, 2], 6, &tcp_seg(9, 10, 1, 0, 0x02, &[]));
    let mut cap = section();
    cap.extend(interface(101, 0)); // raw IP
    cap.extend(interface(1, 262144)); // Ethernet
    cap.extend(enhanced(0, 1_600_000_000_000_000, ip.len() as u32, &ip));
    cap.extend(enhanced(1, 1_600_000_009_500_000, 9000, &eth(M2, M1, 0x0800, &ip)));
    cap.extend(simple(&ip));
    cap.extend(block(5, &[0u8; 12])); // statistics, passed over
    let r = check_capture(&cap);
    assert_eq!(r.format, Format::PcapNg);
    assert_eq!(r.ver, "1.0");
    assert_eq!(r.linktype, "Raw IP");
    assert_eq!(r.snaplen, 262144);
    assert_eq!(r.iface_count, 2);
    assert_eq!(r.packets, 3);
    assert_eq!(r.truncated_pkts, 1);
    assert_eq!(r.stats.oversize, 1);
    assert_eq!(r.stats.unicast, 1);
    assert_eq!(r.stats.ipv4, 3);
    assert!(has_chain(&r, "IP>IPv4>TCP"));
    assert!(has_chain(&r, "Eth>IPv4>TCP"));
    assert!(r.has_time);
    assert_eq!(r.span, 9_500_000_000);
    assert_eq!(r.duration.fixed(10), 95);
    assert_eq!(r.stats.ns_first, Some(1_600_000_000_000_000_000));
    assert_eq!(r.stats.ts_first, Some(Binary64::whole(1_600_000_000)));
    assert!(r.clean);
    assert_eq!(r.consumed, cap.len());
    assert_eq!(r.note, "clean: parsed to end of file");
}

#[test]
fn a_new_section_forgets_its_interfaces() {
    let arp = eth(BCAST, M1, 0x0806, &[0u8; 28]);
    let mut cap = section();
    cap.extend(interface(101, 65535));
    cap.extend(section());
    cap.extend(enhanced(0, 7, arp.len() as u32, &arp)); // no interface described: Ethernet
    let r = check_capture(&cap);
    assert_eq!(r.stats.arp, 1);
    assert_eq!(r.stats.broadcast, 1);
    assert_eq!(r.linktype, "Raw IP");
}

#[test]
fn nanosecond_captures_keep_their_ticks() {
    let f = |id| eth(M2, M1, 0x0800, &ipv4(17, id, &[1, 2, 3]));
    let mut cap = pcap(&[(5, 7, f(1)), (5, 1_000_007, f(2))]);
    cap[..4].copy_from_slice(&[0x4d, 0x3c, 0xb2, 0xa1]);
    let r = check_capture(&cap);
    assert_eq!(r.ts_prec, "ns");
    assert_eq!(r.endian, "little-endian");
    assert_eq!(r.stats.ns_first, Some(5_000_000_007));
    assert_eq!(r.span, 1_000_000);
}

#[test]
fn reader_refills_its_window() {
    // the window is made for an empty file, so the capture takes several refills
    let cap = pcap(&clean_records());
    assert!(cap.len() > 65536);
    let c = Config::default();
    let r = analyze_core(&cap[..4], &cap, 0, &c);
    assert_eq!(r.packets, 1200);
    assert!(r.clean);
    assert_eq!(r.consumed, cap.len());
    assert_eq!(r.score, Binary64::whole(0), "no share of an empty file");
    assert_eq!(r.intake, Intake::Reject);
}

#[test]
fn reader_errors_are_told_apart() {
    let c = Config::default();
    // the header is not complete: the reader does not open
    let r = analyze(&[0xd4, 0xc3, 0xb2, 0xa1, 2, 0], &c);
    assert!(r.note.starts_with("reader init failed: "), "{}", r.note);
    assert_eq!(r.intake, Intake::Reject);
    assert_eq!(r.conformance, Binary64::whole(0));

    // a record that claims more than the window can hold
    let mut cap = pcap(&[]);
    cap.extend([0u8; 8]);
    cap.extend(100_000_000u32.to_le_bytes());
    cap.extend(100_000_000u32.to_le_bytes());
    cap.extend([0u8; 40]);
    let r = analyze(&cap, &c);
    assert_eq!(
        r.note,
        "truncated/corrupt: a block after 24 bytes claims more data than the file holds"
    );

    // a record that is cut off
    let mut cap = pcap(&[(0, 0, inner_ip_tcp(1, 0))]);
    let whole = cap.len();
    cap.truncate(whole - 5);
    let r = analyze(&cap, &c);
    assert_eq!(r.note, "truncated: file ends mid-block after 24 bytes");
    assert_eq!(r.consumed, 24);

    // a pcapng block with a length that cannot be
    let mut cap = section();
    cap.extend(6u32.to_le_bytes());
    cap.extend(3u32.to_le_bytes());
    cap.extend([0u8; 40]);
    let r = analyze(&cap, &c);
    assert!(r.note.starts_with("parse error after 28 bytes: "), "{}", r.note);
    assert!(!r.clean);
}

#[test]
fn nested_tunnels_are_peeled() {
    // VXLAN in GRE (transparent Ethernet bridging)
    let mut gre = Vec::new();
    gre.extend(0u16.to_be_bytes());
    gre.extend(0x6558u16.to_be_bytes());
    gre.extend(vxlan_pkt());
    let f = eth(M1, M2, 0x0800, &ipv4(47, 3, &gre));
    let r = check_capture(&pcap(&[(1, 0, f)]));
    assert_eq!(r.stats.gre, 1);
    assert_eq!(r.stats.erspan, 0);
    assert_eq!(r.stats.vxlan, 1);
    assert_eq!(r.stats.max_depth, 2);
    assert_eq!(r.stats.multi_encap, 1);
    assert!(has_chain(&r, "Eth>GRE>Eth>VXLAN>Eth>IPv4>TCP"));
}

#[test]
fn ip_in_gre_has_no_ethernet_header() {
    let mut gre = Vec::new();
    gre.extend(0xb000u16.to_be_bytes()); // checksum, key, sequence
    gre.extend(0x0800u16.to_be_bytes());
    gre.extend([0u8; 12]);
    gre.extend(ipv4(17, 9, &[0u8; 12]));
    let f = eth(M1, M2, 0x0800, &ipv4(47, 3, &gre));
    let r = check_capture(&pcap(&[(1, 0, f)]));
    assert_eq!(r.stats.decoded, 0, "no inner Ethernet header");
    assert!(has_chain(&r, "Eth>GRE>IPv4>UDP"));
}

#[test]
fn vxlan_findings() {
    let r = check_capture(&pcap(&[(1, 0, vxlan_on(8472, 0x00))]));
    assert_eq!(r.stats.vxlan, 1);
    assert_eq!(r.stats.vxlan_legacy, 1);
    assert_eq!(r.stats.vxlan_bad, 1);
    let codes: Vec<&str> = r.notices.iter().map(|n| n.code).collect();
    assert_eq!(codes, vec!["vxlan_legacy_port", "vxlan_rfc7348_iflag"]);
    assert!(r.notices[0].text.starts_with("1 VXLAN frames use UDP port 8472"));
    assert!(r
        .checks
        .iter()
        .any(|c| c.label == "Capture source" && c.detail.starts_with("tunnel mirror")));
}

#[test]
fn geneve_is_counted_only() {
    let r = check_capture(&pcap(&[(1, 0, vxlan_on(6081, 0x08))]));
    assert_eq!(r.stats.geneve, 1);
    assert_eq!(r.stats.max_depth, 0);
    assert!(has_chain(&r, "Eth>IPv4>UDP"));
}

#[test]
fn ipv6_packets_are_read() {
    let mut ip = vec![0x60, 0, 0, 0];
    ip.extend(30u16.to_be_bytes());
    ip.extend([6, 64]);
    ip.extend([0x20; 16]);
    ip.extend([0x30; 16]);
    ip.extend(tcp_seg(1, 2, 10, 0, 0x18, &[0u8; 10]));
    let a = eth(M2, M1, 0x86dd, &ip);
    ip[7] = 63; // hop limit of the routed copy
    let b = eth(M2, M1, 0x86dd, &ip);
    let r = check_capture(&pcap(&[(1, 0, a), (1, 5000, b)]));
    assert_eq!(r.stats.ipv6, 2);
    assert_eq!(r.stats.tcp_flows, 1);
    assert_eq!(r.stats.hs_midstream, 1);
    assert_eq!(r.stats.dup_frames, 1, "5 ms apart is within the window");
    assert_eq!(r.ip_addrs, 2);
    assert!(r.stats.ips.contains(&0x20202020202020202020202020202020));
    assert!(has_chain(&r, "Eth>IPv6>TCP"));
}

#[test]
fn a_later_copy_is_a_retransmission() {
    let f = eth(M2, M1, 0x0800, &ipv4(6, 1, &tcp(0)));
    let r = check_capture(&pcap(&[(1, 0, f.clone()), (1, 5001, f)]));
    assert_eq!(r.stats.dup_frames, 0);
}

#[test]
fn short_and_strange_frames_are_other() {
    let mut cut_tag = eth(M2, M1, 0x8100, &[]);
    cut_tag.extend([0, 55]); // a tag whose ethertype is missing
    let r = check_capture(&pcap(&[
        (1, 0, vec![1, 2, 3]),
        (1, 1, eth(M2, M1, 0x1234, &[0u8; 50])),
        (1, 2, cut_tag),
    ]));
    assert_eq!(r.stats.l2other, 3);
    assert_eq!(r.stats.decoded, 2);
    assert_eq!(r.stats.vlan, 0, "the cut frame is not counted as tagged");
    assert!(r.stats.vlan_ids.contains(&55), "but its id is known");
    assert!(has_chain(&r, "Eth>other"));
    assert!(has_chain(&r, "Eth"));
    // every packet is tallied once
    assert_eq!(r.stats.ipv4 + r.stats.ipv6 + r.stats.arp + r.stats.l2other, 3);
    assert_eq!(
        r.stats.unicast + r.stats.multicast + r.stats.broadcast,
        r.stats.decoded
    );
}

#[test]
fn blind_mirror_is_noticed() {
    let mut recs = Vec::new();
    for i in 0..300u32 {
        recs.push((i, 0, eth(BCAST, M1, 0x0806, &[i as u8; 28])));
    }
    let r = check_capture(&pcap(&recs));
    let n = r
        .notices
        .iter()
        .find(|n| n.code == "mirror_no_unicast")
        .unwrap();
    assert!(n
        .text
        .starts_with("Only 0% of frames are unicast; 200% are ARP/broadcast/multicast."));
}

#[test]
fn implausible_clock_is_noticed() {
    let f = |id| eth(M2, M1, 0x0800, &ipv4(17, id, &[0u8; 8]));
    let r = check_capture(&pcap(&[(1000, 0, f(1)), (1_000_000_000, 0, f(2))]));
    let n = r
        .notices
        .iter()
        .find(|n| n.code == "timestamps_implausible")
        .unwrap();
    assert!(n.text.starts_with("Consecutive frames jump by 32 years"));
    let r = check_capture(&pcap(&[(1000, 0, f(1)), (201_000, 0, f(2))]));
    assert!(r.notices[0].text.starts_with("A 2-day gap splits this capture"));
}

#[test]
fn offload_and_truncation_are_noticed() {
    let mut big = vec![0u8; 4000];
    big[12] = 8;
    let r = check_capture(&pcap(&[(1, 0, big)]));
    assert_eq!(r.stats.oversize, 1);
    let n = r
        .notices
        .iter()
        .find(|n| n.code == "offload_superframes")
        .unwrap();
    assert!(n.text.starts_with("100% of frames exceed the 1518 B Ethernet MTU"));
    assert!(r
        .checks
        .iter()
        .any(|c| c.label == "Capture source" && c.detail.starts_with("host capture (endpoint")));

    let mut ip = ipv4_full([1, 2, 3, 4], [5, 6, 7, 8], 6, &tcp_seg(1, 2, 3, 0, 0x10, &[]));
    ip[2] = 9;
    let r = check_capture(&pcap(&[(1, 0, eth(M2, M1, 0x0800, &ip))]));
    assert!(r.notices.iter().any(|n| n.code == "inner_truncation"
        && n.text.starts_with("100% of TCP packets carry an IP total-length")));
}

#[test]
fn egress_tagging_is_told_in_the_notice() {
    let inner = ipv4(17, 42, &[9u8; 20]);
    let a = eth(M2, M1, 0x0800, &inner);
    let b = vlan(M2, 100, 0x0800, &inner);
    let r = check_capture(&pcap(&[(1, 0, a), (1, 1000, b)]));
    assert_eq!(r.notices[0].code, "span_double_capture");
    assert!(r.notices[0]
        .text
        .contains("Of the duplicate copies, 100% differ in VLAN tagging"));
    assert!(r.notices[0].text.starts_with("50% of frames recur"));
}

#[test]
fn snap_length_and_truncation_are_criteria() {
    let f = inner_ip_tcp(1, 0);
    let mut cap = pcap(&[(1, 0, f.clone())]);
    cap[16..20].copy_from_slice(&96u32.to_le_bytes());
    let r = check_capture(&cap);
    assert_eq!(r.checks[2].level, Level::Warn);
    assert_eq!(
        r.checks[2].detail,
        "snaplen 96 < 65535 — set -s 0 to capture full frames"
    );
    let mut cap = pcap(&[(1, 0, f)]);
    cap[36..40].copy_from_slice(&1000u32.to_le_bytes());
    let r = check_capture(&cap);
    assert_eq!(r.checks[2].level, Level::Fail);
    assert_eq!(
        r.checks[2].detail,
        "1 of 1 packets truncated — recapture with -s 0 (full frames)"
    );
    assert_eq!(r.intake, Intake::Reject);
}

#[test]
fn settings_move_the_thresholds() {
    let mut c = Config::default();
    c.apply_yaml("size_limit_mb: 0\ndevices_min_ok: 1\ndevices_min_warn: 0\nduration_min_s: 0\ndup_window_ms: 0.5");
    let f = eth(M2, M1, 0x0800, &ipv4(6, 1, &tcp(0)));
    let r = analyze(&pcap(&[(1, 0, f.clone()), (1, 501, f)]), &c);
    assert_eq!(r.stats.dup_frames, 0);
    let size = &r.checks[3];
    assert_eq!(size.label, "Size ≤ 0 MB per file");
    assert_eq!(size.level, Level::Warn);
    assert_eq!(size.detail, "164 B — exceeds 0 MB, split with -C 0");
    assert_eq!(r.checks[4].detail, "1 distinct devices, 2 IP addresses");
    assert_eq!(r.checks[5].level, Level::Pass);
    assert_eq!(r.checks[5].detail, "Spans 0s");
}

#[test]
fn blocks_shorter_than_their_frame_are_corrupt() {
    let note = "truncated/corrupt: a block after 28 bytes claims more data than the file holds";
    for len in 4..12u32 {
        let mut cap = section();
        cap.extend(0x80000001u32.to_le_bytes()); // process information
        cap.extend(len.to_le_bytes());
        cap.extend([0u8; 30]);
        let r = check_capture(&cap);
        assert_eq!(r.note, note);
        assert_eq!(r.consumed, 28);
        assert_eq!(r.intake, Intake::Reject);
        cap.truncate(36);
        assert_eq!(check_capture(&cap).note, note);
    }
    // of at least twelve bytes it is read and passed over
    let mut cap = section();
    cap.extend(block(0x80000001, &[9, 0, 0, 0]));
    assert!(check_capture(&cap).clean);
}

#[test]
fn big_endian_sections_are_read() {
    let frame = eth(BCAST, M1, 0x0806, &[0u8; 28]);
    let be_block = |kind: u32, body: &[u8]| {
        let len = (body.len() + 12) as u32;
        let mut o = Vec::new();
        o.extend(kind.to_be_bytes());
        o.extend(len.to_be_bytes());
        o.extend(body);
        o.extend(len.to_be_bytes());
        o
    };
    let mut cap = be_block(
        0x0a0d0d0a,
        &[0x1a, 0x2b, 0x3c, 0x4d, 0, 1, 0, 2, 255, 255, 255, 255, 255, 255, 255, 255],
    );
    cap.extend(be_block(1, &[0, 1, 0, 0, 0, 0, 255, 255]));
    let mut body = vec![0, 0, 0, 0, 0, 0, 0, 0, 0, 0, 3, 232];
    body.extend((frame.len() as u32).to_be_bytes());
    body.extend((frame.len() as u32).to_be_bytes());
    body.extend(&frame);
    body.extend([0, 0]); // padding to four bytes
    cap.extend(be_block(6, &body));
    let good = cap.len();
    let r = check_capture(&cap);
    assert_eq!((r.ver.as_str(), r.snaplen, r.packets), ("1.2", 65535, 1));
    assert_eq!(r.stats.ns_first, Some(1_000_000));
    assert_eq!(r.stats.arp, 1);
    assert!(r.clean);
    // a block that is shorter than its frame, in the byte order of its section
    cap.extend([0x80, 0, 0, 1, 0, 0, 0, 8]);
    let r = check_capture(&cap);
    assert_eq!(
        r.note,
        format!("truncated/corrupt: a block after {good} bytes claims more data than the file holds")
    );
}

#[test]
fn limits_are_exact_and_figures_are_binary64() {
    // at today's clock a step of binary64 is a quarter of a microsecond
    let f = |id| eth(M2, M1, 0x0800, &ipv4(6, id, &tcp(0)));
    let r = check_capture(&pcap(&[(1_600_000_000, 0, f(1)), (1_600_000_000, 50_000, f(2))]));
    assert_eq!(r.span, 50_000_000);
    let shown = (1_600_000_000.0f64 + 50_000.0 * 1e-6) - 1_600_000_000.0;
    assert_eq!(r.duration.mant as f64 * 2f64.powi(r.duration.exp), shown);
    assert_eq!(r.duration.fixed(10), 0, "0.0499999 seconds");
    // five milliseconds apart is within five milliseconds
    let r = check_capture(&pcap(&[(1_700_000_000, 1, f(1)), (1_700_000_000, 5_001, f(1))]));
    assert_eq!(r.stats.dup_frames, 1);
    let r = check_capture(&pcap(&[(1_700_000_000, 1, f(1)), (1_700_000_000, 5_002, f(1))]));
    assert_eq!(r.stats.dup_frames, 0);
    // five seconds are not less than five seconds, however they are shown
    let mut cap = pcap(&[(1_700_000_000, 900_000, f(1)), (1_700_000_005, 900_000, f(2))]);
    let r = check_capture(&cap);
    assert_eq!((r.checks[5].level, r.span), (Level::Pass, 5_000_000_000));
    // ten nanoseconds before the minute are shown as the minute
    cap[..4].copy_from_slice(&[0x4d, 0x3c, 0xb2, 0xa1]);
    cap[24..32].copy_from_slice(&[0x00, 0xf1, 0x53, 0x65, 0, 0, 0, 0]);
    let at = 24 + 16 + f(1).len();
    cap[at..at + 4].copy_from_slice(&1_700_000_059u32.to_le_bytes());
    cap[at + 4..at + 8].copy_from_slice(&999_999_990u32.to_le_bytes());
    let r = check_capture(&cap);
    assert_eq!(r.stats.ns_last, Some(1_700_000_059_999_999_990));
    assert_eq!(r.stats.ts_last, Some(Binary64::whole(1_700_000_060)));
}
