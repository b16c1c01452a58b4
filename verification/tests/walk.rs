use picocap::binary64::Binary64;
use picocap::capture::{window_size, Analysis, Failure, Item};
use picocap::config::Config;
use picocap::frame::{l2, Format};
use picocap::moments::record_moment;
use picocap::packet::{analyze_packet, decap_once};
use picocap::reader::{classify, starts_runt_block};
use picocap::report::Intake;
use picocap::session::{finalize_flows, read_segment, tcp_session};
use picocap::stats::{
    collect_ipv4, collect_ipv6, dedup, l2v, note_framelen, note_ts, record_chain, Stats,
};

const MAGIC: [u8; 4] = [0xd4, 0xc3, 0xb2, 0xa1];

fn begin(total: usize) -> Analysis {
    match Analysis::begin(&MAGIC, total, &Config::default()) {
        Ok(a) => a,
        Err(_) => panic!("a capture"),
    }
}

#[test]
fn errors_are_classified() {
    let kind = |s: &str| match classify(String::from(s)) {
        Failure::Eof => "eof".to_string(),
        Failure::Incomplete => "incomplete".to_string(),
        Failure::BufferTooSmall => "small".to_string(),
        Failure::UnexpectedEof => "cut".to_string(),
        Failure::Other(e) => format!("other {e}"),
    };
    assert_eq!(kind("Eof"), "eof");
    assert_eq!(kind("Incomplete(12)"), "incomplete");
    assert_eq!(kind("BufferTooSmall"), "small");
    assert_eq!(kind("UnexpectedEof"), "cut");
    assert_eq!(kind("HeaderNotRecognized"), "other HeaderNotRecognized");
}

#[test]
fn walk_ends_clean() {
    let c = Config::default();
    let mut a = begin(24);
    let header = Item::FileHeader(65535, 1, 2, 4);
    assert!(a.has_room(24, &header));
    a.block(24, &header, &c);
    assert!(!a.failure(Failure::Eof));
    assert!(a.is_done());
    let r = a.finish(&c);
    assert_eq!(r.note, "clean: parsed to end of file");
    assert_eq!(r.score, Binary64::whole(100));
    assert_eq!(r.format, Format::Pcap);
    assert_eq!(r.linktype, "Ethernet");
    assert!(!r.has_time);
}

#[test]
fn walk_stops_at_the_second_incomplete_answer() {
    let c = Config::default();
    let mut a = begin(100);
    assert!(a.failure(Failure::Incomplete), "more bytes are asked for");
    assert!(!a.is_done());
    a.block(24, &Item::FileHeader(0, 101, 2, 4), &c);
    assert!(a.failure(Failure::Incomplete), "a block in between starts anew");
    assert!(!a.failure(Failure::Incomplete));
    let r = a.finish(&c);
    assert_eq!(r.note, "truncated: last block is incomplete");
    assert_eq!(r.score, Binary64::whole(24));
    assert_eq!(r.intake, Intake::Reject);
}

#[test]
fn walk_stops_where_nothing_comes() {
    let c = Config::default();
    let mut a = begin(100);
    assert!(a.failure(Failure::Incomplete));
    a.refill_failed();
    assert!(a.is_done());
    assert_eq!(a.finish(&c).note, "truncated: unexpected end of data");
}

#[test]
fn walk_notes_each_error() {
    let c = Config::default();
    let note = |f: Failure| {
        let mut a = begin(100);
        a.block(24, &Item::FileHeader(0, 1, 2, 4), &c);
        assert!(!a.failure(f));
        a.finish(&c).note
    };
    assert_eq!(
        note(Failure::BufferTooSmall),
        "truncated/corrupt: a block after 24 bytes claims more data than the file holds"
    );
    assert_eq!(
        note(Failure::UnexpectedEof),
        "truncated: file ends mid-block after 24 bytes"
    );
    assert_eq!(
        note(Failure::Other(String::from("ReadError"))),
        "parse error after 24 bytes: ReadError"
    );
    assert_eq!(
        begin(9).refused("HeaderNotRecognized", &c).note,
        "reader init failed: HeaderNotRecognized"
    );
    match Analysis::begin(b"PK\x03\x04", 9, &c) {
        Ok(_) => panic!("no capture"),
        Err(r) => {
            assert_eq!(r.note, "no pcap/pcapng magic bytes — not a packet capture");
            assert_eq!(r.intake, Intake::Reject);
            assert_eq!(r.checks.len(), 2);
        }
    }
}

#[test]
fn windows_are_bounded() {
    assert_eq!(window_size(0), 65536);
    assert_eq!(window_size(1000), 66536);
    assert_eq!(window_size(16 * 1024 * 1024 - 65536), 16 * 1024 * 1024);
    assert_eq!(window_size(1 << 40), 16 * 1024 * 1024);
}

#[test]
fn frame_lengths_are_tallied() {
    let mut s = Stats::new();
    for n in [59, 60, 1518, 1519, 0] {
        note_framelen(&mut s, n);
    }
    assert_eq!((s.runts, s.oversize), (2, 1));
}

#[test]
fn timestamps_are_tallied() {
    let mut s = Stats::new();
    note_ts(&mut s, record_moment(0, 0, 1));
    assert_eq!((s.ts_first, s.ns_first), (None, None), "zero is no time");
    for t in [50, 90, 10, 30] {
        note_ts(&mut s, record_moment(t, 0, 1));
    }
    let at = |n: u128| Some(Binary64::whole(n));
    assert_eq!((s.ts_first, s.ts_last, s.ts_prev), (at(10), at(90), at(30)));
    assert_eq!(s.ts_maxgap, Binary64::whole(40));
    let at = |n: u128| Some(n * 1_000_000_000);
    assert_eq!((s.ns_first, s.ns_last, s.ns_prev), (at(10), at(90), at(30)));
    assert_eq!(s.ns_maxgap, 40_000_000_000);
}

#[test]
fn chains_are_capped() {
    let mut s = Stats::new();
    for i in 0..450 {
        record_chain(&mut s, format!("c{i}"));
    }
    record_chain(&mut s, String::from("c7"));
    assert_eq!(s.chains.len(), 400);
    assert_eq!(s.chains[7], (String::from("c7"), 2));
}

#[test]
fn addresses_are_collected() {
    let mut s = Stats::new();
    let d: Vec<u8> = (0..40).collect();
    collect_ipv4(&d[..19], &mut s);
    assert!(s.ips.is_empty());
    collect_ipv4(&d, &mut s);
    assert!(s.ips.contains(&0x0c0d0e0f) && s.ips.contains(&0x10111213));
    collect_ipv6(&d[..39], &mut s);
    assert_eq!(s.ips.len(), 2);
    collect_ipv6(&d, &mut s);
    assert!(s.ips.contains(&0x08090a0b0c0d0e0f1011121314151617));
    assert_eq!(s.ips.len(), 4);
}

#[test]
fn every_vlan_id_is_kept() {
    let mut s = Stats::new();
    let mut f = vec![0u8; 18];
    f[12] = 0x81;
    for tci in 0..=0xffffu16 {
        f[14] = (tci >> 8) as u8;
        f[15] = tci as u8;
        assert_eq!(l2v(&f, 1, &mut s), Some((0, 18, 1)));
    }
    assert_eq!(s.vlan_ids.len(), 4096);
    assert_eq!((s.vlan, s.qinq), (65536, 0));
}

#[test]
fn duplicates_fall_within_the_window() {
    let mut s = Stats::new();
    let ip = [9u8; 30];
    dedup(&ip, false, None, false, 100, &mut s);
    assert!(s.seen.is_empty(), "no time, no duplicate");
    dedup(&ip, false, Some(1000), false, 100, &mut s);
    dedup(&ip, false, Some(1100), true, 100, &mut s);
    assert_eq!((s.dup_frames, s.dup_tag_diff), (1, 1));
    dedup(&ip, false, Some(1201), true, 100, &mut s);
    assert_eq!(s.dup_frames, 1, "later than the window");
    dedup(&ip, false, Some(1200), true, 100, &mut s);
    assert_eq!(s.dup_frames, 1, "back in time");
    dedup(&ip, false, Some(1200), true, 0, &mut s);
    assert_eq!((s.dup_frames, s.dup_tag_diff), (2, 1));
    dedup(&ip, false, Some(1200), true, -1, &mut s);
    assert_eq!(s.dup_frames, 2);
}

fn segment(from: u8, to: u8, seq: u32, ackn: u32, flags: u8, payload: u16) -> Vec<u8> {
    let mut ip = vec![0x45, 0];
    ip.extend((40 + payload).to_be_bytes());
    ip.extend([0, 0, 0, 0, 64, 6, 0, 0, 10, 0, 0, from, 10, 0, 0, to]);
    ip.extend([0, from, 0, to]);
    ip.extend(seq.to_be_bytes());
    ip.extend(ackn.to_be_bytes());
    ip.extend([0x50, flags, 0, 0, 0, 0, 0, 0]);
    ip.extend(vec![0u8; payload as usize]);
    ip
}

#[test]
fn segments_are_read() {
    let ip = segment(1, 2, 7, 8, 0x13, 5);
    let g = read_segment(&ip, false).unwrap();
    assert_eq!((g.src, g.dst), ((0x0a000001, 1), (0x0a000002, 2)));
    assert_eq!((g.seq, g.ackn, g.payload), (7, 8, 5));
    assert!(g.syn && g.ack && g.fin && !g.cut);
    assert!(read_segment(&ip[..44], false).unwrap().cut);
    assert!(read_segment(&ip[..39], false).is_none());
    assert!(read_segment(&ip, true).is_none());
}

#[test]
fn sequence_numbers_wrap() {
    let mut s = Stats::new();
    let go = |s: &mut Stats, seq: u32, n: u16| tcp_session(&segment(1, 2, seq, 0, 0, n), false, s);
    go(&mut s, u32::MAX - 4, 10); // next expected: 5
    go(&mut s, 5, 10);
    assert_eq!(s.seq_gaps, 0);
    go(&mut s, 0, 5); // a retransmission
    go(&mut s, 15, 1);
    assert_eq!(s.seq_gaps, 0);
    go(&mut s, 17, 1);
    assert_eq!(s.seq_gaps, 1);
    go(&mut s, 18 + 16_000_000, 1); // too far to be a gap
    assert_eq!(s.seq_gaps, 1);
    assert_eq!(s.flows.len(), 1);
}

#[test]
fn sessions_are_counted_by_coverage() {
    let mut s = Stats::new();
    let mut go = |from: u8, to: u8, flags: u8, n: u16| {
        tcp_session(&segment(from, to, 1, 1, flags, n), false, &mut s)
    };
    go(1, 2, 0x02, 0);
    go(2, 1, 0x12, 0); // both directions are one session
    go(1, 3, 0x02, 0);
    go(1, 4, 0x10, 9);
    go(1, 5, 0x10, 0);
    go(6, 1, 0x12, 0);
    finalize_flows(&mut s);
    assert_eq!(s.tcp_flows, 5);
    assert_eq!((s.hs_complete, s.hs_syn_only, s.hs_midstream), (1, 1, 1));
    finalize_flows(&mut s); // adds to what is there
    assert_eq!((s.hs_complete, s.hs_syn_only, s.hs_midstream), (2, 2, 2));
    assert_eq!(s.tcp_flows, 5);
}

#[test]
fn retransmissions_are_no_duplicates() {
    let mut s = Stats::new();
    let mut ip = segment(1, 2, 7, 8, 0x18, 20);
    dedup(&ip, false, Some(1000), false, 5_000_000, &mut s);
    ip[5] = 1; // the same bytes again, as a new packet
    dedup(&ip, false, Some(2000), false, 5_000_000, &mut s);
    assert_eq!(s.dup_frames, 0);
    ip[8] -= 1; // and its copy behind a router
    dedup(&ip, false, Some(3000), false, 5_000_000, &mut s);
    assert_eq!(s.dup_frames, 1);
}

#[test]
fn truncation_keeps_the_accounting() {
    let ips = [
        segment(1, 2, 100, 0, 0x18, 50),
        segment(1, 2, 150, 0, 0x18, 50),
        segment(1, 2, 260, 0, 0x18, 50),
    ];
    let mut whole = Stats::new();
    let mut short = Stats::new();
    for ip in &ips {
        tcp_session(ip, false, &mut whole);
        tcp_session(&ip[..40], false, &mut short);
    }
    assert_eq!((whole.seq_gaps, short.seq_gaps), (1, 1));
    assert_eq!((whole.inner_trunc, short.inner_trunc), (0, 3));
    assert!(whole.flows == short.flows);
}

#[test]
fn tags_are_read_as_they_are_skipped() {
    for n in 0..4usize {
        let mut f = vec![0u8; 12];
        for _ in 0..n {
            f.extend([0x81, 0, 0, 7]);
        }
        f.extend([0x08, 0x00]);
        for cut in [f.len(), f.len() - 1] {
            let mut s = Stats::new();
            let read = l2v(&f[..cut], 1, &mut s);
            let skipped = l2(&f[..cut], 1);
            assert_eq!(read.map(|x| (x.0, x.1)), skipped);
            if cut == f.len() {
                assert_eq!(read, Some((0x0800, 14 + 4 * n, n)));
            }
            assert_eq!(s.vlan, (skipped.is_some() && n >= 1) as u64);
            assert_eq!(s.qinq, (skipped.is_some() && n >= 2) as u64);
        }
    }
}

#[test]
fn tunnels_are_peeled_once() {
    let mut s = Stats::new();
    let mut f = vec![0u8; 12];
    f.extend([8, 0]);
    f.extend([0x45, 0, 0, 0, 0, 0, 0, 0, 64, 47, 0, 0, 1, 2, 3, 4, 5, 6, 7, 8]);
    f.extend([0x30, 0, 0x22, 0xeb]); // key and sequence number, the newer of the two headers
    f.extend([0u8; 8 + 12]);
    f.extend([0xaa, 0xbb]);
    let (inner, link, name) = decap_once(&f, 1, &mut s);
    assert_eq!((inner, link, name), (&[0xaa, 0xbb][..], 1, Some("GRE/ERSPAN")));
    assert_eq!((s.gre, s.erspan), (1, 1));
    let (inner, link, name) = decap_once(&f[..34], 1, &mut s);
    assert_eq!((inner.len(), link, name), (34, 1, None), "the header is cut off");
    assert_eq!((s.gre, s.erspan), (2, 1));
    let (inner, _, name) = decap_once(&f[..38], 1, &mut s);
    assert_eq!((inner.len(), name), (0, Some("GRE/ERSPAN")));
}

#[test]
fn other_link_types_have_names() {
    let mut s = Stats::new();
    let mut sll = vec![0u8; 14];
    sll.extend([0x08, 0x06]);
    analyze_packet(&sll, 113, None, 0, &mut s);
    analyze_packet(&sll, 105, None, 0, &mut s);
    analyze_packet(&[], 101, None, 0, &mut s);
    let names: Vec<&str> = s.chains.iter().map(|c| c.0.as_str()).collect();
    assert_eq!(names, vec!["SLL>ARP", "L2", "IP"]);
    assert_eq!((s.arp, s.l2other, s.decoded), (1, 2, 0));
}

#[test]
fn tunnels_nest_to_a_limit() {
    // each layer: IP in GRE, without Ethernet
    let mut f = vec![0x45, 0, 0, 0, 0, 0, 0, 0, 64, 17, 0, 0, 1, 2, 3, 4, 5, 6, 7, 8];
    for _ in 0..6 {
        let mut g = vec![0x45, 0, 0, 0, 0, 0, 0, 0, 64, 47, 0, 0, 1, 2, 3, 4, 5, 6, 7, 8];
        g.extend([0, 0, 8, 0]);
        g.extend(f);
        f = g;
    }
    let mut s = Stats::new();
    analyze_packet(&f, 101, None, 0, &mut s);
    assert_eq!(s.max_depth, 4);
    assert_eq!((s.gre, s.multi_encap), (4, 1));
    assert_eq!(s.chains[0].0, "IP>GRE>GRE>GRE>GRE>IPv4>IPproto");
}

#[test]
fn runt_blocks_are_recognised() {
    assert!(starts_runt_block(&[1, 0, 0, 0x80, 4, 0, 0, 0], false));
    assert!(starts_runt_block(&[1, 0, 0, 0x80, 11, 0, 0, 0, 9], false));
    assert!(starts_runt_block(&[0x80, 0, 0, 1, 0, 0, 0, 8], true));
    assert!(!starts_runt_block(&[1, 0, 0, 0x80, 12, 0, 0, 0], false));
    assert!(!starts_runt_block(&[1, 0, 0, 0x80, 3, 0, 0, 0], false));
    assert!(!starts_runt_block(&[1, 0, 0, 0x80, 4, 0, 0, 0], true));
    assert!(!starts_runt_block(&[1, 0, 0, 0x80, 4, 0, 0], false));
}
