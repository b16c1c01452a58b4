use picocap::about::{CODENAME, TRUST_NOTE, VERSION};
use picocap::api::{answer, check};
use picocap::binary64::Binary64;
use picocap::checks::{finding_source, verdict_on};
use picocap::config::Config;
use picocap::digest::sha256_hex;
use picocap::markdown::{average_packet, markdown_report, moment_text};
use picocap::reader::analyze;
use picocap::report::{Check, Intake, Level, Report};
use picocap::summary::{exit_code, summary};

const NOW: u64 = 1_700_000_000;

fn packet(out: &mut Vec<u8>, sec: u32, usec: u32, f: &[u8]) {
    out.extend(sec.to_le_bytes());
    out.extend(usec.to_le_bytes());
    out.extend((f.len() as u32).to_le_bytes());
    out.extend((f.len() as u32).to_le_bytes());
    out.extend(f);
}

fn frame(src: u8, et: u16, fill: u8) -> Vec<u8> {
    let mut f = vec![2, 0, 0, 0, 0, 99, 2, 0, 0, 0, 0, src];
    f.extend(et.to_be_bytes());
    f.extend([fill; 48]);
    f
}

/// Two ARP frames and one of an unknown kind, within two and a half seconds.
fn small_capture() -> Vec<u8> {
    let mut o = vec![0xd4, 0xc3, 0xb2, 0xa1, 2, 0, 4, 0, 0, 0, 0, 0, 0, 0, 0, 0];
    o.extend(65535u32.to_le_bytes());
    o.extend(1u32.to_le_bytes());
    packet(&mut o, 1_600_000_000, 0, &frame(1, 0x0806, 1));
    packet(&mut o, 1_600_000_001, 0, &frame(2, 0x0806, 2));
    packet(&mut o, 1_600_000_002, 500_000, &frame(3, 0x1234, 3));
    o
}

fn report(data: &[u8]) -> Report {
    analyze(data, &Config::default())
}

#[test]
fn summary_shows_the_report() {
    let data = small_capture();
    let r = report(&data);
    let text = summary("a.pcap", "5a", &r);
    let full = "█".repeat(28);
    let bars = (
        "█".repeat(16) + &"·".repeat(8),
        "█".repeat(8) + &"·".repeat(16),
    );
    let want = format!(
        "PicoCap 🩺  v{VERSION} \"{CODENAME}\"  ·  capture intake
  file     : a.pcap
  sha256   : 5a
  format   : pcap (Ethernet)
  packets  : 3   size: 258 B
  integrity: [{full}] 100.0%  clean: parsed to end of file
  conform. : 75.0%  (100% only when every criterion passes)
  ── Capture metadata ──
   recorded : 2020-09-13 12:26:40 UTC  →  2020-09-13 12:26:42 UTC
   duration : 2s
   pcap ver : 2.4   byte order: little-endian   ts precision: µs
   linktype : Ethernet   snaplen: 65535   interfaces: 1
   avg pkt  : 62 B   on-wire: 186 B   throughput: 0.00 Mbit/s
  INTAKE   : REVIEW
  ── Collection criteria ──
   [✓] Format .pcap / .pcapng     PCAP container (Ethernet)
   [✓] Container integrity        Parsed cleanly to end of file
   [✓] Full-packet capture (-s 0) Full frames (snaplen 65535)
   [!] Size ≤ 500 MB per file     Only 258 B — capture longer for representative traffic
   [!] Multiple end devices       3 devices — few endpoints, add more capture points
   [!] Representative time window Only 2s — capture a longer window
   [i] Capture source             local SPAN / unknown — no tunnel and no host-capture signature (fingerprint from metadata, not a device verdict)
  ── Packet distribution (3 L2 frames) ──
   unicast 3  multicast 0  broadcast 0
   IPv4 0  IPv6 0  ARP 2  VLAN-tagged 0
   GRE 0  ERSPAN 0  VXLAN 0  Geneve 0
   VLAN-tagged 0 (QinQ 0, 0 distinct VLAN IDs)  max encap depth 0  multi-encap 0
  ── Encapsulation chains (count / %) ──
   {}   66.7%         2  Eth>ARP
   {}   33.3%         1  Eth>other
  ── Capture-quality notices ──
   ✓ no capture-quality notices
",
        bars.0, bars.1
    );
    assert_eq!(text, want);
}

#[test]
fn summary_shows_notices() {
    let mut data = small_capture();
    packet(&mut data, 1_700_000_000, 0, &frame(4, 0x0806, 9));
    let r = report(&data);
    let n = &r.notices[0];
    assert_eq!(n.code, "timestamps_discontinuous");
    assert!(n.text.starts_with("A 1157-day gap"));
    let text = summary("x", "", &r);
    let tail = format!(
        "  ── Capture-quality notices ──\n   ⚠ {} [{}]\n     {}\n",
        n.title, n.code, n.text
    );
    assert!(text.ends_with(&tail));
}

#[test]
fn summary_of_no_capture() {
    let r = report(b"nothing");
    let text = summary("n", "s", &r);
    let empty = "░".repeat(28);
    assert!(text.contains("  format   : unknown (-)\n"));
    assert!(text.contains(&format!(
        "  integrity: [{empty}] 0.0%  no pcap/pcapng magic bytes — not a packet capture\n"
    )));
    assert!(text.contains("   recorded : -  →  -\n   pcap ver : -   byte order: -"));
    assert!(text.contains("   [✗] Format .pcap / .pcapng     Not a pcap/pcapng file\n"));
    assert!(!text.contains("Encapsulation chains"));
}

#[test]
fn exit_codes_follow_the_intake() {
    assert_eq!(exit_code(Intake::Accept), 0);
    assert_eq!(exit_code(Intake::Review), 1);
    assert_eq!(exit_code(Intake::Reject), 2);
}

#[test]
fn markdown_shows_the_report() {
    let data = small_capture();
    let sha = sha256_hex(&data);
    let r = report(&data);
    let text = markdown_report("a|b.pcap", &sha, &r, NOW);
    let upper = sha[..8].to_uppercase();
    let want = format!(
        "# Technical Assessment Report — PCAP Capture Intake

**Report No.** `PC-20231114-{upper}`  ·  **Issued** 2023-11-14 22:13:20 UTC  ·  **Classification** CONFIDENTIAL

| Field | Value |
|---|---|
| Object under test | a\\|b.pcap |
| SHA-256 | `{sha}` |
| Size | 258 B (3 packets, PCAP) |
| Assessment tool | PicoCap v{VERSION} \"{CODENAME}\" — local capture intake checker |

## Assessment result

> ### CONFORMS WITH DEVIATIONS — Conformance 75.0%
>
> The capture is usable but exhibits deviations that should be reviewed before use (see findings).

## 1  Assessment of collection criteria

| # | Requirement | Result | Remark |
|---:|---|:--:|---|
| 1 | Format .pcap / .pcapng | **PASS** | PCAP container (Ethernet) |
| 2 | Container integrity | **PASS** | Parsed cleanly to end of file |
| 3 | Full-packet capture (-s 0) | **PASS** | Full frames (snaplen 65535) |
| 4 | Size ≤ 500 MB per file | **DEVIATION** | Only 258 B — capture longer for representative traffic |
| 5 | Multiple end devices | **DEVIATION** | 3 devices — few endpoints, add more capture points |
| 6 | Representative time window | **DEVIATION** | Only 2s — capture a longer window |
| 7 | Capture source | **INFO** | local SPAN / unknown — no tunnel and no host-capture signature (fingerprint from metadata, not a device verdict) |

## 2  Capture-quality findings

_No capture-quality findings were raised._

## 3  Packet distribution

| Metric | Values |
|---|---|
| Layer-2 cast | Unicast 3 · Multicast 0 · Broadcast 0 |
| Network layer | IPv4 0 · IPv6 0 · ARP 2 |
| Encapsulation | GRE 0 · ERSPAN 0 · VXLAN 0 · Geneve 0 |
| VLAN | 0 tagged · QinQ 0 · 0 distinct IDs |
| Nesting | max tunnel depth 0 · multi-encapsulated 0 frames |
| Endpoints | 3 distinct MAC · 0 IP addresses |

## 4  Encapsulation chains (count / %)

| Chain | Count | % | |
|---|---:|---:|---|
| `Eth>ARP` | 2 | 66.7% | {} |
| `Eth>other` | 1 | 33.3% | {} |

## 5  Capture metadata

| Field | Value |
|---|---|
| Recorded start | 2020-09-13 12:26:40 UTC |
| Recorded end | 2020-09-13 12:26:42 UTC |
| Duration | 2s |
| Throughput | 0.00 Mbit/s |
| pcap version | 2.4 |
| Byte order | little-endian |
| Timestamp precision | µs |
| Link type | Ethernet |
| Snap length | 65.535 B |
| Interfaces | 1 |
| Average packet | 62 B |
| Data on wire | 186 B |

## 6  Sources per finding

| Requirement | Source |
|---|---|
",
        "█".repeat(20),
        "█".repeat(10)
    );
    assert!(text.starts_with(&want), "{text}");
    assert!(text.contains(
        "| Full-packet capture (-s 0) | tcpdump(1) snaplen (-s 0); SANS ISC — snaplen truncation |\n"
    ));
    assert!(text.contains(
        "| Capture source | corpus study (host vs mirror captures separate cleanly); packet-foo.com |\n"
    ));
    assert!(text.contains(&format!("> **How this runs:** {TRUST_NOTE}\n\n")));
    assert!(text.ends_with(&format!(
        "_Prepared by PicoCap v{VERSION} \"{CODENAME}\" (automated) · 2023-11-14 22:13:20 UTC_\n"
    )));
}

#[test]
fn markdown_of_no_capture_and_of_findings() {
    let r = report(b"nothing");
    let text = markdown_report("n", "abc", &r, 0);
    assert!(text.contains("**Report No.** `PC--`  ·  **Issued** -  ·"));
    assert!(text.contains("> ### DOES NOT CONFORM — Conformance 0.0%\n"));
    assert!(text.contains("_No decodable Layer-2 chains._\n"));
    assert!(text.contains("| Duration | - |\n| Throughput | - |\n| pcap version | - |\n"));
    assert!(text.contains("| Snap length | unlimited |\n"));

    let mut data = small_capture();
    packet(&mut data, 1_700_000_000, 0, &frame(4, 0x0806, 9));
    let r = report(&data);
    let n = &r.notices[0];
    let text = markdown_report("n", "0123456789", &r, NOW);
    assert!(text.contains("`PC-20231114-01234567`"));
    assert!(text.contains(&format!(
        "## 2  Capture-quality findings\n\n### Finding F1 — {}\n\n*Severity: Major · Reference: `{}`*\n\n{}\n\n## 3",
        n.title, n.code, n.text
    )));
}

#[test]
fn answer_is_the_report_in_json() {
    let data = small_capture();
    let r = report(&data);
    let text = answer("a\"b", "5a", &r, "# md\n");
    let head = "{\"name\":\"a\\\"b\",\"format\":\"pcap\",\"linktype\":\"Ethernet\",\"packets\":3,\"consumed\":258,\"total\":258,\"score\":100.0,\"conformance\":75.0,\"clean\":true,\"note\":\"clean: parsed to end of file\",\"sha256\":\"5a\",\"intake\":\"REVIEW\",\"snaplen\":65535,\"truncated\":0,\"src_macs\":3,\"ip_addrs\":0,\"duration\":2.5,\"has_time\":true,";
    let meta = "\"meta\":{\"ver\":\"2.4\",\"endian\":\"little-endian\",\"ts_prec\":\"µs\",\"ifaces\":1,\"snaplen\":65535,\"linktype\":\"Ethernet\",\"start\":\"2020-09-13 12:26:40 UTC\",\"end\":\"2020-09-13 12:26:42 UTC\",\"duration_h\":2.5,\"wire_bytes\":186,\"avg_pkt\":62,\"rate_bps\":595},";
    let dist = "\"dist\":{\"unicast\":3,\"multicast\":0,\"broadcast\":0,\"ipv4\":0,\"ipv6\":0,\"arp\":2,\"vlan\":0,\"gre\":0,\"erspan\":0,\"vxlan\":0,\"geneve\":0,\"decoded\":3,\"dup_frames\":0,\"dup_pct\":0.0,\"qinq\":0,\"vlan_ids\":0,\"max_depth\":0,\"multi_encap\":0},";
    let session = "\"session\":{\"tcp_flows\":0,\"handshake_complete\":0,\"syn_only\":0,\"mid_stream\":0,\"seq_gaps\":0,\"acked_unseen\":0,\"inner_trunc\":0,\"vxlan_legacy\":0,\"runts\":0,\"oversize\":0},";
    let chains = "\"chains\":[{\"chain\":\"Eth>ARP\",\"count\":2,\"pct\":66.7},{\"chain\":\"Eth>other\",\"count\":1,\"pct\":33.3}],";
    let trust = format!("\"trust\":\"{TRUST_NOTE}\",");
    let first = "\"checks\":[{\"level\":\"pass\",\"label\":\"Format .pcap / .pcapng\",\"detail\":\"PCAP container (Ethernet)\",\"source\":\"pcap/pcapng file format (IETF opsawg pcapng draft; libpcap)\"},{\"level\":";
    let want = format!("{head}{meta}{dist}{session}{trust}{chains}{first}");
    assert!(text.starts_with(&want), "{text}");
    assert!(text.ends_with("\"source\":\"corpus study (host vs mirror captures separate cleanly); packet-foo.com\"}],\"notices\":[],\"report_md\":\"# md\\n\"}"));
}

#[test]
fn upload_is_checked() {
    let data = small_capture();
    let c = Config::default();
    let r = analyze(&data, &c);
    let sha = sha256_hex(&data);
    let md = markdown_report("up", &sha, &r, NOW);
    assert_eq!(check("up", &data, NOW, &c), answer("up", &sha, &r, &md));
    let none = check("up", b"", NOW, &c);
    assert!(none.contains("\"format\":\"unknown\""));
    assert!(none.contains("\"checks\":[{\"level\":\"fail\""));
    assert!(none.contains("\"chains\":[],"));
}

#[test]
fn averages_and_moments() {
    let r = report(&small_capture());
    assert_eq!(average_packet(&r), 62);
    assert_eq!(average_packet(&report(b"")), 0);
    assert_eq!(moment_text(None), "-");
    assert_eq!(moment_text(Some(Binary64::whole(1))), "1970-01-01 00:00:01 UTC");
}

#[test]
fn verdict_takes_the_worst_level() {
    let k = |level| Check {
        level,
        label: String::new(),
        detail: String::new(),
    };
    assert_eq!(verdict_on(&vec![]), Intake::Accept);
    assert_eq!(verdict_on(&vec![k(Level::Pass), k(Level::Info)]), Intake::Accept);
    assert_eq!(verdict_on(&vec![k(Level::Warn), k(Level::Pass)]), Intake::Review);
    assert_eq!(verdict_on(&vec![k(Level::Warn), k(Level::Fail)]), Intake::Reject);
}

#[test]
fn criteria_have_sources() {
    assert_eq!(
        finding_source("Capture source"),
        "corpus study (host vs mirror captures separate cleanly); packet-foo.com"
    );
    assert_eq!(finding_source("Format"), "pcap/pcapng file format (IETF opsawg pcapng draft; libpcap)");
    assert!(finding_source("Full-packet capture (-s 0)").starts_with("tcpdump(1)"));
    assert_eq!(finding_source("capture source"), "");
    assert_eq!(finding_source(""), "");
    // every criterion of a report has one
    for data in [small_capture(), b"nothing".to_vec()] {
        for k in &report(&data).checks {
            assert_ne!(finding_source(&k.label), "", "{}", k.label);
        }
    }
    assert!(finding_source("No capture drops (TCP seq)").starts_with("RFC 9293 (TCP) §3.4"));
    assert!(finding_source("TCP session coverage").starts_with("RFC 9293 (TCP) §3.5"));
    assert!(finding_source("Size ≤ 1 MB per file").starts_with("PCAP Collection Guide"));
    assert!(finding_source("Representative x").starts_with("packet-foo.com"));
    assert!(finding_source("Multiple end devices").starts_with("Wireshark Wiki"));
    assert!(finding_source("Container integrity").starts_with("libpcap"));
}

#[test]
fn report_numbers_start_with_the_digest() {
    let r = report(b"nothing");
    let number = |sha: &str| {
        let text = markdown_report("n", sha, &r, NOW);
        let start = text.find("`PC-20231114-").unwrap() + 13;
        text[start..start + text[start..].find('`').unwrap()].to_string()
    };
    assert_eq!(number("deadbeef00"), "DEADBEEF");
    assert_eq!(number("deadbee"), "", "too short");
    assert_eq!(number("äöüß-"), "ÄÖÜSS", "eight bytes, in upper case");
    assert_eq!(number("aäöüß"), "", "the eighth byte is within a character");
}
