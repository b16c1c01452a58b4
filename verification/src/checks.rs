//! The collection criteria and the verdict that follows from them.

use vstd::prelude::*;

use crate::binary64::Binary64;
#[allow(unused_imports)]
use crate::binary64::{less, quotient, whole};
use crate::config::{Config, MEBIBYTE};
#[allow(unused_imports)]
use crate::config::Settings;
use crate::figures::human_bytes;
#[allow(unused_imports)]
use crate::figures::bytes_text;
#[allow(unused_imports)]
use crate::frame::Format;
use crate::report::{Check, Intake, Level, Report};
#[allow(unused_imports)]
use crate::report::{checks_view, CheckModel, ReportModel};
use crate::text::push_decimal;
#[allow(unused_imports)]
use crate::text::decimal;
use crate::time::human_dur;
#[allow(unused_imports)]
use crate::time::dur_text;
use crate::words::{chars_of, starts_with_word};
#[allow(unused_imports)]
use crate::words::has_prefix;

verus! {

/// The container is a pcap or pcapng file.
pub open spec fn format_check(r: ReportModel) -> CheckModel {
    let known = r.format != Format::Unknown;
    CheckModel {
        level: if known {
            Level::Pass
        } else {
            Level::Fail
        },
        label: "Format .pcap / .pcapng"@,
        detail: if known {
            r.format.spec_upper_name() + " container ("@ + r.linktype + ")"@
        } else {
            "Not a pcap/pcapng file"@
        },
    }
}

/// At least 99.9 percent of the file were parsed, to its end.
pub open spec fn is_intact(r: ReportModel) -> bool {
    !less(r.score, quotient(whole(999), whole(10))) && r.clean
}

/// The container was parsed to its end.
pub open spec fn integrity_check(r: ReportModel) -> CheckModel {
    CheckModel {
        level: if is_intact(r) {
            Level::Pass
        } else {
            Level::Fail
        },
        label: "Container integrity"@,
        detail: if is_intact(r) {
            "Parsed cleanly to end of file"@
        } else {
            r.note
        },
    }
}

/// No frame was truncated, and the snap length allows for full frames.
pub open spec fn frames_check(r: ReportModel, c: Settings) -> CheckModel {
    let snap_ok = r.snaplen == 0 || r.snaplen >= c.full_snaplen;
    let (level, detail) = if r.truncated_pkts > 0 {
        (
            Level::Fail,
            decimal(r.truncated_pkts) + " of "@ + decimal(r.packets)
                + " packets truncated — recapture with -s 0 (full frames)"@,
        )
    } else if !snap_ok {
        (
            Level::Warn,
            "snaplen "@ + decimal(r.snaplen as nat) + " < "@ + decimal(c.full_snaplen as nat)
                + " — set -s 0 to capture full frames"@,
        )
    } else if r.snaplen == 0 {
        (Level::Pass, "Full frames (unlimited snaplen)"@)
    } else {
        (Level::Pass, "Full frames (snaplen "@ + decimal(r.snaplen as nat) + ")"@)
    };
    CheckModel { level, label: "Full-packet capture (-s 0)"@, detail }
}

/// The size limit in whole mebibytes.
pub open spec fn limit_mb(c: Settings) -> nat {
    (c.size_limit / MEBIBYTE) as nat
}

/// The file is neither over the limit nor too small to be representative.
pub open spec fn size_check(r: ReportModel, c: Settings) -> CheckModel {
    let mb = decimal(limit_mb(c));
    let (level, detail) = if r.total > c.size_limit {
        (Level::Warn, bytes_text(r.total) + " — exceeds "@ + mb + " MB, split with -C "@ + mb)
    } else if r.total < 65_536 {
        (Level::Warn, "Only "@ + bytes_text(r.total) + " — capture longer for representative traffic"@)
    } else {
        (Level::Pass, bytes_text(r.total) + " — within the "@ + mb + " MB guideline"@)
    };
    CheckModel { level, label: "Size ≤ "@ + mb + " MB per file"@, detail }
}

/// Enough devices were seen.
pub open spec fn devices_check(r: ReportModel, c: Settings) -> CheckModel {
    let (level, detail) = if r.src_macs < c.devices_warn {
        (Level::Fail, "≤1 source device seen — check SPAN/mirror port & promiscuous mode"@)
    } else if r.src_macs < c.devices_ok {
        (Level::Warn, decimal(r.src_macs) + " devices — few endpoints, add more capture points"@)
    } else {
        (
            Level::Pass,
            decimal(r.src_macs) + " distinct devices, "@ + decimal(r.ip_addrs) + " IP addresses"@,
        )
    };
    CheckModel { level, label: "Multiple end devices"@, detail }
}

/// The capture is long enough.
pub open spec fn window_check(r: ReportModel, c: Settings) -> CheckModel {
    let (level, detail) = if r.span < c.duration_min {
        (Level::Warn, "Only "@ + dur_text(r.duration) + " — capture a longer window"@)
    } else {
        (Level::Pass, "Spans "@ + dur_text(r.duration))
    };
    CheckModel { level, label: "Representative time window"@, detail }
}

/// No segment that the endpoints exchanged is missing from the file.
pub open spec fn drops_check(r: ReportModel) -> CheckModel {
    let s = r.stats;
    let (level, detail) = if s.seq_gaps + s.acked_unseen == 0 {
        (
            Level::Pass,
            decimal(s.tcp_flows)
                + " TCP sessions, no sequence gaps or ACKed-unseen segments — capture is byte-complete"@,
        )
    } else {
        (
            Level::Warn,
            decimal(s.seq_gaps) + " sequence gaps + "@ + decimal(s.acked_unseen) + " ACKed-unseen segments across "@
                + decimal(s.tcp_flows)
                + " TCP sessions — segment(s) missing from the file (capture/SPAN drop). Recapture at a point that sees full throughput."@,
        )
    };
    CheckModel { level, label: "No capture drops (TCP seq)"@, detail }
}

/// How much of the handshakes the capture holds.
pub open spec fn coverage_check(r: ReportModel) -> CheckModel {
    let s = r.stats;
    CheckModel {
        level: Level::Info,
        label: "TCP session coverage"@,
        detail: decimal(s.hs_complete) + " complete handshake, "@ + decimal(s.hs_syn_only)
            + " SYN-only (one-directional capture?), "@ + decimal(s.hs_midstream)
            + " mid-stream (capture started late)"@,
    }
}

/// At least one percent of the frames are larger than any frame on the wire.
pub open spec fn is_offloaded(r: ReportModel) -> bool {
    r.packets > 0 && !less(quotient(whole(r.stats.oversize), whole(r.packets)), quotient(whole(1), whole(100)))
}

/// Where the capture most likely came from.
pub open spec fn source_check(r: ReportModel) -> CheckModel {
    let s = r.stats;
    let (src, why) = if s.erspan > 0 || s.gre > 0 || s.vxlan > 0 {
        ("tunnel mirror (ERSPAN/GRE/VXLAN)"@, "encapsulated remote SPAN — expect MTU truncation and drops"@)
    } else if is_offloaded(r) {
        (
            "host capture (endpoint tcpdump/Wireshark)"@,
            "NIC offload super-frames present — captured on an endpoint, not a TAP"@,
        )
    } else if r.snaplen == 262_144 {
        ("host capture (tcpdump/dumpcap default)"@, "snaplen 262144 is the tcpdump/dumpcap -s0 default"@)
    } else {
        ("local SPAN / unknown"@, "no tunnel and no host-capture signature"@)
    };
    CheckModel {
        level: Level::Info,
        label: "Capture source"@,
        detail: src + " — "@ + why + " (fingerprint from metadata, not a device verdict)"@,
    }
}

/// The criteria that apply to a capture, in the order of the guide.
pub open spec fn all_checks(r: ReportModel, c: Settings) -> Seq<CheckModel> {
    let known = r.format != Format::Unknown;
    let first = seq![format_check(r), integrity_check(r)];
    let second = if known {
        first.push(frames_check(r, c)).push(size_check(r, c)).push(devices_check(r, c))
    } else {
        first
    };
    let third = if known && r.has_time {
        second.push(window_check(r, c))
    } else {
        second
    };
    let fourth = if known && r.stats.tcp_flows > 0 {
        third.push(drops_check(r)).push(coverage_check(r))
    } else {
        third
    };
    if known {
        fourth.push(source_check(r))
    } else {
        fourth
    }
}

/// Whether some criterion came out at `level`.
pub open spec fn has_level(checks: Seq<CheckModel>, level: Level) -> bool {
    exists|i: int| 0 <= i < checks.len() && (#[trigger] checks[i]).level == level
}

/// The verdict on the criteria: one failure rejects, one deviation asks for a review.
pub open spec fn verdict(checks: Seq<CheckModel>) -> Intake {
    if has_level(checks, Level::Fail) {
        Intake::Reject
    } else if has_level(checks, Level::Warn) {
        Intake::Review
    } else {
        Intake::Accept
    }
}

/// The report with its criteria evaluated.
pub open spec fn with_checks(r: ReportModel, c: Settings) -> ReportModel {
    ReportModel { checks: all_checks(r, c), intake: verdict(all_checks(r, c)), ..r }
}

fn check(level: Level, label: &str, detail: String) -> (r: Check)
    ensures
        r@ == (CheckModel { level, label: label@, detail: detail@ }),
{
    Check { level, label: String::from_str(label), detail }
}

fn check_format(r: &Report) -> (k: Check)
    ensures
        k@ == format_check(r@),
{
    if r.format.is_known() {
        let mut out = String::from_str(r.format.upper_name());
        out.append(" container (");
        out.append(r.linktype.as_str());
        out.append(")");
        check(Level::Pass, "Format .pcap / .pcapng", out)
    } else {
        check(Level::Fail, "Format .pcap / .pcapng", String::from_str("Not a pcap/pcapng file"))
    }
}

fn check_integrity(r: &Report) -> (k: Check)
    ensures
        k@ == integrity_check(r@),
{
    let least: Binary64 = Binary64::whole(999).over(Binary64::whole(10));
    if !r.score.is_less(least) && r.clean {
        check(Level::Pass, "Container integrity", String::from_str("Parsed cleanly to end of file"))
    } else {
        check(Level::Fail, "Container integrity", r.note.clone())
    }
}

fn check_frames(r: &Report, c: &Config) -> (k: Check)
    ensures
        k@ == frames_check(r@, c@),
{
    let label = "Full-packet capture (-s 0)";
    if r.truncated_pkts > 0 {
        let mut out = String::new();
        push_decimal(&mut out, r.truncated_pkts as u128);
        assert(out@ =~= decimal(r.truncated_pkts as nat));
        out.append(" of ");
        push_decimal(&mut out, r.packets as u128);
        out.append(" packets truncated — recapture with -s 0 (full frames)");
        check(Level::Fail, label, out)
    } else if !(r.snaplen == 0 || r.snaplen >= c.full_snaplen) {
        let mut out = String::from_str("snaplen ");
        push_decimal(&mut out, r.snaplen as u128);
        out.append(" < ");
        push_decimal(&mut out, c.full_snaplen as u128);
        out.append(" — set -s 0 to capture full frames");
        check(Level::Warn, label, out)
    } else if r.snaplen == 0 {
        check(Level::Pass, label, String::from_str("Full frames (unlimited snaplen)"))
    } else {
        let mut out = String::from_str("Full frames (snaplen ");
        push_decimal(&mut out, r.snaplen as u128);
        out.append(")");
        check(Level::Pass, label, out)
    }
}

fn check_size(r: &Report, c: &Config) -> (k: Check)
    ensures
        k@ == size_check(r@, c@),
{
    let mb: u128 = (c.size_limit / MEBIBYTE) as u128;
    let mut label = String::from_str("Size ≤ ");
    push_decimal(&mut label, mb);
    label.append(" MB per file");
    if r.total > c.size_limit {
        let mut out = human_bytes(r.total);
        out.append(" — exceeds ");
        push_decimal(&mut out, mb);
        out.append(" MB, split with -C ");
        push_decimal(&mut out, mb);
        check(Level::Warn, label.as_str(), out)
    } else if r.total < 65_536 {
        let mut out = String::from_str("Only ");
        let size = human_bytes(r.total);
        out.append(size.as_str());
        out.append(" — capture longer for representative traffic");
        check(Level::Warn, label.as_str(), out)
    } else {
        let mut out = human_bytes(r.total);
        out.append(" — within the ");
        push_decimal(&mut out, mb);
        out.append(" MB guideline");
        check(Level::Pass, label.as_str(), out)
    }
}

fn check_devices(r: &Report, c: &Config) -> (k: Check)
    ensures
        k@ == devices_check(r@, c@),
{
    let label = "Multiple end devices";
    if r.src_macs < c.devices_warn {
        check(
            Level::Fail,
            label,
            String::from_str("≤1 source device seen — check SPAN/mirror port & promiscuous mode"),
        )
    } else if r.src_macs < c.devices_ok {
        let mut out = String::new();
        push_decimal(&mut out, r.src_macs as u128);
        assert(out@ =~= decimal(r.src_macs as nat));
        out.append(" devices — few endpoints, add more capture points");
        check(Level::Warn, label, out)
    } else {
        let mut out = String::new();
        push_decimal(&mut out, r.src_macs as u128);
        assert(out@ =~= decimal(r.src_macs as nat));
        out.append(" distinct devices, ");
        push_decimal(&mut out, r.ip_addrs as u128);
        out.append(" IP addresses");
        check(Level::Pass, label, out)
    }
}

fn check_window(r: &Report, c: &Config) -> (k: Check)
    ensures
        k@ == window_check(r@, c@),
{
    let label = "Representative time window";
    let span = human_dur(r.duration);
    if c.duration_min > 0 && r.span < c.duration_min as u128 {
        let mut out = String::from_str("Only ");
        out.append(span.as_str());
        out.append(" — capture a longer window");
        check(Level::Warn, label, out)
    } else {
        let mut out = String::from_str("Spans ");
        out.append(span.as_str());
        check(Level::Pass, label, out)
    }
}

fn check_drops(r: &Report) -> (k: Check)
    ensures
        k@ == drops_check(r@),
{
    let label = "No capture drops (TCP seq)";
    let s = &r.stats;
    let mut out = String::new();
    if s.seq_gaps == 0 && s.acked_unseen == 0 {
        push_decimal(&mut out, s.tcp_flows as u128);
        assert(out@ =~= decimal(s.tcp_flows as nat));
        out.append(" TCP sessions, no sequence gaps or ACKed-unseen segments — capture is byte-complete");
        check(Level::Pass, label, out)
    } else {
        push_decimal(&mut out, s.seq_gaps as u128);
        assert(out@ =~= decimal(s.seq_gaps as nat));
        out.append(" sequence gaps + ");
        push_decimal(&mut out, s.acked_unseen as u128);
        out.append(" ACKed-unseen segments across ");
        push_decimal(&mut out, s.tcp_flows as u128);
        out.append(
            " TCP sessions — segment(s) missing from the file (capture/SPAN drop). Recapture at a point that sees full throughput.",
        );
        check(Level::Warn, label, out)
    }
}

fn check_coverage(r: &Report) -> (k: Check)
    ensures
        k@ == coverage_check(r@),
{
    let s = &r.stats;
    let mut out = String::new();
    push_decimal(&mut out, s.hs_complete as u128);
    assert(out@ =~= decimal(s.hs_complete as nat));
    out.append(" complete handshake, ");
    push_decimal(&mut out, s.hs_syn_only as u128);
    out.append(" SYN-only (one-directional capture?), ");
    push_decimal(&mut out, s.hs_midstream as u128);
    out.append(" mid-stream (capture started late)");
    check(Level::Info, "TCP session coverage", out)
}

fn offloaded(r: &Report) -> (k: bool)
    ensures
        k == is_offloaded(r@),
{
    if r.packets == 0 {
        return false;
    }
    let share: Binary64 = Binary64::whole(r.stats.oversize as u128).over(Binary64::whole(r.packets as u128));
    let least: Binary64 = Binary64::whole(1).over(Binary64::whole(100));
    !share.is_less(least)
}

fn check_source(r: &Report) -> (k: Check)
    ensures
        k@ == source_check(r@),
{
    let s = &r.stats;
    let (src, why): (&'static str, &'static str) = if s.erspan > 0 || s.gre > 0 || s.vxlan > 0 {
        ("tunnel mirror (ERSPAN/GRE/VXLAN)", "encapsulated remote SPAN — expect MTU truncation and drops")
    } else if offloaded(r) {
        (
            "host capture (endpoint tcpdump/Wireshark)",
            "NIC offload super-frames present — captured on an endpoint, not a TAP",
        )
    } else if r.snaplen == 262_144 {
        ("host capture (tcpdump/dumpcap default)", "snaplen 262144 is the tcpdump/dumpcap -s0 default")
    } else {
        ("local SPAN / unknown", "no tunnel and no host-capture signature")
    };
    let mut out = String::from_str(src);
    out.append(" — ");
    out.append(why);
    out.append(" (fingerprint from metadata, not a device verdict)");
    check(Level::Info, "Capture source", out)
}

/// The verdict on the criteria.
pub fn verdict_on(checks: &Vec<Check>) -> (r: Intake)
    ensures
        r == verdict(checks_view(checks@)),
{
    let n: usize = checks.len();
    let mut fail = false;
    let mut warn = false;
    let mut i: usize = 0;
    let ghost view = checks_view(checks@);
    while i < n
        invariant
            i <= n,
            n == checks@.len(),
            view == checks_view(checks@),
            fail <==> exists|j: int| 0 <= j < i && (#[trigger] view[j]).level == Level::Fail,
            warn <==> exists|j: int| 0 <= j < i && (#[trigger] view[j]).level == Level::Warn,
        decreases n - i,
    {
        assert(view[i as int] == checks@[i as int]@);
        match checks[i].level {
            Level::Fail => {
                fail = true;
            },
            Level::Warn => {
                warn = true;
            },
            _ => {},
        }
        i = i + 1;
    }
    if fail {
        Intake::Reject
    } else if warn {
        Intake::Review
    } else {
        Intake::Accept
    }
}

/// Evaluates every collection criterion and sets the verdict.
pub fn build_checks(r: &mut Report, c: &Config)
    ensures
        final(r)@ == with_checks(old(r)@, c@),
        final(r)@.checks.len() <= 9,
{
    let known: bool = r.format.is_known();
    let mut list: Vec<Check> = Vec::new();
    list.push(check_format(r));
    list.push(check_integrity(r));
    if known {
        list.push(check_frames(r, c));
        list.push(check_size(r, c));
        list.push(check_devices(r, c));
        if r.has_time {
            list.push(check_window(r, c));
        }
        if r.stats.tcp_flows > 0 {
            list.push(check_drops(r));
            list.push(check_coverage(r));
        }
        list.push(check_source(r));
    }
    assert(checks_view(list@) =~= all_checks(r@, c@));
    r.intake = verdict_on(&list);
    r.checks = list;
    assert(r@ =~= with_checks(old(r)@, c@));
}

/// The authority behind a criterion.
pub open spec fn source_text(label: Seq<char>) -> Seq<char> {
    if has_prefix(label, "Format"@) {
        "pcap/pcapng file format (IETF opsawg pcapng draft; libpcap)"@
    } else if has_prefix(label, "Container integrity"@) {
        "libpcap/pcapng block structure; pcapfix"@
    } else if has_prefix(label, "Full-packet"@) {
        "tcpdump(1) snaplen (-s 0); SANS ISC — snaplen truncation"@
    } else if has_prefix(label, "Size"@) {
        "PCAP Collection Guide (per-file size); packet-foo.com capture playbook"@
    } else if has_prefix(label, "Multiple end devices"@) {
        "Wireshark Wiki — SPAN/mirror & promiscuous mode; Security Onion sniffing pitfalls"@
    } else if has_prefix(label, "Representative"@) {
        "packet-foo.com capture playbook (representative window)"@
    } else if has_prefix(label, "No capture drops"@) {
        "RFC 9293 (TCP) §3.4; Wireshark Expert 'ACKed segment that wasn't captured' / 'previous segment not captured'; Zeek capture_loss.log"@
    } else if has_prefix(label, "TCP session coverage"@) {
        "RFC 9293 (TCP) §3.5 three-way handshake; Wireshark tcp.analysis"@
    } else if has_prefix(label, "Capture source"@) {
        "corpus study (host vs mirror captures separate cleanly); packet-foo.com"@
    } else {
        ""@
    }
}

/// The authority (RFC, vendor, expert) behind a criterion, so that a reader can
/// verify the reasoning; empty where there is none.
pub fn finding_source(label: &str) -> (r: &'static str)
    ensures
        r@ == source_text(label@),
{
    let label: Vec<char> = chars_of(label);
    let l = label.as_slice();
    if starts_with_word(l, "Format") {
        "pcap/pcapng file format (IETF opsawg pcapng draft; libpcap)"
    } else if starts_with_word(l, "Container integrity") {
        "libpcap/pcapng block structure; pcapfix"
    } else if starts_with_word(l, "Full-packet") {
        "tcpdump(1) snaplen (-s 0); SANS ISC — snaplen truncation"
    } else if starts_with_word(l, "Size") {
        "PCAP Collection Guide (per-file size); packet-foo.com capture playbook"
    } else if starts_with_word(l, "Multiple end devices") {
        "Wireshark Wiki — SPAN/mirror & promiscuous mode; Security Onion sniffing pitfalls"
    } else if starts_with_word(l, "Representative") {
        "packet-foo.com capture playbook (representative window)"
    } else if starts_with_word(l, "No capture drops") {
        "RFC 9293 (TCP) §3.4; Wireshark Expert 'ACKed segment that wasn't captured' / 'previous segment not captured'; Zeek capture_loss.log"
    } else if starts_with_word(l, "TCP session coverage") {
        "RFC 9293 (TCP) §3.5 three-way handshake; Wireshark tcp.analysis"
    } else if starts_with_word(l, "Capture source") {
        "corpus study (host vs mirror captures separate cleanly); packet-foo.com"
    } else {
        ""
    }
}

/// A label that starts as that of a criterion does has a source.
proof fn lemma_has_source(label: Seq<char>)
    requires
        has_prefix(label, "Format"@) || has_prefix(label, "Container integrity"@) || has_prefix(label, "Full-packet"@)
            || has_prefix(label, "Size"@) || has_prefix(label, "Multiple end devices"@) || has_prefix(
            label,
            "Representative"@,
        ) || has_prefix(label, "No capture drops"@) || has_prefix(label, "TCP session coverage"@) || has_prefix(
            label,
            "Capture source"@,
        ),
    ensures
        source_text(label).len() > 0,
{
    reveal_strlit("pcap/pcapng file format (IETF opsawg pcapng draft; libpcap)");
    reveal_strlit("libpcap/pcapng block structure; pcapfix");
    reveal_strlit("tcpdump(1) snaplen (-s 0); SANS ISC — snaplen truncation");
    reveal_strlit("PCAP Collection Guide (per-file size); packet-foo.com capture playbook");
    reveal_strlit("Wireshark Wiki — SPAN/mirror & promiscuous mode; Security Onion sniffing pitfalls");
    reveal_strlit("packet-foo.com capture playbook (representative window)");
    reveal_strlit(
        "RFC 9293 (TCP) §3.4; Wireshark Expert 'ACKed segment that wasn't captured' / 'previous segment not captured'; Zeek capture_loss.log",
    );
    reveal_strlit("RFC 9293 (TCP) §3.5 three-way handshake; Wireshark tcp.analysis");
    reveal_strlit("corpus study (host vs mirror captures separate cleanly); packet-foo.com");
}

/// Every criterion of a report carries its source.
pub proof fn law_every_criterion_has_a_source(r: ReportModel, c: Settings)
    ensures
        forall|i: int|
            0 <= i < all_checks(r, c).len() ==> source_text((#[trigger] all_checks(r, c)[i]).label).len() > 0,
{
    assert forall|i: int| 0 <= i < all_checks(r, c).len() implies source_text(
        (#[trigger] all_checks(r, c)[i]).label,
    ).len() > 0 by {
        let k = all_checks(r, c)[i];
        assert(k == format_check(r) || k == integrity_check(r) || k == frames_check(r, c) || k == size_check(r, c) || k
            == devices_check(r, c) || k == window_check(r, c) || k == drops_check(r) || k == coverage_check(r) || k
            == source_check(r));
        lemma_labels(r, c);
        lemma_has_source(k.label);
    }
}

/// How the labels of the criteria start.
proof fn lemma_labels(r: ReportModel, c: Settings)
    ensures
        has_prefix(format_check(r).label, "Format"@),
        has_prefix(integrity_check(r).label, "Container integrity"@),
        has_prefix(frames_check(r, c).label, "Full-packet"@),
        has_prefix(size_check(r, c).label, "Size"@),
        has_prefix(devices_check(r, c).label, "Multiple end devices"@),
        has_prefix(window_check(r, c).label, "Representative"@),
        has_prefix(drops_check(r).label, "No capture drops"@),
        has_prefix(coverage_check(r).label, "TCP session coverage"@),
        has_prefix(source_check(r).label, "Capture source"@),
{
    reveal_strlit("Format");
    reveal_strlit("Format .pcap / .pcapng");
    reveal_strlit("Container integrity");
    reveal_strlit("Full-packet");
    reveal_strlit("Full-packet capture (-s 0)");
    reveal_strlit("Size");
    reveal_strlit("Size ≤ ");
    reveal_strlit("Multiple end devices");
    reveal_strlit("Representative");
    reveal_strlit("Representative time window");
    reveal_strlit("No capture drops");
    reveal_strlit("No capture drops (TCP seq)");
    reveal_strlit("TCP session coverage");
    reveal_strlit("Capture source");
    assert("Format .pcap / .pcapng"@.take(6) =~= "Format"@);
    assert("Container integrity"@.take(19) =~= "Container integrity"@);
    assert("Full-packet capture (-s 0)"@.take(11) =~= "Full-packet"@);
    assert(size_check(r, c).label.take(4) =~= "Size"@);
    assert("Multiple end devices"@.take(20) =~= "Multiple end devices"@);
    assert("Representative time window"@.take(14) =~= "Representative"@);
    assert("No capture drops (TCP seq)"@.take(16) =~= "No capture drops"@);
    assert("TCP session coverage"@.take(20) =~= "TCP session coverage"@);
    assert("Capture source"@.take(14) =~= "Capture source"@);
}

/// What the criteria remark: the figures that they were held against.
pub proof fn law_remarks(r: ReportModel, c: Settings)
    requires
        r.format != Format::Unknown,
    ensures
        ({
            let k = with_checks(r, c).checks;
            let mb = decimal((c.size_limit / 1_048_576) as nat);
            &&& k[0].detail == (if r.format == Format::Pcap {
                "PCAP"@
            } else {
                "PCAPNG"@
            }) + " container ("@ + r.linktype + ")"@
            &&& r.truncated_pkts > 0 ==> k[2].detail == decimal(r.truncated_pkts) + " of "@ + decimal(r.packets)
                + " packets truncated — recapture with -s 0 (full frames)"@
            &&& r.truncated_pkts == 0 && 0 < r.snaplen < c.full_snaplen ==> k[2].detail == "snaplen "@ + decimal(
                r.snaplen as nat,
            ) + " < "@ + decimal(c.full_snaplen as nat) + " — set -s 0 to capture full frames"@
            &&& r.truncated_pkts == 0 && r.snaplen == 0 ==> k[2].detail == "Full frames (unlimited snaplen)"@
            &&& r.truncated_pkts == 0 && 0 < r.snaplen && c.full_snaplen <= r.snaplen ==> k[2].detail
                == "Full frames (snaplen "@ + decimal(r.snaplen as nat) + ")"@
            &&& r.total > c.size_limit ==> k[3].detail == bytes_text(r.total) + " — exceeds "@ + mb
                + " MB, split with -C "@ + mb
            &&& r.total <= c.size_limit && r.total < 65_536 ==> k[3].detail == "Only "@ + bytes_text(r.total)
                + " — capture longer for representative traffic"@
            &&& 65_536 <= r.total <= c.size_limit ==> k[3].detail == bytes_text(r.total) + " — within the "@ + mb
                + " MB guideline"@
            &&& r.src_macs < c.devices_warn ==> k[4].detail
                == "≤1 source device seen — check SPAN/mirror port & promiscuous mode"@
            &&& c.devices_warn <= r.src_macs < c.devices_ok ==> k[4].detail == decimal(r.src_macs)
                + " devices — few endpoints, add more capture points"@
            &&& c.devices_warn <= r.src_macs && c.devices_ok <= r.src_macs ==> k[4].detail == decimal(r.src_macs)
                + " distinct devices, "@ + decimal(r.ip_addrs) + " IP addresses"@
            &&& r.has_time && r.span < c.duration_min ==> k[5].detail == "Only "@ + dur_text(r.duration)
                + " — capture a longer window"@
            &&& r.has_time && r.span >= c.duration_min ==> k[5].detail == "Spans "@ + dur_text(r.duration)
        }),
{
}

/// What is remarked on the TCP sessions: how many there are, what is missing from them,
/// and how much of their handshakes was captured.
pub proof fn law_remarks_on_sessions(r: ReportModel, c: Settings)
    requires
        r.format != Format::Unknown,
        r.stats.tcp_flows > 0,
    ensures
        ({
            let k = with_checks(r, c).checks;
            let n = k.len();
            let s = r.stats;
            &&& s.seq_gaps == 0 && s.acked_unseen == 0 ==> k[n - 3].detail == decimal(s.tcp_flows)
                + " TCP sessions, no sequence gaps or ACKed-unseen segments — capture is byte-complete"@
            &&& s.seq_gaps > 0 || s.acked_unseen > 0 ==> k[n - 3].detail == decimal(s.seq_gaps) + " sequence gaps + "@
                + decimal(s.acked_unseen) + " ACKed-unseen segments across "@ + decimal(s.tcp_flows)
                + " TCP sessions — segment(s) missing from the file (capture/SPAN drop). Recapture at a point that sees full throughput."@
            &&& k[n - 2].detail == decimal(s.hs_complete) + " complete handshake, "@ + decimal(s.hs_syn_only)
                + " SYN-only (one-directional capture?), "@ + decimal(s.hs_midstream)
                + " mid-stream (capture started late)"@
        }),
{
}

/// A text that differs from a word in one place does not start with it.
proof fn lemma_other_prefix(label: Seq<char>, p: Seq<char>, i: int)
    requires
        0 <= i < p.len(),
        i < label.len() ==> label[i] != p[i],
    ensures
        !has_prefix(label, p),
{
    if has_prefix(label, p) {
        assert(label.take(p.len() as int)[i] == label[i]);
    }
}

/// The authority behind each criterion.
#[verifier::rlimit(30)]
pub proof fn law_sources(r: ReportModel, c: Settings)
    ensures
        source_text(format_check(r).label) == "pcap/pcapng file format (IETF opsawg pcapng draft; libpcap)"@,
        source_text(integrity_check(r).label) == "libpcap/pcapng block structure; pcapfix"@,
        source_text(frames_check(r, c).label) == "tcpdump(1) snaplen (-s 0); SANS ISC — snaplen truncation"@,
        source_text(size_check(r, c).label)
            == "PCAP Collection Guide (per-file size); packet-foo.com capture playbook"@,
        source_text(devices_check(r, c).label)
            == "Wireshark Wiki — SPAN/mirror & promiscuous mode; Security Onion sniffing pitfalls"@,
        source_text(window_check(r, c).label) == "packet-foo.com capture playbook (representative window)"@,
        source_text(drops_check(r).label)
            == "RFC 9293 (TCP) §3.4; Wireshark Expert 'ACKed segment that wasn't captured' / 'previous segment not captured'; Zeek capture_loss.log"@,
        source_text(coverage_check(r).label) == "RFC 9293 (TCP) §3.5 three-way handshake; Wireshark tcp.analysis"@,
        source_text(source_check(r).label)
            == "corpus study (host vs mirror captures separate cleanly); packet-foo.com"@,
{
    lemma_labels(r, c);
    lemma_first_letters();
    let full = frames_check(r, c).label;
    lemma_other_prefix(integrity_check(r).label, "Format"@, 0);
    lemma_other_prefix(full, "Format"@, 1);
    lemma_other_prefix(full, "Container integrity"@, 0);
    let size = size_check(r, c).label;
    reveal_strlit("Size ≤ ");
    assert(size[0] == 'S');
    lemma_not_earlier(size);
    let devices = devices_check(r, c).label;
    lemma_not_earlier(devices);
    lemma_other_prefix(devices, "Size"@, 0);
    let window = window_check(r, c).label;
    lemma_not_earlier(window);
    lemma_other_prefix(window, "Size"@, 0);
    lemma_other_prefix(window, "Multiple end devices"@, 0);
    let drops = drops_check(r).label;
    lemma_not_earlier(drops);
    lemma_other_prefix(drops, "Size"@, 0);
    lemma_other_prefix(drops, "Multiple end devices"@, 0);
    lemma_other_prefix(drops, "Representative"@, 0);
    let coverage = coverage_check(r).label;
    lemma_not_earlier(coverage);
    lemma_other_prefix(coverage, "Size"@, 0);
    lemma_other_prefix(coverage, "Multiple end devices"@, 0);
    lemma_other_prefix(coverage, "Representative"@, 0);
    lemma_other_prefix(coverage, "No capture drops"@, 0);
    let source = source_check(r).label;
    lemma_other_prefix(source, "Format"@, 0);
    lemma_other_prefix(source, "Container integrity"@, 1);
    lemma_other_prefix(source, "Full-packet"@, 0);
    lemma_other_prefix(source, "Size"@, 0);
    lemma_other_prefix(source, "Multiple end devices"@, 0);
    lemma_other_prefix(source, "Representative"@, 0);
    lemma_other_prefix(source, "No capture drops"@, 0);
    lemma_other_prefix(source, "TCP session coverage"@, 0);
}

proof fn lemma_first_letters()
    ensures
        "Format"@.len() == 6 && "Format"@[0] == 'F' && "Format"@[1] == 'o',
        "Container integrity"@.len() == 19 && "Container integrity"@[0] == 'C' && "Container integrity"@[1] == 'o',
        "Full-packet"@.len() == 11 && "Full-packet"@[0] == 'F',
        "Size"@.len() == 4 && "Size"@[0] == 'S',
        "Multiple end devices"@.len() == 20 && "Multiple end devices"@[0] == 'M',
        "Representative"@.len() == 14 && "Representative"@[0] == 'R',
        "No capture drops"@.len() == 16 && "No capture drops"@[0] == 'N',
        "TCP session coverage"@.len() == 20 && "TCP session coverage"@[0] == 'T',
        "Capture source"@[0] == 'C' && "Capture source"@[1] == 'a',
        "Full-packet capture (-s 0)"@[0] == 'F' && "Full-packet capture (-s 0)"@[1] == 'u',
        "Representative time window"@[0] == 'R',
        "No capture drops (TCP seq)"@[0] == 'N',
{
    reveal_strlit("Format");
    reveal_strlit("Container integrity");
    reveal_strlit("Full-packet");
    reveal_strlit("Full-packet capture (-s 0)");
    reveal_strlit("Size");
    reveal_strlit("Multiple end devices");
    reveal_strlit("Representative");
    reveal_strlit("Representative time window");
    reveal_strlit("No capture drops");
    reveal_strlit("No capture drops (TCP seq)");
    reveal_strlit("TCP session coverage");
    reveal_strlit("Capture source");
}

/// A label that starts with another letter is not that of the container or of frames.
proof fn lemma_not_earlier(label: Seq<char>)
    requires
        label.len() > 0,
        label[0] != 'F',
        label[0] != 'C',
    ensures
        !has_prefix(label, "Format"@),
        !has_prefix(label, "Container integrity"@),
        !has_prefix(label, "Full-packet"@),
{
    lemma_first_letters();
    lemma_other_prefix(label, "Format"@, 0);
    lemma_other_prefix(label, "Container integrity"@, 0);
    lemma_other_prefix(label, "Full-packet"@, 0);
}

} // verus!
