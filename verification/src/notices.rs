//! Findings on the quality of a capture, and the conformance score.

use vstd::prelude::*;

use crate::binary64::Binary64;
#[allow(unused_imports)]
use crate::binary64::{fixed, half_up, less, whole};
#[allow(unused_imports)]
use crate::checks::{
    all_checks, devices_check, drops_check, format_check, frames_check, has_level, integrity_check, is_intact, verdict, with_checks,
};
use crate::config::Config;
#[allow(unused_imports)]
use crate::config::Settings;
use crate::figures::{conformance, percent_of, units_in};
#[allow(unused_imports)]
use crate::figures::{conformance_of, percent, units_of};
#[allow(unused_imports)]
use crate::frame::Format;
use crate::report::{Check, Intake, Level, Notice, Report};
#[allow(unused_imports)]
use crate::report::{checks_view, notices_view, CheckModel, NoticeModel, ReportModel};
#[allow(unused_imports)]
use crate::stats::Tally;
use crate::text::{grp, push_decimal};
#[allow(unused_imports)]
use crate::text::{decimal, grouped};
#[allow(unused_imports)]
use crate::words::has_prefix;

verus! {

/// `part` of `total` in whole percent, a half going up.
pub open spec fn rounded_percent(part: nat, total: nat) -> nat {
    let n = half_up(percent(part, total));
    if n > u64::MAX {
        u64::MAX as nat
    } else {
        n
    }
}

fn whole_percent(part: u64, total: u64) -> (r: u64)
    requires
        total > 0,
    ensures
        r == rounded_percent(part as nat, total as nat),
{
    let n: u128 = percent_of(part as u128, total as u128).rounded();
    if n > u64::MAX as u128 {
        u64::MAX
    } else {
        n as u64
    }
}

/// The share of the duplicate copies that differ in VLAN tagging.
pub open spec fn tagging_percent(s: Tally) -> nat {
    if s.dup_frames > 0 {
        rounded_percent(s.dup_tag_diff, s.dup_frames)
    } else {
        0
    }
}

/// What is said of duplicate copies that differ in VLAN tagging.
pub open spec fn egress_text(s: Tally) -> Seq<char> {
    if tagging_percent(s) >= 20 {
        " Of the duplicate copies, "@ + decimal(tagging_percent(s))
            + "% differ in VLAN tagging (one tagged, one not) — the egress copy carries a tag the ingress copy lacks, a chipset egress-tag artifact (HP/Aruba, Cisco SG200, Juniper EX)."@
    } else {
        ""@
    }
}

/// The port mirror captures both directions of one segment.
pub open spec fn double_capture(r: ReportModel, c: Settings) -> Option<NoticeModel> {
    let pct = rounded_percent(r.stats.dup_frames, r.packets);
    if pct >= c.dup_notice_pct {
        Some(
            NoticeModel {
                code: "span_double_capture"@,
                title: "SPAN double-capture (TX + RX)"@,
                text: decimal(pct)
                    + "% of frames recur byte-identically (same endpoints, flags, length and payload) within 5 ms — the port-mirror is capturing BOTH TX and RX of the same segment, so each frame appears twice. Wireshark reads the second copy as a TCP retransmission, but these are capture artifacts, not real retransmissions (a real retransmit arrives ≥ one RTO later). Set the SPAN/ERSPAN source to RX-only (or TX-only) to remove them."@
                    + egress_text(r.stats)
                    + " [Source: Keysight/Gigamon SPAN de-duplication; packet-foo.com; editcap(1) -d]"@,
            },
        )
    } else {
        None
    }
}

/// Frames that were never on the wire: the capture host reassembled them.
pub open spec fn offload(r: ReportModel) -> Option<NoticeModel> {
    let pct = rounded_percent(r.stats.oversize, r.packets);
    if r.stats.oversize > 0 && pct >= 1 {
        Some(
            NoticeModel {
                code: "offload_superframes"@,
                title: "NIC offload artifacts (TSO/GRO)"@,
                text: decimal(pct)
                    + "% of frames exceed the 1518 B Ethernet MTU — captured on an endpoint where TSO/GSO/GRO/LRO hand libpcap 2.9–64 KB pseudo-frames that were never on the wire. This breaks target-based IDS reassembly (insertion/evasion). Disable offload on the capture NIC (ethtool -K if gso off gro off tso off lro off) or capture at a TAP. [Source: Wireshark 'Offloading' wiki; Suricata Packet Capture docs]"@,
            },
        )
    } else {
        None
    }
}

/// VXLAN on the legacy port instead of its own.
pub open spec fn legacy_port(r: ReportModel) -> Option<NoticeModel> {
    if r.stats.vxlan_legacy > 0 {
        Some(
            NoticeModel {
                code: "vxlan_legacy_port"@,
                title: "VXLAN on legacy UDP 8472"@,
                text: grouped(r.stats.vxlan_legacy)
                    + " VXLAN frames use UDP port 8472 (Linux/flannel/old-OVS legacy) instead of the IANA/RFC 7348 port 4789. Sensors that only decode 4789 (Wireshark, Suricata, Zeek defaults) would see one giant UDP flow and miss every inner host. Add 8472 to the decoder's VXLAN ports. [Source: RFC 7348 §5; Suricata decoder.vxlan; Zeek vxlan_ports]"@,
            },
        )
    } else {
        None
    }
}

/// VXLAN headers whose `I` flag is clear.
pub open spec fn bad_header(r: ReportModel) -> Option<NoticeModel> {
    if r.stats.vxlan_bad > 0 {
        Some(
            NoticeModel {
                code: "vxlan_rfc7348_iflag"@,
                title: "Malformed VXLAN header (RFC 7348 violation)"@,
                text: grouped(r.stats.vxlan_bad)
                    + " VXLAN frames carry a header whose 'I' flag is not set — RFC 7348 §5 requires it to be 1 for the VNI to be valid. Strict decoders may reject these frames, hiding the inner hosts. [Source: RFC 7348 §5]"@,
            },
        )
    } else {
        None
    }
}

/// Packets of which fewer bytes were captured than the IP header claims.
pub open spec fn truncation(r: ReportModel) -> Option<NoticeModel> {
    let pct = rounded_percent(r.stats.inner_trunc, r.packets);
    if r.stats.inner_trunc > 0 && pct >= 1 {
        Some(
            NoticeModel {
                code: "inner_truncation"@,
                title: "Truncated segments (inner IP length > captured)"@,
                text: decimal(pct)
                    + "% of TCP packets carry an IP total-length larger than the bytes actually captured — snaplen or a tunnel/mirror MTU cut the payload. Reassembly, file extraction and IDS content matching run on incomplete data. Capture with -s 0 and raise the mirror-path MTU above the encapsulation overhead (VXLAN +50 B, ERSPAN +50–62 B). [Source: RFC 7348 / ERSPAN draft-foschiano-erspan; tcpdump(1) snaplen; SANS ISC]"@,
            },
        )
    } else {
        None
    }
}

/// ARP, broadcast and multicast together.
pub open spec fn noise(s: Tally) -> nat {
    s.arp + s.broadcast + s.multicast
}

/// Under two percent unicast, over ninety percent noise, in at least 200 frames.
pub open spec fn sees_only_noise(s: Tally) -> bool {
    s.decoded >= 200 && less(percent(s.unicast, s.decoded), whole(2)) && less(whole(90), percent(noise(s), s.decoded))
}

/// The mirror sees discovery noise but not the switched conversations.
pub open spec fn blind_mirror(r: ReportModel) -> Option<NoticeModel> {
    let s = r.stats;
    if sees_only_noise(s) {
        Some(
            NoticeModel {
                code: "mirror_no_unicast"@,
                title: "Almost no unicast — mirror likely not seeing switched traffic"@,
                text: "Only "@ + decimal(fixed(percent(s.unicast, s.decoded), 1)) + "% of frames are unicast; "@
                    + decimal(fixed(percent(noise(s), s.decoded), 1))
                    + "% are ARP/broadcast/multicast. The sniffer is seeing discovery noise but not the switched unicast conversations — a virtual bridge (Proxmox/ESXi/Hyper-V) is eating the mirror frames, hardware offload is bypassing the sniffer, or the mirror source is wrong. Verify with a bare laptop + Wireshark before trusting the sensor. [Source: packet-foo.com; Security Onion; forum consensus]"@,
            },
        )
    } else {
        None
    }
}

/// Ten years of 365 days in nanoseconds.
pub const IMPLAUSIBLE_GAP: u128 = 315_360_000_000_000_000;

/// A day in nanoseconds.
pub const DAY_GAP: u128 = 86_400_000_000_000;

/// A jump between consecutive frames that no continuous recording has.
pub open spec fn time_jump(r: ReportModel) -> Option<NoticeModel> {
    let gap = r.stats.ts_maxgap;
    if r.stats.ns_maxgap > IMPLAUSIBLE_GAP {
        Some(
            NoticeModel {
                code: "timestamps_implausible"@,
                title: "Implausible timestamps (broken capture clock)"@,
                text: "Consecutive frames jump by "@ + decimal(units_of(gap, 31_536_000))
                    + " years — the capture clock is wrong (e.g. a hardware-timestamping TAP whose dissector plugin is missing, so timestamps read as billions of seconds). Timing analysis is meaningless until the source is fixed. [Source: packet-foo Frame Timestamps; Profitap ProfiShark KB]"@,
            },
        )
    } else if r.stats.ns_maxgap > DAY_GAP {
        Some(
            NoticeModel {
                code: "timestamps_discontinuous"@,
                title: "Timestamp discontinuity (merged/replayed capture)"@,
                text: "A "@ + decimal(units_of(gap, 86_400))
                    + "-day gap splits this capture — it is almost certainly a merge/replay of separate recordings, not one continuous capture. Timing rules and any temporal baseline are unreliable; analyse the segments separately. [Source: packet-foo Multi-Point Capture; mergecap(1)]"@,
            },
        )
    } else {
        None
    }
}

/// A list with one more notice, where there is one.
pub open spec fn and_notice(list: Seq<NoticeModel>, n: Option<NoticeModel>) -> Seq<NoticeModel> {
    match n {
        Some(n) => list.push(n),
        None => list,
    }
}

/// The notices of a report, behind those that it has.
pub open spec fn all_notices(r: ReportModel, c: Settings) -> Seq<NoticeModel> {
    let list = if r.packets > 0 {
        and_notice(
            and_notice(
                and_notice(
                    and_notice(and_notice(and_notice(r.notices, double_capture(r, c)), offload(r)), legacy_port(r)),
                    bad_header(r),
                ),
                truncation(r),
            ),
            blind_mirror(r),
        )
    } else {
        r.notices
    };
    and_notice(list, time_jump(r))
}

/// How many criteria came out at `level`.
pub open spec fn count(checks: Seq<CheckModel>, level: Level) -> nat
    decreases checks.len(),
{
    if checks.len() == 0 {
        0
    } else {
        count(checks.drop_last(), level) + (if checks.last().level == level {
            1nat
        } else {
            0
        })
    }
}

/// The conformance of a report with so many notices.
pub open spec fn conformance_with(r: ReportModel, notices: nat) -> Binary64 {
    let passes = count(r.checks, Level::Pass);
    let warns = count(r.checks, Level::Warn);
    let fails = count(r.checks, Level::Fail);
    conformance_of(passes, warns, passes + warns + fails, notices, r.score)
}

/// The report with its notices, its final verdict and its conformance: a notice
/// takes a clean acceptance down to a review.
pub open spec fn with_notices(r: ReportModel, c: Settings) -> ReportModel {
    let notices = all_notices(r, c);
    ReportModel {
        notices,
        intake: if notices.len() > 0 && r.intake == Intake::Accept {
            Intake::Review
        } else {
            r.intake
        },
        conformance: conformance_with(r, notices.len()),
        ..r
    }
}

fn notice(code: &'static str, title: &str, text: String) -> (r: Notice)
    ensures
        r@ == (NoticeModel { code: code@, title: title@, text: text@ }),
{
    Notice { code, title: String::from_str(title), text }
}

fn notice_double_capture(r: &Report, c: &Config) -> (k: Option<Notice>)
    requires
        r.packets > 0,
    ensures
        match k {
            Some(n) => double_capture(r@, c@) == Some(n@),
            None => double_capture(r@, c@) is None,
        },
{
    let s = &r.stats;
    let pct: u64 = whole_percent(s.dup_frames, r.packets as u64);
    if pct < c.dup_notice_pct {
        return None;
    }
    let tagged: u64 = if s.dup_frames > 0 {
        whole_percent(s.dup_tag_diff, s.dup_frames)
    } else {
        0
    };
    let mut egress = String::from_str("");
    if tagged >= 20 {
        egress = String::from_str(" Of the duplicate copies, ");
        push_decimal(&mut egress, tagged as u128);
        egress.append(
            "% differ in VLAN tagging (one tagged, one not) — the egress copy carries a tag the ingress copy lacks, a chipset egress-tag artifact (HP/Aruba, Cisco SG200, Juniper EX).",
        );
    }
    let mut out = String::new();
    push_decimal(&mut out, pct as u128);
    assert(out@ =~= decimal(pct as nat));
    out.append(
        "% of frames recur byte-identically (same endpoints, flags, length and payload) within 5 ms — the port-mirror is capturing BOTH TX and RX of the same segment, so each frame appears twice. Wireshark reads the second copy as a TCP retransmission, but these are capture artifacts, not real retransmissions (a real retransmit arrives ≥ one RTO later). Set the SPAN/ERSPAN source to RX-only (or TX-only) to remove them.",
    );
    out.append(egress.as_str());
    out.append(" [Source: Keysight/Gigamon SPAN de-duplication; packet-foo.com; editcap(1) -d]");
    Some(notice("span_double_capture", "SPAN double-capture (TX + RX)", out))
}

fn notice_offload(r: &Report) -> (k: Option<Notice>)
    requires
        r.packets > 0,
    ensures
        match k {
            Some(n) => offload(r@) == Some(n@),
            None => offload(r@) is None,
        },
{
    let pct: u64 = whole_percent(r.stats.oversize, r.packets as u64);
    if r.stats.oversize == 0 || pct < 1 {
        return None;
    }
    let mut out = String::new();
    push_decimal(&mut out, pct as u128);
    assert(out@ =~= decimal(pct as nat));
    out.append(
        "% of frames exceed the 1518 B Ethernet MTU — captured on an endpoint where TSO/GSO/GRO/LRO hand libpcap 2.9–64 KB pseudo-frames that were never on the wire. This breaks target-based IDS reassembly (insertion/evasion). Disable offload on the capture NIC (ethtool -K if gso off gro off tso off lro off) or capture at a TAP. [Source: Wireshark 'Offloading' wiki; Suricata Packet Capture docs]",
    );
    Some(notice("offload_superframes", "NIC offload artifacts (TSO/GRO)", out))
}

fn notice_legacy_port(r: &Report) -> (k: Option<Notice>)
    ensures
        match k {
            Some(n) => legacy_port(r@) == Some(n@),
            None => legacy_port(r@) is None,
        },
{
    if r.stats.vxlan_legacy == 0 {
        return None;
    }
    let mut out = grp(r.stats.vxlan_legacy);
    out.append(
        " VXLAN frames use UDP port 8472 (Linux/flannel/old-OVS legacy) instead of the IANA/RFC 7348 port 4789. Sensors that only decode 4789 (Wireshark, Suricata, Zeek defaults) would see one giant UDP flow and miss every inner host. Add 8472 to the decoder's VXLAN ports. [Source: RFC 7348 §5; Suricata decoder.vxlan; Zeek vxlan_ports]",
    );
    Some(notice("vxlan_legacy_port", "VXLAN on legacy UDP 8472", out))
}

fn notice_bad_header(r: &Report) -> (k: Option<Notice>)
    ensures
        match k {
            Some(n) => bad_header(r@) == Some(n@),
            None => bad_header(r@) is None,
        },
{
    if r.stats.vxlan_bad == 0 {
        return None;
    }
    let mut out = grp(r.stats.vxlan_bad);
    out.append(
        " VXLAN frames carry a header whose 'I' flag is not set — RFC 7348 §5 requires it to be 1 for the VNI to be valid. Strict decoders may reject these frames, hiding the inner hosts. [Source: RFC 7348 §5]",
    );
    Some(notice("vxlan_rfc7348_iflag", "Malformed VXLAN header (RFC 7348 violation)", out))
}

fn notice_truncation(r: &Report) -> (k: Option<Notice>)
    requires
        r.packets > 0,
    ensures
        match k {
            Some(n) => truncation(r@) == Some(n@),
            None => truncation(r@) is None,
        },
{
    let pct: u64 = whole_percent(r.stats.inner_trunc, r.packets as u64);
    if r.stats.inner_trunc == 0 || pct < 1 {
        return None;
    }
    let mut out = String::new();
    push_decimal(&mut out, pct as u128);
    assert(out@ =~= decimal(pct as nat));
    out.append(
        "% of TCP packets carry an IP total-length larger than the bytes actually captured — snaplen or a tunnel/mirror MTU cut the payload. Reassembly, file extraction and IDS content matching run on incomplete data. Capture with -s 0 and raise the mirror-path MTU above the encapsulation overhead (VXLAN +50 B, ERSPAN +50–62 B). [Source: RFC 7348 / ERSPAN draft-foschiano-erspan; tcpdump(1) snaplen; SANS ISC]",
    );
    Some(notice("inner_truncation", "Truncated segments (inner IP length > captured)", out))
}

fn notice_blind_mirror(r: &Report) -> (k: Option<Notice>)
    ensures
        match k {
            Some(n) => blind_mirror(r@) == Some(n@),
            None => blind_mirror(r@) is None,
        },
{
    let s = &r.stats;
    if s.decoded < 200 {
        return None;
    }
    let unicast: Binary64 = percent_of(s.unicast as u128, s.decoded as u128);
    let other: Binary64 = percent_of(s.arp as u128 + s.broadcast as u128 + s.multicast as u128, s.decoded as u128);
    if !(unicast.is_less(Binary64::whole(2)) && Binary64::whole(90).is_less(other)) {
        return None;
    }
    let mut out = String::from_str("Only ");
    push_decimal(&mut out, unicast.fixed(1));
    out.append("% of frames are unicast; ");
    push_decimal(&mut out, other.fixed(1));
    out.append(
        "% are ARP/broadcast/multicast. The sniffer is seeing discovery noise but not the switched unicast conversations — a virtual bridge (Proxmox/ESXi/Hyper-V) is eating the mirror frames, hardware offload is bypassing the sniffer, or the mirror source is wrong. Verify with a bare laptop + Wireshark before trusting the sensor. [Source: packet-foo.com; Security Onion; forum consensus]",
    );
    Some(notice("mirror_no_unicast", "Almost no unicast — mirror likely not seeing switched traffic", out))
}

fn notice_time_jump(r: &Report) -> (k: Option<Notice>)
    requires
        r@.wf(),
    ensures
        match k {
            Some(n) => time_jump(r@) == Some(n@),
            None => time_jump(r@) is None,
        },
{
    let gap: Binary64 = r.stats.ts_maxgap;
    if r.stats.ns_maxgap > IMPLAUSIBLE_GAP {
        let mut out = String::from_str("Consecutive frames jump by ");
        push_decimal(&mut out, units_in(gap, 31_536_000));
        out.append(
            " years — the capture clock is wrong (e.g. a hardware-timestamping TAP whose dissector plugin is missing, so timestamps read as billions of seconds). Timing analysis is meaningless until the source is fixed. [Source: packet-foo Frame Timestamps; Profitap ProfiShark KB]",
        );
        Some(notice("timestamps_implausible", "Implausible timestamps (broken capture clock)", out))
    } else if r.stats.ns_maxgap > DAY_GAP {
        let mut out = String::from_str("A ");
        push_decimal(&mut out, units_in(gap, 86_400));
        out.append(
            "-day gap splits this capture — it is almost certainly a merge/replay of separate recordings, not one continuous capture. Timing rules and any temporal baseline are unreliable; analyse the segments separately. [Source: packet-foo Multi-Point Capture; mergecap(1)]",
        );
        Some(notice("timestamps_discontinuous", "Timestamp discontinuity (merged/replayed capture)", out))
    } else {
        None
    }
}

fn add_notice(list: &mut Vec<Notice>, n: Option<Notice>)
    ensures
        notices_view(final(list)@) == (match n {
            Some(n) => notices_view(old(list)@).push(n@),
            None => notices_view(old(list)@),
        }),
        final(list)@.len() <= old(list)@.len() + 1,
{
    if let Some(n) = n {
        list.push(n);
        assert(notices_view(list@) =~= notices_view(old(list)@).push(n@));
    }
}

fn count_level(checks: &Vec<Check>, level: Level) -> (r: u64)
    ensures
        r == count(checks_view(checks@), level),
        r <= checks@.len(),
{
    let n: usize = checks.len();
    let mut total: u64 = 0;
    let mut i: usize = 0;
    let ghost view = checks_view(checks@);
    while i < n
        invariant
            i <= n,
            n == checks@.len(),
            view == checks_view(checks@),
            total <= i,
            total == count(view.take(i as int), level),
        decreases n - i,
    {
        assert(view.take(i + 1).drop_last() =~= view.take(i as int));
        assert(view[i as int] == checks@[i as int]@);
        if checks[i].level == level {
            total = total + 1;
        }
        i = i + 1;
    }
    assert(view.take(n as int) =~= view);
    total
}

proof fn lemma_levels_are_apart(checks: Seq<CheckModel>)
    ensures
        count(checks, Level::Pass) + count(checks, Level::Warn) + count(checks, Level::Fail) <= checks.len(),
    decreases checks.len(),
{
    if checks.len() > 0 {
        lemma_levels_are_apart(checks.drop_last());
    }
}

/// Derives the quality notices, and from them and the criteria the final verdict
/// and the conformance score.
#[verifier::rlimit(40)]
pub fn build_notices(r: &mut Report, c: &Config)
    requires
        old(r)@.wf(),
    ensures
        final(r)@ == with_notices(old(r)@, c@),
        final(r)@.wf(),
{
    let ghost r0 = r@;
    let mut list: Vec<Notice> = Vec::new();
    std::mem::swap(&mut list, &mut r.notices);
    let ghost base = ReportModel { notices: r0.notices, ..r@ };
    assert(base =~= r0);
    if r.packets > 0 {
        add_notice(&mut list, notice_double_capture(r, c));
        add_notice(&mut list, notice_offload(r));
        add_notice(&mut list, notice_legacy_port(r));
        add_notice(&mut list, notice_bad_header(r));
        add_notice(&mut list, notice_truncation(r));
        add_notice(&mut list, notice_blind_mirror(r));
    }
    add_notice(&mut list, notice_time_jump(r));
    assert(notices_view(list@) =~= all_notices(r0, c@));
    if list.len() > 0 && r.intake == Intake::Accept {
        r.intake = Intake::Review;
    }
    let passes: u64 = count_level(&r.checks, Level::Pass);
    let warns: u64 = count_level(&r.checks, Level::Warn);
    let fails: u64 = count_level(&r.checks, Level::Fail);
    proof {
        lemma_levels_are_apart(checks_view(r.checks@));
        assert(r.checks.len() <= usize::MAX);
    }
    r.conformance = conformance(passes, warns, passes + warns + fails, list.len() as u64, r.score);
    r.notices = list;
    assert(r@ =~= with_notices(r0, c@));
}

proof fn lemma_count_is_zero(checks: Seq<CheckModel>, level: Level)
    ensures
        count(checks, level) == 0 <==> !has_level(checks, level),
    decreases checks.len(),
{
    if checks.len() > 0 {
        let head = checks.drop_last();
        lemma_count_is_zero(head, level);
        if has_level(head, level) {
            let i = choose|i: int| 0 <= i < head.len() && (#[trigger] head[i]).level == level;
            assert(checks[i].level == level);
        }
        if has_level(checks, level) && checks.last().level != level {
            let i = choose|i: int| 0 <= i < checks.len() && (#[trigger] checks[i]).level == level;
            assert(head[i].level == level);
        }
        if checks.last().level == level {
            assert(checks[checks.len() - 1].level == level);
        }
    }
}

/// The report with criteria and notices evaluated.
pub open spec fn judged(r: ReportModel, c: Settings) -> ReportModel {
    with_notices(with_checks(r, c), c)
}

/// A capture is rejected if and only if a criterion fails, and
/// accepted if and only if no criterion fails or deviates and nothing was found
/// wrong with its quality.
pub proof fn law_verdict(r: ReportModel, c: Settings)
    ensures
        judged(r, c).intake == Intake::Reject <==> has_level(judged(r, c).checks, Level::Fail),
        judged(r, c).intake == Intake::Accept <==> !has_level(judged(r, c).checks, Level::Fail) && !has_level(
            judged(r, c).checks,
            Level::Warn,
        ) && judged(r, c).notices.len() == 0,
{
}

/// Full conformance: one hundred percent if and only if every scored criterion
/// passes, no notice is raised, and the container was parsed whole. Such a
/// capture is accepted.
pub proof fn law_full_conformance(r: ReportModel, c: Settings)
    requires
        r.score.wf(),
        !less(whole(100), r.score),
        r.notices.len() == 0,
    ensures
        judged(r, c).conformance == whole(100) <==> !has_level(judged(r, c).checks, Level::Fail) && !has_level(
            judged(r, c).checks,
            Level::Warn,
        ) && judged(r, c).notices.len() == 0 && r.score == whole(100),
        judged(r, c).conformance == whole(100) ==> judged(r, c).intake == Intake::Accept,
        !less(whole(100), judged(r, c).conformance),
{
    let k = with_checks(r, c);
    let passes = count(k.checks, Level::Pass);
    let warns = count(k.checks, Level::Warn);
    let fails = count(k.checks, Level::Fail);
    lemma_levels_are_apart(k.checks);
    lemma_count_is_zero(k.checks, Level::Pass);
    lemma_count_is_zero(k.checks, Level::Warn);
    lemma_count_is_zero(k.checks, Level::Fail);
    assert(k.checks.len() <= 9);
    assert(k.checks[0] == format_check(r));
    assert(has_level(k.checks, Level::Pass) || has_level(k.checks, Level::Fail));
    crate::figures::law_full_marks(passes, warns, passes + warns + fails, all_notices(k, c).len(), r.score);
}

/// What is no packet capture is rejected, whatever the settings.
pub proof fn law_no_capture_is_rejected(r: ReportModel, c: Settings)
    requires
        r.format == Format::Unknown,
    ensures
        with_checks(r, c).intake == Intake::Reject,
        judged(r, c).intake == Intake::Reject,
{
    let checks = all_checks(r, c);
    assert(checks[0] == format_check(r));
    assert(has_level(checks, Level::Fail));
}

/// A capture whose container was not parsed to its end is rejected.
pub proof fn law_damaged_container_is_rejected(r: ReportModel, c: Settings)
    requires
        !is_intact(r),
    ensures
        judged(r, c).intake == Intake::Reject,
{
    let checks = all_checks(r, c);
    assert(checks[1] == integrity_check(r));
    assert(has_level(checks, Level::Fail));
}

/// A capture with truncated packets is rejected.
pub proof fn law_truncated_packets_are_rejected(r: ReportModel, c: Settings)
    requires
        r.format != Format::Unknown,
        r.truncated_pkts > 0,
    ensures
        judged(r, c).intake == Intake::Reject,
{
    let checks = all_checks(r, c);
    assert(checks[2] == frames_check(r, c));
    assert(has_level(checks, Level::Fail));
}

/// A single drop, a sequence gap or an acknowledgement of what was never
/// captured, keeps a capture from being accepted and from full conformance.
pub proof fn law_capture_drop_deviates(r: ReportModel, c: Settings)
    requires
        r.score.wf(),
        !less(whole(100), r.score),
        r.notices.len() == 0,
        r.format != Format::Unknown,
        r.stats.tcp_flows > 0,
        r.stats.seq_gaps + r.stats.acked_unseen > 0,
    ensures
        judged(r, c).intake != Intake::Accept,
        judged(r, c).conformance != whole(100),
        !less(whole(100), judged(r, c).conformance),
{
    let checks = all_checks(r, c);
    let i: int = if r.has_time {
        6
    } else {
        5
    };
    assert(checks[i] == drops_check(r));
    assert(has_level(checks, Level::Warn));
    law_full_conformance(r, c);
}

/// Information is not scored: one more line of it changes neither the verdict on
/// the criteria nor what counts towards the conformance.
pub proof fn law_information_is_not_scored(checks: Seq<CheckModel>, k: CheckModel)
    requires
        k.level == Level::Info,
    ensures
        verdict(checks.push(k)) == verdict(checks),
        count(checks.push(k), Level::Pass) == count(checks, Level::Pass),
        count(checks.push(k), Level::Warn) == count(checks, Level::Warn),
        count(checks.push(k), Level::Fail) == count(checks, Level::Fail),
{
    let more = checks.push(k);
    assert(more.drop_last() =~= checks);
    lemma_count_is_zero(checks, Level::Warn);
    lemma_count_is_zero(checks, Level::Fail);
    lemma_count_is_zero(more, Level::Warn);
    lemma_count_is_zero(more, Level::Fail);
}

/// Whether a list holds a notice with this code.
pub open spec fn has_notice(list: Seq<NoticeModel>, code: Seq<char>) -> bool {
    exists|i: int| 0 <= i < list.len() && (#[trigger] list[i]).code == code
}

proof fn lemma_and_notice(list: Seq<NoticeModel>, n: Option<NoticeModel>, code: Seq<char>)
    ensures
        has_notice(and_notice(list, n), code) <==> has_notice(list, code) || (n matches Some(k) && k.code == code),
{
    let more = and_notice(list, n);
    if has_notice(list, code) {
        let i = choose|i: int| 0 <= i < list.len() && (#[trigger] list[i]).code == code;
        assert(more[i].code == code);
    }
    if let Some(k) = n {
        assert(more[list.len() as int] == k);
        if has_notice(more, code) && k.code != code {
            let i = choose|i: int| 0 <= i < more.len() && (#[trigger] more[i]).code == code;
            assert(list[i].code == code);
        }
    }
}

/// No two kinds of notice share a code.
pub proof fn law_codes_tell_notices_apart()
    ensures
        seq![
            "span_double_capture"@,
            "offload_superframes"@,
            "vxlan_legacy_port"@,
            "vxlan_rfc7348_iflag"@,
            "inner_truncation"@,
            "mirror_no_unicast"@,
            "timestamps_implausible"@,
            "timestamps_discontinuous"@,
        ].no_duplicates(),
{
    reveal_strlit("span_double_capture");
    reveal_strlit("offload_superframes");
    reveal_strlit("vxlan_legacy_port");
    reveal_strlit("vxlan_rfc7348_iflag");
    reveal_strlit("inner_truncation");
    reveal_strlit("mirror_no_unicast");
    reveal_strlit("timestamps_implausible");
    reveal_strlit("timestamps_discontinuous");
    let codes = seq![
        "span_double_capture"@,
        "offload_superframes"@,
        "vxlan_legacy_port"@,
        "vxlan_rfc7348_iflag"@,
        "inner_truncation"@,
        "mirror_no_unicast"@,
        "timestamps_implausible"@,
        "timestamps_discontinuous"@,
    ];
    let firsts = seq!['s', 'o', 'v', 'v', 'i', 'm', 't', 't'];
    let lens = seq![19nat, 19, 17, 19, 16, 17, 22, 24];
    assert(forall|i: int| 0 <= i < 8 ==> (#[trigger] codes[i])[0] == firsts[i] && codes[i].len() == lens[i]);
}

/// Which notices a report without earlier ones gets.
#[verifier::rlimit(30)]
proof fn lemma_which_notices(r: ReportModel, c: Settings)
    requires
        r.notices.len() == 0,
    ensures
        ({
            let list = judged(r, c).notices;
            let some = r.packets > 0;
            &&& has_notice(list, "span_double_capture"@) <==> some && double_capture(r, c) is Some
            &&& has_notice(list, "offload_superframes"@) <==> some && offload(r) is Some
            &&& has_notice(list, "vxlan_legacy_port"@) <==> some && legacy_port(r) is Some
            &&& has_notice(list, "vxlan_rfc7348_iflag"@) <==> some && bad_header(r) is Some
            &&& has_notice(list, "inner_truncation"@) <==> some && truncation(r) is Some
            &&& has_notice(list, "mirror_no_unicast"@) <==> some && blind_mirror(r) is Some
            &&& has_notice(list, "timestamps_implausible"@) <==> (time_jump(r) matches Some(k) && k.code
                == "timestamps_implausible"@)
            &&& has_notice(list, "timestamps_discontinuous"@) <==> (time_jump(r) matches Some(k) && k.code
                == "timestamps_discontinuous"@)
        }),
{
    law_codes_tell_notices_apart();
    let codes = seq![
        "span_double_capture"@,
        "offload_superframes"@,
        "vxlan_legacy_port"@,
        "vxlan_rfc7348_iflag"@,
        "inner_truncation"@,
        "mirror_no_unicast"@,
        "timestamps_implausible"@,
        "timestamps_discontinuous"@,
    ];
    let k = with_checks(r, c);
    assert(double_capture(k, c) == double_capture(r, c) && offload(k) == offload(r) && legacy_port(k) == legacy_port(r)
        && bad_header(k) == bad_header(r) && truncation(k) == truncation(r) && blind_mirror(k) == blind_mirror(r)
        && time_jump(k) == time_jump(r));
    assert forall|n: int| 0 <= n < 8 implies (has_notice(judged(r, c).notices, #[trigger] codes[n]) <==> {
        ||| r.packets > 0 && ((double_capture(r, c) matches Some(k) && k.code == codes[n]) || (offload(r) matches Some(
            k,
        ) && k.code == codes[n]) || (legacy_port(r) matches Some(k) && k.code == codes[n]) || (bad_header(
            r,
        ) matches Some(k) && k.code == codes[n]) || (truncation(r) matches Some(k) && k.code == codes[n]) || (
        blind_mirror(r) matches Some(k) && k.code == codes[n]))
        ||| time_jump(r) matches Some(k) && k.code == codes[n]
    }) by {
        let code = codes[n];
        let l0 = r.notices;
        let l1 = and_notice(l0, double_capture(k, c));
        let l2 = and_notice(l1, offload(k));
        let l3 = and_notice(l2, legacy_port(k));
        let l4 = and_notice(l3, bad_header(k));
        let l5 = and_notice(l4, truncation(k));
        let l6 = and_notice(l5, blind_mirror(k));
        lemma_and_notice(l0, double_capture(k, c), code);
        lemma_and_notice(l1, offload(k), code);
        lemma_and_notice(l2, legacy_port(k), code);
        lemma_and_notice(l3, bad_header(k), code);
        lemma_and_notice(l4, truncation(k), code);
        lemma_and_notice(l5, blind_mirror(k), code);
        lemma_and_notice(l6, time_jump(k), code);
        lemma_and_notice(l0, time_jump(k), code);
    }
    assert(codes[0] == "span_double_capture"@);
    assert(codes[1] == "offload_superframes"@);
    assert(codes[2] == "vxlan_legacy_port"@);
    assert(codes[3] == "vxlan_rfc7348_iflag"@);
    assert(codes[4] == "inner_truncation"@);
    assert(codes[5] == "mirror_no_unicast"@);
    assert(codes[6] == "timestamps_implausible"@);
    assert(codes[7] == "timestamps_discontinuous"@);
}

/// Offload is reported if and only if the frames over 1518 bytes, as a share of all
/// frames rounded to whole percent, are at least one percent.
pub proof fn law_offload_is_reported(r: ReportModel, c: Settings)
    requires
        r.notices.len() == 0,
        r.stats.oversize <= r.packets,
        0 < r.packets < 0x1000_0000_0000,
    ensures
        has_notice(judged(r, c).notices, "offload_superframes"@) <==> (200 * r.stats.oversize + r.packets) / (2
            * r.packets) >= 1,
{
    lemma_which_notices(r, c);
    let (part, total) = (r.stats.oversize, r.packets);
    crate::accuracy::law_share_in_whole_percent(part, total);
    lemma_share_is_small(part, total);
}

/// A share of the whole is at most a hundred percent, and nothing is none.
proof fn lemma_share_is_small(part: nat, total: nat)
    requires
        part <= total,
        total > 0,
    ensures
        (200 * part + total) / (2 * total) <= 100,
        part == 0 ==> (200 * part + total) / (2 * total) == 0,
{
    let n = (200 * part + total) / (2 * total);
    assert(n <= 100) by (nonlinear_arith)
        requires
            n == (200 * part + total) / (2 * total),
            part <= total,
            total > 0,
    {
        assert(200 * part + total < 101 * (2 * total));
        vstd::arithmetic::div_mod::lemma_multiply_divide_lt((200 * part + total) as int, (2 * total) as int, 101);
    }
    if part == 0 {
        assert(n == 0) by (nonlinear_arith)
            requires
                n == total / (2 * total),
                total > 0,
        ;
    }
}

/// Double capture is reported if and only if the duplicate copies, as a share of
/// all frames rounded to whole percent, reach the share that the settings name.
pub proof fn law_double_capture_is_reported(r: ReportModel, c: Settings)
    requires
        r.notices.len() == 0,
        r.stats.dup_frames <= r.packets,
        0 < r.packets < 0x1000_0000_0000,
    ensures
        has_notice(judged(r, c).notices, "span_double_capture"@) <==> (200 * r.stats.dup_frames + r.packets) / (2
            * r.packets) >= c.dup_notice_pct,
{
    lemma_which_notices(r, c);
    let (part, total) = (r.stats.dup_frames, r.packets);
    crate::accuracy::law_share_in_whole_percent(part, total);
    lemma_share_is_small(part, total);
}

/// Truncation inside the frames is reported if and only if the packets of which
/// fewer bytes were captured than their IP header claims are at least one percent
/// of all, rounded to whole percent.
pub proof fn law_inner_truncation_is_reported(r: ReportModel, c: Settings)
    requires
        r.notices.len() == 0,
        r.stats.inner_trunc <= r.packets,
        0 < r.packets < 0x1000_0000_0000,
    ensures
        has_notice(judged(r, c).notices, "inner_truncation"@) <==> (200 * r.stats.inner_trunc + r.packets) / (2
            * r.packets) >= 1,
{
    lemma_which_notices(r, c);
    let (part, total) = (r.stats.inner_trunc, r.packets);
    crate::accuracy::law_share_in_whole_percent(part, total);
    lemma_share_is_small(part, total);
}

/// One VXLAN frame on the legacy port, or with its flag clear, is reported.
pub proof fn law_odd_vxlan_is_reported(r: ReportModel, c: Settings)
    requires
        r.notices.len() == 0,
        r.packets > 0,
    ensures
        has_notice(judged(r, c).notices, "vxlan_legacy_port"@) <==> r.stats.vxlan_legacy > 0,
        has_notice(judged(r, c).notices, "vxlan_rfc7348_iflag"@) <==> r.stats.vxlan_bad > 0,
{
    lemma_which_notices(r, c);
}

/// A mirror that sees no conversations is reported if and only if, of at least 200
/// frames, under two percent are unicast and over ninety percent are ARP,
/// broadcast or multicast.
pub proof fn law_blind_mirror_is_reported(r: ReportModel, c: Settings)
    requires
        r.notices.len() == 0,
        r.packets > 0,
        r.stats.unicast <= r.stats.decoded < 0x400_0000_0000,
        r.stats.arp < 0x400_0000_0000,
        r.stats.broadcast + r.stats.multicast <= r.stats.decoded,
    ensures
        has_notice(judged(r, c).notices, "mirror_no_unicast"@) <==> {
            &&& r.stats.decoded >= 200
            &&& 100 * r.stats.unicast < 2 * r.stats.decoded
            &&& 100 * (r.stats.arp + r.stats.broadcast + r.stats.multicast) > 90 * r.stats.decoded
        },
{
    lemma_which_notices(r, c);
    let s = r.stats;
    if s.decoded >= 200 {
        crate::accuracy::law_share_is_held_against_wholes(s.unicast, s.decoded, 2);
        crate::accuracy::law_share_is_held_against_wholes(noise(s), s.decoded, 90);
    }
}

/// A jump between two frames of over ten years of 365 days is reported as a broken
/// clock, a shorter one of over a day as a gap, and no other jump at all. That holds
/// of a file without packets too.
pub proof fn law_time_jump_is_reported(r: ReportModel, c: Settings)
    requires
        r.notices.len() == 0,
    ensures
        has_notice(judged(r, c).notices, "timestamps_implausible"@) <==> r.stats.ns_maxgap > 10 * 365 * 86_400
            * 1_000_000_000,
        has_notice(judged(r, c).notices, "timestamps_discontinuous"@) <==> 86_400 * 1_000_000_000 < r.stats.ns_maxgap
            <= 10 * 365 * 86_400 * 1_000_000_000,
{
    law_codes_tell_notices_apart();
    let codes = seq![
        "span_double_capture"@,
        "offload_superframes"@,
        "vxlan_legacy_port"@,
        "vxlan_rfc7348_iflag"@,
        "inner_truncation"@,
        "mirror_no_unicast"@,
        "timestamps_implausible"@,
        "timestamps_discontinuous"@,
    ];
    assert(codes[6] != codes[7]);
    lemma_which_notices(r, c);
}

/// A capture without packets gets no finding but on its clock.
pub proof fn law_empty_capture_has_no_findings(r: ReportModel, c: Settings)
    requires
        r.notices.len() == 0,
        r.packets == 0,
        r.stats.ns_maxgap <= 86_400 * 1_000_000_000,
    ensures
        judged(r, c).notices.len() == 0,
{
}

/// What was found before stays: notices are added behind those that a report has.
pub proof fn law_notices_are_added(r: ReportModel, c: Settings)
    ensures
        judged(r, c).notices.len() >= r.notices.len(),
        judged(r, c).notices.take(r.notices.len() as int) == r.notices,
{
}

/// Too few devices: with fewer sources than the settings ask for at least, a capture
/// is rejected; with fewer than they ask for in full, it is not accepted; else the
/// criterion passes.
pub proof fn law_few_devices(r: ReportModel, c: Settings)
    requires
        r.format != Format::Unknown,
    ensures
        r.src_macs < c.devices_warn ==> judged(r, c).intake == Intake::Reject,
        r.src_macs < c.devices_ok ==> judged(r, c).intake != Intake::Accept,
        judged(r, c).checks[4].label == "Multiple end devices"@,
        judged(r, c).checks[4].level == Level::Fail <==> r.src_macs < c.devices_warn,
        judged(r, c).checks[4].level == Level::Warn <==> c.devices_warn <= r.src_macs < c.devices_ok,
        judged(r, c).checks[4].level == Level::Pass <==> c.devices_warn <= r.src_macs && c.devices_ok <= r.src_macs,
{
    let checks = all_checks(r, c);
    assert(checks[4] == devices_check(r, c));
    if r.src_macs < c.devices_warn {
        assert(has_level(checks, Level::Fail));
    } else if r.src_macs < c.devices_ok {
        assert(has_level(checks, Level::Warn));
    }
}

/// The first criterion passes for a pcap and for a pcapng file, and for no other.
pub proof fn law_container_format(r: ReportModel, c: Settings)
    ensures
        judged(r, c).checks[0].label == "Format .pcap / .pcapng"@,
        judged(r, c).checks[0].level == Level::Pass <==> r.format == Format::Pcap || r.format == Format::PcapNg,
        judged(r, c).checks[0].level == Level::Fail <==> r.format == Format::Unknown,
{
}

/// The second criterion passes if and only if the file was read to its end without
/// damage and at least 99.9 percent of it were parsed; else the capture is rejected.
pub proof fn law_container_integrity(r: ReportModel, c: Settings)
    requires
        r.score == crate::figures::score_of(r.consumed, r.total),
        r.consumed <= r.total,
        0 < r.total < 0x10_0000_0000_0000,
    ensures
        judged(r, c).checks[1].label == "Container integrity"@,
        judged(r, c).checks[1].level == Level::Pass || judged(r, c).checks[1].level == Level::Fail,
        judged(r, c).checks[1].level == Level::Fail ==> judged(r, c).intake == Intake::Reject,
        !r.clean ==> judged(r, c).checks[1].level == Level::Fail,
        1_000_000_000_000_000 * r.consumed + r.total <= 999_000_000_000_000 * r.total ==> judged(r, c).checks[1].level
            == Level::Fail,
        r.clean && 1_000_000_000_000_000 * r.consumed >= 999_000_000_000_000 * r.total + r.total ==> judged(
            r,
            c,
        ).checks[1].level == Level::Pass,
        judged(r, c).checks[1].level == Level::Fail ==> judged(r, c).checks[1].detail == r.note,
{
    crate::accuracy::law_score_is_held_against_the_mark(r.consumed, r.total);
    let checks = all_checks(r, c);
    assert(checks[1] == integrity_check(r));
    if !is_intact(r) {
        law_damaged_container_is_rejected(r, c);
    }
}

/// A single truncated packet rejects a capture; without one, a snap length that is
/// set and below that for full frames keeps it from being accepted; else the
/// criterion passes.
pub proof fn law_full_frames(r: ReportModel, c: Settings)
    requires
        r.format != Format::Unknown,
    ensures
        judged(r, c).checks[2].label == "Full-packet capture (-s 0)"@,
        r.truncated_pkts > 0 ==> judged(r, c).intake == Intake::Reject,
        0 < r.snaplen < c.full_snaplen ==> judged(r, c).intake != Intake::Accept,
        judged(r, c).checks[2].level == Level::Fail <==> r.truncated_pkts > 0,
        judged(r, c).checks[2].level == Level::Warn <==> r.truncated_pkts == 0 && 0 < r.snaplen < c.full_snaplen,
        judged(r, c).checks[2].level == Level::Pass <==> r.truncated_pkts == 0 && (r.snaplen == 0 || r.snaplen
            >= c.full_snaplen),
{
    let checks = all_checks(r, c);
    assert(checks[2] == frames_check(r, c));
    if r.truncated_pkts > 0 {
        assert(has_level(checks, Level::Fail));
    } else if 0 < r.snaplen < c.full_snaplen {
        assert(has_level(checks, Level::Warn));
    }
}

/// A file over the size limit, or under 64 KiB, keeps a capture from being accepted;
/// any other size passes. The limit is named in whole mebibytes.
pub proof fn law_file_size(r: ReportModel, c: Settings)
    requires
        r.format != Format::Unknown,
    ensures
        judged(r, c).checks[3].label == "Size ≤ "@ + decimal((c.size_limit / 1_048_576) as nat) + " MB per file"@,
        r.total > c.size_limit || r.total < 65_536 ==> judged(r, c).intake != Intake::Accept,
        judged(r, c).checks[3].level == Level::Warn <==> r.total > c.size_limit || r.total < 65_536,
        judged(r, c).checks[3].level == Level::Pass <==> 65_536 <= r.total <= c.size_limit,
{
    let checks = all_checks(r, c);
    assert(checks[3] == crate::checks::size_check(r, c));
    if r.total > c.size_limit || r.total < 65_536 {
        assert(has_level(checks, Level::Warn));
    }
}

/// A capture with timestamps that spans less than the least duration is not
/// accepted; one that spans it passes. Without timestamps the time is not judged.
pub proof fn law_time_window(r: ReportModel, c: Settings)
    requires
        r.format != Format::Unknown,
    ensures
        r.has_time && r.span < c.duration_min ==> judged(r, c).intake != Intake::Accept,
        r.has_time ==> judged(r, c).checks[5].label == "Representative time window"@,
        r.has_time ==> (judged(r, c).checks[5].level == Level::Warn <==> r.span < c.duration_min),
        r.has_time ==> (judged(r, c).checks[5].level == Level::Pass <==> r.span >= c.duration_min),
        !r.has_time ==> judged(r, c).checks[5].level != Level::Warn || (r.stats.tcp_flows > 0 && r.stats.seq_gaps
            + r.stats.acked_unseen > 0),
{
    let checks = all_checks(r, c);
    if r.has_time {
        assert(checks[5] == crate::checks::window_check(r, c));
        if r.span < c.duration_min {
            assert(has_level(checks, Level::Warn));
        }
    } else if r.stats.tcp_flows > 0 {
        assert(checks[5] == drops_check(r));
    } else {
        assert(checks[5] == crate::checks::source_check(r));
    }
}

/// Where TCP was seen, the capture is judged by what is missing from the streams:
/// one gap, or one acknowledged segment that was not captured, and it deviates.
pub proof fn law_missing_segments(r: ReportModel, c: Settings)
    requires
        r.format != Format::Unknown,
        r.stats.tcp_flows > 0,
    ensures
        ({
            let k = judged(r, c).checks[if r.has_time {
                6int
            } else {
                5
            }];
            &&& k.label == "No capture drops (TCP seq)"@
            &&& k.level == Level::Pass <==> r.stats.seq_gaps == 0 && r.stats.acked_unseen == 0
            &&& k.level == Level::Warn <==> r.stats.seq_gaps > 0 || r.stats.acked_unseen > 0
        }),
{
    let checks = all_checks(r, c);
    assert(checks[if r.has_time {
        6int
    } else {
        5
    }] == drops_check(r));
}

/// How many criteria a capture is held against: two where it is none, else six, one
/// more with timestamps and two more with TCP; and what they are called.
pub proof fn law_criteria_that_apply(r: ReportModel, c: Settings)
    ensures
        r.format == Format::Unknown ==> judged(r, c).checks.len() == 2,
        r.format != Format::Unknown ==> judged(r, c).checks.len() == 6 + (if r.has_time {
            1nat
        } else {
            0
        }) + (if r.stats.tcp_flows > 0 {
            2nat
        } else {
            0
        }),
        r.format != Format::Unknown ==> judged(r, c).checks.last().label == "Capture source"@
            && judged(r, c).checks.last().level == Level::Info,
        r.format != Format::Unknown && r.stats.tcp_flows > 0 ==> judged(r, c).checks[judged(r, c).checks.len() - 2].label
            == "TCP session coverage"@ && judged(r, c).checks[judged(r, c).checks.len() - 2].level == Level::Info,
{
}

/// Where a capture came from: a tunnel tells more than oversize frames, at least one
/// percent of all, and these tell more than the snap length of a capture tool.
pub proof fn law_capture_source(r: ReportModel, c: Settings)
    requires
        r.format != Format::Unknown,
        r.stats.oversize <= r.packets < 0x200_0000_0000,
    ensures
        ({
            let detail = judged(r, c).checks.last().detail;
            let tunnel = r.stats.erspan > 0 || r.stats.gre > 0 || r.stats.vxlan > 0;
            let large = r.packets > 0 && 100 * r.stats.oversize >= r.packets;
            &&& tunnel ==> has_prefix(detail, "tunnel mirror"@)
            &&& !tunnel && large ==> has_prefix(detail, "host capture (endpoint"@)
            &&& !tunnel && !large && r.snaplen == 262_144 ==> has_prefix(detail, "host capture (tcpdump"@)
            &&& !tunnel && !large && r.snaplen != 262_144 ==> has_prefix(detail, "local SPAN"@)
        }),
{
    if r.packets > 0 {
        crate::accuracy::law_one_percent_is_exact(r.stats.oversize, r.packets);
    }
    let detail = crate::checks::source_check(r).detail;
    assert(judged(r, c).checks.last() == crate::checks::source_check(r));
    reveal_strlit("tunnel mirror (ERSPAN/GRE/VXLAN)");
    reveal_strlit("host capture (endpoint tcpdump/Wireshark)");
    reveal_strlit("host capture (tcpdump/dumpcap default)");
    reveal_strlit("local SPAN / unknown");
    reveal_strlit("tunnel mirror");
    reveal_strlit("host capture (endpoint");
    reveal_strlit("host capture (tcpdump");
    reveal_strlit("local SPAN");
    let tunnel = r.stats.erspan > 0 || r.stats.gre > 0 || r.stats.vxlan > 0;
    let large = r.packets > 0 && 100 * r.stats.oversize >= r.packets;
    if tunnel {
        assert(detail.take(13) =~= "tunnel mirror"@);
    } else if large {
        assert(detail.take(22) =~= "host capture (endpoint"@);
    } else if r.snaplen == 262_144 {
        assert(detail.take(21) =~= "host capture (tcpdump"@);
    } else {
        assert(detail.take(10) =~= "local SPAN"@);
    }
}

/// A notice of a report without earlier ones is one of seven kinds.
proof fn lemma_one_of_the_kinds(r: ReportModel, c: Settings, i: int)
    requires
        r.notices.len() == 0,
        0 <= i < judged(r, c).notices.len(),
    ensures
        ({
            let n = Some(judged(r, c).notices[i]);
            ||| r.packets > 0 && (n == double_capture(r, c) || n == offload(r) || n == legacy_port(r) || n == bad_header(r)
                || n == truncation(r) || n == blind_mirror(r))
            ||| n == time_jump(r)
        }),
{
    let k = with_checks(r, c);
    assert(double_capture(k, c) == double_capture(r, c) && offload(k) == offload(r) && legacy_port(k) == legacy_port(r)
        && bad_header(k) == bad_header(r) && truncation(k) == truncation(r) && blind_mirror(k) == blind_mirror(r)
        && time_jump(k) == time_jump(r));
    let l1 = and_notice(r.notices, double_capture(k, c));
    let l2 = and_notice(l1, offload(k));
    let l3 = and_notice(l2, legacy_port(k));
    let l4 = and_notice(l3, bad_header(k));
    let l5 = and_notice(l4, truncation(k));
    let l6 = and_notice(l5, blind_mirror(k));
    let all = judged(r, c).notices;
    if r.packets > 0 {
        assert(all == and_notice(l6, time_jump(k)));
        if i < l6.len() {
            assert(all[i] == l6[i]);
            if i < l5.len() {
                assert(l6[i] == l5[i]);
                if i < l4.len() {
                    assert(l5[i] == l4[i]);
                    if i < l3.len() {
                        assert(l4[i] == l3[i]);
                        if i < l2.len() {
                            assert(l3[i] == l2[i]);
                            if i < l1.len() {
                                assert(l2[i] == l1[i]);
                            }
                        }
                    }
                }
            }
        }
    } else {
        assert(all == and_notice(r.notices, time_jump(k)));
    }
}

/// A finding tells its figures: its text starts with the share, rounded to whole
/// percent, or with the number of frames, that raised it.
#[verifier::rlimit(30)]
pub proof fn law_findings_tell_their_figures(r: ReportModel, c: Settings, i: int)
    requires
        r.notices.len() == 0,
        r.packets < 0x1000_0000_0000,
        r.stats.dup_frames <= r.packets,
        r.stats.oversize <= r.packets,
        r.stats.inner_trunc <= r.packets,
        0 <= i < judged(r, c).notices.len(),
    ensures
        ({
            let n = judged(r, c).notices[i];
            let s = r.stats;
            let share = |part: nat| decimal(((200 * part + r.packets) / (2 * r.packets)) as nat);
            &&& n.code == "span_double_capture"@ ==> has_prefix(n.text, share(s.dup_frames)) && n.title
                == "SPAN double-capture (TX + RX)"@
            &&& n.code == "offload_superframes"@ ==> has_prefix(n.text, share(s.oversize)) && n.title
                == "NIC offload artifacts (TSO/GRO)"@
            &&& n.code == "inner_truncation"@ ==> has_prefix(n.text, share(s.inner_trunc)) && n.title
                == "Truncated segments (inner IP length > captured)"@
            &&& n.code == "vxlan_legacy_port"@ ==> has_prefix(n.text, grouped(s.vxlan_legacy)) && n.title
                == "VXLAN on legacy UDP 8472"@
            &&& n.code == "vxlan_rfc7348_iflag"@ ==> has_prefix(n.text, grouped(s.vxlan_bad)) && n.title
                == "Malformed VXLAN header (RFC 7348 violation)"@
            &&& n.code == "mirror_no_unicast"@ ==> n.title
                == "Almost no unicast — mirror likely not seeing switched traffic"@
            &&& n.code == "timestamps_implausible"@ ==> n.title == "Implausible timestamps (broken capture clock)"@
            &&& n.code == "timestamps_discontinuous"@ ==> n.title
                == "Timestamp discontinuity (merged/replayed capture)"@
        }),
{
    lemma_one_of_the_kinds(r, c, i);
    lemma_codes_differ();
    let s = r.stats;
    let n = judged(r, c).notices[i];
    if r.packets > 0 {
        crate::accuracy::law_share_in_whole_percent(s.dup_frames, r.packets);
        crate::accuracy::law_share_in_whole_percent(s.oversize, r.packets);
        crate::accuracy::law_share_in_whole_percent(s.inner_trunc, r.packets);
        lemma_share_is_small(s.dup_frames, r.packets);
        lemma_share_is_small(s.oversize, r.packets);
        lemma_share_is_small(s.inner_trunc, r.packets);
        let (a, b, d) = (
            decimal(rounded_percent(s.dup_frames, r.packets)),
            decimal(rounded_percent(s.oversize, r.packets)),
            decimal(rounded_percent(s.inner_trunc, r.packets)),
        );
        if n.code == "span_double_capture"@ {
            assert(n.text.take(a.len() as int) =~= a);
        } else if n.code == "offload_superframes"@ {
            assert(n.text.take(b.len() as int) =~= b);
        } else if n.code == "inner_truncation"@ {
            assert(n.text.take(d.len() as int) =~= d);
        } else if n.code == "vxlan_legacy_port"@ {
            assert(n.text.take(grouped(s.vxlan_legacy).len() as int) =~= grouped(s.vxlan_legacy));
        } else if n.code == "vxlan_rfc7348_iflag"@ {
            assert(n.text.take(grouped(s.vxlan_bad).len() as int) =~= grouped(s.vxlan_bad));
        }
    }
}

/// No two codes are the same.
proof fn lemma_codes_differ()
    ensures
        "span_double_capture"@ != "offload_superframes"@,
        "span_double_capture"@ != "vxlan_legacy_port"@,
        "span_double_capture"@ != "vxlan_rfc7348_iflag"@,
        "span_double_capture"@ != "inner_truncation"@,
        "span_double_capture"@ != "mirror_no_unicast"@,
        "span_double_capture"@ != "timestamps_implausible"@,
        "span_double_capture"@ != "timestamps_discontinuous"@,
        "offload_superframes"@ != "vxlan_legacy_port"@,
        "offload_superframes"@ != "vxlan_rfc7348_iflag"@,
        "offload_superframes"@ != "inner_truncation"@,
        "offload_superframes"@ != "mirror_no_unicast"@,
        "offload_superframes"@ != "timestamps_implausible"@,
        "offload_superframes"@ != "timestamps_discontinuous"@,
        "vxlan_legacy_port"@ != "vxlan_rfc7348_iflag"@,
        "vxlan_legacy_port"@ != "inner_truncation"@,
        "vxlan_legacy_port"@ != "mirror_no_unicast"@,
        "vxlan_legacy_port"@ != "timestamps_implausible"@,
        "vxlan_legacy_port"@ != "timestamps_discontinuous"@,
        "vxlan_rfc7348_iflag"@ != "inner_truncation"@,
        "vxlan_rfc7348_iflag"@ != "mirror_no_unicast"@,
        "vxlan_rfc7348_iflag"@ != "timestamps_implausible"@,
        "vxlan_rfc7348_iflag"@ != "timestamps_discontinuous"@,
        "inner_truncation"@ != "mirror_no_unicast"@,
        "inner_truncation"@ != "timestamps_implausible"@,
        "inner_truncation"@ != "timestamps_discontinuous"@,
        "mirror_no_unicast"@ != "timestamps_implausible"@,
        "mirror_no_unicast"@ != "timestamps_discontinuous"@,
        "timestamps_implausible"@ != "timestamps_discontinuous"@,
{
    law_codes_tell_notices_apart();
    let codes = seq![
        "span_double_capture"@,
        "offload_superframes"@,
        "vxlan_legacy_port"@,
        "vxlan_rfc7348_iflag"@,
        "inner_truncation"@,
        "mirror_no_unicast"@,
        "timestamps_implausible"@,
        "timestamps_discontinuous"@,
    ];
    assert(codes[0] == "span_double_capture"@);
    assert(codes[1] == "offload_superframes"@);
    assert(codes[2] == "vxlan_legacy_port"@);
    assert(codes[3] == "vxlan_rfc7348_iflag"@);
    assert(codes[4] == "inner_truncation"@);
    assert(codes[5] == "mirror_no_unicast"@);
    assert(codes[6] == "timestamps_implausible"@);
    assert(codes[7] == "timestamps_discontinuous"@);
}

/// Of the duplicates, those of which only one copy was tagged are told from twenty
/// percent on, rounded to whole percent, and not below.
pub proof fn law_egress_tags_are_told(s: Tally)
    requires
        s.dup_tag_diff <= s.dup_frames < 0x1000_0000_0000,
    ensures
        s.dup_frames > 0 && (200 * s.dup_tag_diff + s.dup_frames) / (2 * s.dup_frames) >= 20 ==> has_prefix(
            egress_text(s),
            " Of the duplicate copies, "@ + decimal(
                ((200 * s.dup_tag_diff + s.dup_frames) / (2 * s.dup_frames)) as nat,
            ),
        ),
        s.dup_frames == 0 || (200 * s.dup_tag_diff + s.dup_frames) / (2 * s.dup_frames) < 20 ==> egress_text(s).len()
            == 0,
{
    reveal_strlit("");
    if s.dup_frames > 0 {
        crate::accuracy::law_share_in_whole_percent(s.dup_tag_diff, s.dup_frames);
        lemma_share_is_small(s.dup_tag_diff, s.dup_frames);
        let head = " Of the duplicate copies, "@ + decimal(tagging_percent(s));
        if tagging_percent(s) >= 20 {
            assert(egress_text(s).take(head.len() as int) =~= head);
        }
    }
}

/// The text of a double capture ends with what is told of tags and with its source.
pub proof fn law_double_capture_tells_of_tags(r: ReportModel, c: Settings)
    requires
        double_capture(r, c) is Some,
    ensures
        crate::pieces::holds(double_capture(r, c)->0.text, egress_text(r.stats)),
{
    let pct = decimal(rounded_percent(r.stats.dup_frames, r.packets));
    let text = double_capture(r, c)->0.text;
    let head = pct
        + "% of frames recur byte-identically (same endpoints, flags, length and payload) within 5 ms — the port-mirror is capturing BOTH TX and RX of the same segment, so each frame appears twice. Wireshark reads the second copy as a TCP retransmission, but these are capture artifacts, not real retransmissions (a real retransmit arrives ≥ one RTO later). Set the SPAN/ERSPAN source to RX-only (or TX-only) to remove them."@;
    crate::pieces::lemma_part_of(
        head,
        egress_text(r.stats),
        " [Source: Keysight/Gigamon SPAN de-duplication; packet-foo.com; editcap(1) -d]"@,
    );
}

} // verus!
