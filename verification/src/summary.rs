//! The text summary of the command line, and its exit code.

use vstd::prelude::*;

use crate::about::{CODENAME, VERSION};
use crate::binary64::Binary64;
#[allow(unused_imports)]
use crate::binary64::{fixed, zero};
#[allow(unused_imports)]
use crate::checks::has_level;
#[allow(unused_imports)]
use crate::config::Settings;
use crate::figures::{bar_of_share, human_bytes, megabits_per_second, percent_of, push_hundredths_of};
#[allow(unused_imports)]
use crate::figures::{bytes_text, megabit_rate, percent, share_bar};
use crate::markdown::{average_packet, moment_text};
#[allow(unused_imports)]
use crate::markdown::{leading, mean_length, moment};
#[allow(unused_imports)]
use crate::notices::judged;
#[allow(unused_imports)]
use crate::pieces::{
    holds, lemma_holds_in_front, lemma_holds_through, lemma_opens_itself, lemma_opens_with_less, lemma_three_parts,
};
use crate::ranking::{ranked, total_of};
#[allow(unused_imports)]
use crate::ranking::{chain_total, ranking};
use crate::report::{Check, Intake, Level, Notice, Report};
#[allow(unused_imports)]
use crate::report::{checks_view, notices_view, CheckModel, NoticeModel, ReportModel};
#[allow(unused_imports)]
use crate::stats::chains_view;
use crate::text::{decimal_text, push_decimal, push_padded_left, push_padded_right, push_repeated, push_tenths};
#[allow(unused_imports)]
use crate::text::{decimal, hundredths_text, padded_left, padded_right, repeated, tenths_text};
use crate::time::human_dur;
#[allow(unused_imports)]
use crate::time::dur_text;

verus! {

/// A bar of `width` of which `filled` are full.
pub open spec fn bar_text(filled: nat, width: nat, blank: char) -> Seq<char> {
    repeated('█', filled) + repeated(
        blank,
        if filled < width {
            (width - filled) as nat
        } else {
            0
        },
    )
}

fn push_bar(o: &mut String, filled: usize, width: usize, blank: char)
    ensures
        final(o)@ == old(o)@ + bar_text(filled as nat, width as nat, blank),
{
    push_repeated(o, '█', filled);
    push_repeated(
        o,
        blank,
        if filled < width {
            width - filled
        } else {
            0
        },
    );
    assert(o@ =~= old(o)@ + bar_text(filled as nat, width as nat, blank));
}

/// The file and its integrity.
pub open spec fn file_lines(name: Seq<char>, sha: Seq<char>, r: ReportModel) -> Seq<char> {
    "PicoCap 🩺  v"@ + VERSION@ + " \""@ + CODENAME@ + "\"  ·  capture intake\n  file     : "@ + name
        + "\n  sha256   : "@ + sha + "\n  format   : "@ + r.format.spec_name() + " ("@ + r.linktype + ")\n  packets  : "@
        + decimal(r.packets) + "   size: "@ + bytes_text(r.total) + "\n  integrity: ["@ + bar_text(
        share_bar(r.score, 28),
        28,
        '░',
    ) + "] "@ + tenths_text(fixed(r.score, 10)) + "%  "@ + r.note + "\n  conform. : "@ + tenths_text(
        fixed(r.conformance, 10),
    ) + "%  (100% only when every criterion passes)\n"@
}

fn file_part(name: &str, sha: &str, r: &Report) -> (o: String)
    requires
        r@.wf(),
    ensures
        o@ == file_lines(name@, sha@, r@),
{
    let mut o = String::from_str("PicoCap 🩺  v");
    o.append(VERSION);
    o.append(" \"");
    o.append(CODENAME);
    o.append("\"  ·  capture intake\n  file     : ");
    o.append(name);
    o.append("\n  sha256   : ");
    o.append(sha);
    o.append("\n  format   : ");
    o.append(r.format.name());
    o.append(" (");
    o.append(r.linktype.as_str());
    o.append(")\n  packets  : ");
    push_decimal(&mut o, r.packets as u128);
    o.append("   size: ");
    o.append(human_bytes(r.total).as_str());
    o.append("\n  integrity: [");
    push_bar(&mut o, bar_of_share(r.score, 28), 28, '░');
    o.append("] ");
    push_tenths(&mut o, r.score.fixed(10));
    o.append("%  ");
    o.append(r.note.as_str());
    o.append("\n  conform. : ");
    push_tenths(&mut o, r.conformance.fixed(10));
    o.append("%  (100% only when every criterion passes)\n");
    o
}

pub open spec fn duration_line(r: ReportModel) -> Seq<char> {
    if r.has_time {
        "   duration : "@ + dur_text(r.duration) + "\n"@
    } else {
        ""@
    }
}

/// The megabits per second; none without a time span.
pub open spec fn mean_rate(r: ReportModel) -> Binary64 {
    if r.has_time && r.duration.mant > 0 {
        megabit_rate(r.wire_bytes as nat, r.duration)
    } else {
        zero()
    }
}

/// The metadata and the verdict.
pub open spec fn meta_lines(r: ReportModel) -> Seq<char> {
    "  ── Capture metadata ──\n   recorded : "@ + moment(r.stats.ts_first) + "  →  "@ + moment(r.stats.ts_last) + "\n"@
        + duration_line(r) + "   pcap ver : "@ + r.ver + "   byte order: "@ + r.endian + "   ts precision: "@ + r.ts_prec
        + "\n   linktype : "@ + r.linktype + "   snaplen: "@ + decimal(r.snaplen as nat) + "   interfaces: "@ + decimal(
        r.iface_count,
    ) + "\n   avg pkt  : "@ + decimal(mean_length(r)) + " B   on-wire: "@ + bytes_text(r.wire_bytes as usize as nat)
        + "   throughput: "@ + hundredths_text(fixed(mean_rate(r), 100)) + " Mbit/s\n  INTAKE   : "@ + r.intake.spec_name() + "\n"@
}

fn meta_part(r: &Report) -> (o: String)
    requires
        r@.wf(),
    ensures
        o@ == meta_lines(r@),
{
    let mut duration = String::from_str("");
    if r.has_time {
        duration = String::from_str("   duration : ");
        duration.append(human_dur(r.duration).as_str());
        duration.append("\n");
    }
    let rate: Binary64 = if r.has_time && r.duration.mant > 0 {
        megabits_per_second(r.wire_bytes, r.duration)
    } else {
        Binary64 { mant: 0, exp: 0 }
    };
    let mut o = String::from_str("  ── Capture metadata ──\n   recorded : ");
    o.append(moment_text(r.stats.ts_first).as_str());
    o.append("  →  ");
    o.append(moment_text(r.stats.ts_last).as_str());
    o.append("\n");
    o.append(duration.as_str());
    o.append("   pcap ver : ");
    o.append(r.ver.as_str());
    o.append("   byte order: ");
    o.append(r.endian);
    o.append("   ts precision: ");
    o.append(r.ts_prec);
    o.append("\n   linktype : ");
    o.append(r.linktype.as_str());
    o.append("   snaplen: ");
    push_decimal(&mut o, r.snaplen as u128);
    o.append("   interfaces: ");
    push_decimal(&mut o, r.iface_count as u128);
    o.append("\n   avg pkt  : ");
    push_decimal(&mut o, average_packet(r) as u128);
    o.append(" B   on-wire: ");
    o.append(human_bytes(r.wire_bytes as usize).as_str());
    o.append("   throughput: ");
    push_hundredths_of(&mut o, rate);
    o.append(" Mbit/s\n  INTAKE   : ");
    o.append(r.intake.name());
    o.append("\n");
    o
}

/// The mark of a criterion.
pub open spec fn level_mark(l: Level) -> Seq<char> {
    match l {
        Level::Pass => "✓"@,
        Level::Warn => "!"@,
        Level::Fail => "✗"@,
        Level::Info => "i"@,
    }
}

/// The line of a criterion.
pub open spec fn check_line(c: CheckModel) -> Seq<char> {
    "   ["@ + level_mark(c.level) + "] "@ + padded_right(c.label, 26) + " "@ + c.detail + "\n"@
}

pub open spec fn check_lines(checks: Seq<CheckModel>) -> Seq<char>
    decreases checks.len(),
{
    if checks.len() == 0 {
        "  ── Collection criteria ──\n"@
    } else {
        check_lines(checks.drop_last()) + check_line(checks.last())
    }
}

fn check_row(c: &Check) -> (o: String)
    ensures
        o@ == check_line(c@),
{
    let mut o = String::from_str("   [");
    o.append(
        match c.level {
            Level::Pass => "✓",
            Level::Warn => "!",
            Level::Fail => "✗",
            Level::Info => "i",
        },
    );
    o.append("] ");
    push_padded_right(&mut o, c.label.as_str(), 26);
    o.append(" ");
    o.append(c.detail.as_str());
    o.append("\n");
    o
}

fn check_part(checks: &Vec<Check>) -> (o: String)
    ensures
        o@ == check_lines(checks_view(checks@)),
{
    let mut o = String::from_str("  ── Collection criteria ──\n");
    let n: usize = checks.len();
    let mut i: usize = 0;
    let ghost all = checks_view(checks@);
    while i < n
        invariant
            i <= n,
            n == checks@.len(),
            all == checks_view(checks@),
            o@ == check_lines(all.take(i as int)),
        decreases n - i,
    {
        assert(all.take(i + 1).drop_last() =~= all.take(i as int));
        assert(all[i as int] == checks@[i as int]@);
        o.append(check_row(&checks[i]).as_str());
        i = i + 1;
    }
    assert(all.take(n as int) =~= all);
    o
}

/// The distribution of the packets.
pub open spec fn distribution_lines(r: ReportModel) -> Seq<char> {
    let s = r.stats;
    "  ── Packet distribution ("@ + decimal(s.unicast + s.multicast + s.broadcast) + " L2 frames) ──\n   unicast "@
        + decimal(s.unicast) + "  multicast "@ + decimal(s.multicast) + "  broadcast "@ + decimal(s.broadcast)
        + "\n   IPv4 "@ + decimal(s.ipv4) + "  IPv6 "@ + decimal(s.ipv6) + "  ARP "@ + decimal(s.arp) + "  VLAN-tagged "@
        + decimal(s.vlan) + "\n   GRE "@ + decimal(s.gre) + "  ERSPAN "@ + decimal(s.erspan) + "  VXLAN "@ + decimal(s.vxlan)
        + "  Geneve "@ + decimal(s.geneve) + "\n   VLAN-tagged "@ + decimal(s.vlan) + " (QinQ "@ + decimal(s.qinq) + ", "@
        + decimal(s.vlan_ids.len()) + " distinct VLAN IDs)  max encap depth "@ + decimal(s.max_depth) + "  multi-encap "@
        + decimal(s.multi_encap) + "\n"@
}

fn distribution_part(r: &Report) -> (o: String)
    ensures
        o@ == distribution_lines(r@),
{
    let s = &r.stats;
    let mut o = String::from_str("  ── Packet distribution (");
    push_decimal(&mut o, s.unicast as u128 + s.multicast as u128 + s.broadcast as u128);
    o.append(" L2 frames) ──\n   unicast ");
    push_decimal(&mut o, s.unicast as u128);
    o.append("  multicast ");
    push_decimal(&mut o, s.multicast as u128);
    o.append("  broadcast ");
    push_decimal(&mut o, s.broadcast as u128);
    o.append("\n   IPv4 ");
    push_decimal(&mut o, s.ipv4 as u128);
    o.append("  IPv6 ");
    push_decimal(&mut o, s.ipv6 as u128);
    o.append("  ARP ");
    push_decimal(&mut o, s.arp as u128);
    o.append("  VLAN-tagged ");
    push_decimal(&mut o, s.vlan as u128);
    o.append("\n   GRE ");
    push_decimal(&mut o, s.gre as u128);
    o.append("  ERSPAN ");
    push_decimal(&mut o, s.erspan as u128);
    o.append("  VXLAN ");
    push_decimal(&mut o, s.vxlan as u128);
    o.append("  Geneve ");
    push_decimal(&mut o, s.geneve as u128);
    o.append("\n   VLAN-tagged ");
    push_decimal(&mut o, s.vlan as u128);
    o.append(" (QinQ ");
    push_decimal(&mut o, s.qinq as u128);
    o.append(", ");
    push_decimal(&mut o, s.vlan_ids.len() as u128);
    o.append(" distinct VLAN IDs)  max encap depth ");
    push_decimal(&mut o, s.max_depth as u128);
    o.append("  multi-encap ");
    push_decimal(&mut o, s.multi_encap as u128);
    o.append("\n");
    o
}

/// The line of a chain: bar, share, count, name.
pub open spec fn chain_line(c: (Seq<char>, nat), total: nat) -> Seq<char> {
    let pct = percent(c.1, total);
    "   "@ + bar_text(share_bar(pct, 24), 24, '·') + " "@ + padded_left(tenths_text(fixed(pct, 10)), ' ', 6) + "%  "@
        + padded_left(decimal(c.1), ' ', 8) + "  "@ + c.0 + "\n"@
}

pub open spec fn chain_lines(chains: Seq<(Seq<char>, nat)>, total: nat) -> Seq<char>
    decreases chains.len(),
{
    if chains.len() == 0 {
        "  ── Encapsulation chains (count / %) ──\n"@
    } else {
        chain_lines(chains.drop_last(), total) + chain_line(chains.last(), total)
    }
}

/// At most this many chains are shown.
pub const SHOWN_CHAINS: usize = 12;

pub open spec fn chain_part_text(chains: Seq<(Seq<char>, nat)>) -> Seq<char> {
    if chain_total(chains) > 0 {
        chain_lines(leading(ranking(chains), SHOWN_CHAINS as nat), chain_total(chains))
    } else {
        ""@
    }
}

fn chain_row(name: &String, count: u64, total: u128) -> (o: String)
    requires
        0 < total,
    ensures
        o@ == chain_line((name@, count as nat), total as nat),
{
    let pct: Binary64 = percent_of(count as u128, total);
    let mut share = String::new();
    push_tenths(&mut share, pct.fixed(10));
    assert(share@ =~= tenths_text(fixed(pct, 10)));
    let mut o = String::from_str("   ");
    push_bar(&mut o, bar_of_share(pct, 24), 24, '·');
    o.append(" ");
    push_padded_left(&mut o, share.as_str(), ' ', 6);
    o.append("%  ");
    push_padded_left(&mut o, decimal_text(count as u128).as_str(), ' ', 8);
    o.append("  ");
    o.append(name.as_str());
    o.append("\n");
    o
}

fn chain_part(chains: &Vec<(String, u64)>) -> (o: String)
    ensures
        o@ == chain_part_text(chains_view(chains@)),
{
    let total: u128 = total_of(chains);
    if total == 0 {
        return String::from_str("");
    }
    let list: Vec<(String, u64)> = ranked(chains);
    let ghost all = chains_view(list@);
    let n: usize = list.len();
    let shown: usize = if n > SHOWN_CHAINS {
        SHOWN_CHAINS
    } else {
        n
    };
    let mut o = String::from_str("  ── Encapsulation chains (count / %) ──\n");
    let mut i: usize = 0;
    while i < shown
        invariant
            i <= shown <= n,
            n == list@.len(),
            all == chains_view(list@),
            0 < total,
            o@ == chain_lines(all.take(i as int), total as nat),
        decreases shown - i,
    {
        assert(all.take(i + 1).drop_last() =~= all.take(i as int));
        assert(all[i as int] == (list@[i as int].0@, list@[i as int].1 as nat));
        o.append(chain_row(&list[i].0, list[i].1, total).as_str());
        i = i + 1;
    }
    assert(all.take(shown as int) =~= leading(all, SHOWN_CHAINS as nat));
    o
}

/// The lines of a notice.
pub open spec fn notice_line(n: NoticeModel) -> Seq<char> {
    "   ⚠ "@ + n.title + " ["@ + n.code + "]\n     "@ + n.text + "\n"@
}

pub open spec fn notice_lines(notices: Seq<NoticeModel>) -> Seq<char>
    decreases notices.len(),
{
    if notices.len() == 0 {
        "  ── Capture-quality notices ──\n"@
    } else {
        notice_lines(notices.drop_last()) + notice_line(notices.last())
    }
}

pub open spec fn notice_part_text(notices: Seq<NoticeModel>) -> Seq<char> {
    if notices.len() == 0 {
        notice_lines(notices) + "   ✓ no capture-quality notices\n"@
    } else {
        notice_lines(notices)
    }
}

fn notice_row(n: &Notice) -> (o: String)
    ensures
        o@ == notice_line(n@),
{
    let mut o = String::from_str("   ⚠ ");
    o.append(n.title.as_str());
    o.append(" [");
    o.append(n.code);
    o.append("]\n     ");
    o.append(n.text.as_str());
    o.append("\n");
    o
}

fn notice_part(notices: &Vec<Notice>) -> (o: String)
    ensures
        o@ == notice_part_text(notices_view(notices@)),
{
    let mut o = String::from_str("  ── Capture-quality notices ──\n");
    let n: usize = notices.len();
    let mut i: usize = 0;
    let ghost all = notices_view(notices@);
    while i < n
        invariant
            i <= n,
            n == notices@.len(),
            all == notices_view(notices@),
            o@ == notice_lines(all.take(i as int)),
        decreases n - i,
    {
        assert(all.take(i + 1).drop_last() =~= all.take(i as int));
        assert(all[i as int] == notices@[i as int]@);
        o.append(notice_row(&notices[i]).as_str());
        i = i + 1;
    }
    assert(all.take(n as int) =~= all);
    if n == 0 {
        o.append("   ✓ no capture-quality notices\n");
    }
    o
}

/// The text summary of a report.
pub open spec fn summary_text(name: Seq<char>, sha: Seq<char>, r: ReportModel) -> Seq<char> {
    file_lines(name, sha, r) + meta_lines(r) + check_lines(r.checks) + distribution_lines(r) + chain_part_text(
        r.stats.chains,
    ) + notice_part_text(r.notices)
}

/// The text summary of the report on the capture `name` with the digest `sha`.
pub fn summary(name: &str, sha: &str, r: &Report) -> (o: String)
    requires
        r@.wf(),
    ensures
        o@ == summary_text(name@, sha@, r@),
{
    let mut o = file_part(name, sha, r);
    o.append(meta_part(r).as_str());
    o.append(check_part(&r.checks).as_str());
    o.append(distribution_part(r).as_str());
    o.append(chain_part(&r.stats.chains).as_str());
    o.append(notice_part(&r.notices).as_str());
    o
}

/// How grave a verdict is.
pub open spec fn gravity(intake: Intake) -> int {
    match intake {
        Intake::Accept => 0,
        Intake::Review => 1,
        Intake::Reject => 2,
    }
}

/// The exit code for each verdict, 0 for an acceptance, 1 for a review, 2 for a rejection.
pub fn exit_code(intake: Intake) -> (r: i32)
    ensures
        r == gravity(intake),
        r == (match intake {
            Intake::Accept => 0i32,
            Intake::Review => 1,
            Intake::Reject => 2,
        }),
{
    match intake {
        Intake::Accept => 0,
        Intake::Review => 1,
        Intake::Reject => 2,
    }
}

#[verifier::rlimit(30)]
proof fn lemma_file_pieces(name: Seq<char>, sha: Seq<char>, r: ReportModel)
    ensures
        ({
            let text = file_lines(name, sha, r);
            &&& holds(text, "PicoCap 🩺  v"@ + VERSION@ + " \""@)
            &&& holds(text, " \""@ + CODENAME@ + "\"  ·  capture intake\n  file     : "@)
            &&& holds(text, "\"  ·  capture intake\n  file     : "@ + name + "\n  sha256   : "@)
            &&& holds(text, "\n  sha256   : "@ + sha + "\n  format   : "@)
            &&& holds(text, "\n  format   : "@ + r.format.spec_name() + " ("@)
            &&& holds(text, " ("@ + r.linktype + ")\n  packets  : "@)
            &&& holds(text, ")\n  packets  : "@ + decimal(r.packets) + "   size: "@)
            &&& holds(text, "   size: "@ + bytes_text(r.total) + "\n  integrity: ["@)
            &&& holds(text, "\n  integrity: ["@ + bar_text(share_bar(r.score, 28), 28, '░') + "] "@)
            &&& holds(text, "] "@ + tenths_text(fixed(r.score, 10)) + "%  "@)
            &&& holds(text, "%  "@ + r.note + "\n  conform. : "@)
            &&& holds(text, "\n  conform. : "@ + tenths_text(fixed(r.conformance, 10)) + "%  (100% only when every criterion passes)\n"@)
        }),
{
    let text = file_lines(name, sha, r);
    let none = Seq::<char>::empty();
    let d0 = none + "PicoCap 🩺  v"@;
    let d1 = d0 + VERSION@;
    let d2 = d1 + " \""@;
    let d3 = d2 + CODENAME@;
    let d4 = d3 + "\"  ·  capture intake\n  file     : "@;
    let d5 = d4 + name;
    let d6 = d5 + "\n  sha256   : "@;
    let d7 = d6 + sha;
    let d8 = d7 + "\n  format   : "@;
    let d9 = d8 + r.format.spec_name();
    let d10 = d9 + " ("@;
    let d11 = d10 + r.linktype;
    let d12 = d11 + ")\n  packets  : "@;
    let d13 = d12 + decimal(r.packets);
    let d14 = d13 + "   size: "@;
    let d15 = d14 + bytes_text(r.total);
    let d16 = d15 + "\n  integrity: ["@;
    let d17 = d16 + bar_text(share_bar(r.score, 28), 28, '░');
    let d18 = d17 + "] "@;
    let d19 = d18 + tenths_text(fixed(r.score, 10));
    let d20 = d19 + "%  "@;
    let d21 = d20 + r.note;
    let d22 = d21 + "\n  conform. : "@;
    let d23 = d22 + tenths_text(fixed(r.conformance, 10));
    let d24 = d23 + "%  (100% only when every criterion passes)\n"@;
    assert(d0 =~= "PicoCap 🩺  v"@);
    lemma_opens_itself(text);
    lemma_opens_with_less(text, d23, "%  (100% only when every criterion passes)\n"@);
    lemma_opens_with_less(text, d22, tenths_text(fixed(r.conformance, 10)));
    lemma_opens_with_less(text, d21, "\n  conform. : "@);
    lemma_opens_with_less(text, d20, r.note);
    lemma_opens_with_less(text, d19, "%  "@);
    lemma_opens_with_less(text, d18, tenths_text(fixed(r.score, 10)));
    lemma_opens_with_less(text, d17, "] "@);
    lemma_opens_with_less(text, d16, bar_text(share_bar(r.score, 28), 28, '░'));
    lemma_opens_with_less(text, d15, "\n  integrity: ["@);
    lemma_opens_with_less(text, d14, bytes_text(r.total));
    lemma_opens_with_less(text, d13, "   size: "@);
    lemma_opens_with_less(text, d12, decimal(r.packets));
    lemma_opens_with_less(text, d11, ")\n  packets  : "@);
    lemma_opens_with_less(text, d10, r.linktype);
    lemma_opens_with_less(text, d9, " ("@);
    lemma_opens_with_less(text, d8, r.format.spec_name());
    lemma_opens_with_less(text, d7, "\n  format   : "@);
    lemma_opens_with_less(text, d6, sha);
    lemma_opens_with_less(text, d5, "\n  sha256   : "@);
    lemma_opens_with_less(text, d4, name);
    lemma_opens_with_less(text, d3, "\"  ·  capture intake\n  file     : "@);
    lemma_opens_with_less(text, d2, CODENAME@);
    lemma_opens_with_less(text, d1, " \""@);
    lemma_opens_with_less(text, d0, VERSION@);
    lemma_three_parts(text, none, "PicoCap 🩺  v"@, VERSION@, " \""@);
    lemma_three_parts(text, d1, " \""@, CODENAME@, "\"  ·  capture intake\n  file     : "@);
    lemma_three_parts(text, d3, "\"  ·  capture intake\n  file     : "@, name, "\n  sha256   : "@);
    lemma_three_parts(text, d5, "\n  sha256   : "@, sha, "\n  format   : "@);
    lemma_three_parts(text, d7, "\n  format   : "@, r.format.spec_name(), " ("@);
    lemma_three_parts(text, d9, " ("@, r.linktype, ")\n  packets  : "@);
    lemma_three_parts(text, d11, ")\n  packets  : "@, decimal(r.packets), "   size: "@);
    lemma_three_parts(text, d13, "   size: "@, bytes_text(r.total), "\n  integrity: ["@);
    lemma_three_parts(text, d15, "\n  integrity: ["@, bar_text(share_bar(r.score, 28), 28, '░'), "] "@);
    lemma_three_parts(text, d17, "] "@, tenths_text(fixed(r.score, 10)), "%  "@);
    lemma_three_parts(text, d19, "%  "@, r.note, "\n  conform. : "@);
    lemma_three_parts(text, d21, "\n  conform. : "@, tenths_text(fixed(r.conformance, 10)), "%  (100% only when every criterion passes)\n"@);
}

/// The summary tells what the file is and what became of it.
#[verifier::rlimit(30)]
pub proof fn law_summary_tells_the_file(name: Seq<char>, sha: Seq<char>, r: ReportModel)
    ensures
        ({
            let text = summary_text(name, sha, r);
            &&& holds(text, "PicoCap 🩺  v"@ + VERSION@ + " \""@)
            &&& holds(text, " \""@ + CODENAME@ + "\"  ·  capture intake\n  file     : "@)
            &&& holds(text, "\"  ·  capture intake\n  file     : "@ + name + "\n  sha256   : "@)
            &&& holds(text, "\n  sha256   : "@ + sha + "\n  format   : "@)
            &&& holds(text, "\n  format   : "@ + r.format.spec_name() + " ("@)
            &&& holds(text, " ("@ + r.linktype + ")\n  packets  : "@)
            &&& holds(text, ")\n  packets  : "@ + decimal(r.packets) + "   size: "@)
            &&& holds(text, "   size: "@ + bytes_text(r.total) + "\n  integrity: ["@)
            &&& holds(text, "\n  integrity: ["@ + bar_text(share_bar(r.score, 28), 28, '░') + "] "@)
            &&& holds(text, "] "@ + tenths_text(fixed(r.score, 10)) + "%  "@)
            &&& holds(text, "%  "@ + r.note + "\n  conform. : "@)
            &&& holds(text, "\n  conform. : "@ + tenths_text(fixed(r.conformance, 10)) + "%  (100% only when every criterion passes)\n"@)
        }),
{
    lemma_file_pieces(name, sha, r);
    lemma_parts_of_the_summary(name, sha, r);
}

#[verifier::rlimit(30)]
proof fn lemma_meta_pieces(r: ReportModel)
    ensures
        ({
            let text = meta_lines(r);
            &&& holds(text, "  ── Capture metadata ──\n   recorded : "@ + moment(r.stats.ts_first) + "  →  "@)
            &&& holds(text, "  →  "@ + moment(r.stats.ts_last) + "\n"@)
            &&& holds(text, "\n"@ + duration_line(r) + "   pcap ver : "@)
            &&& holds(text, "   pcap ver : "@ + r.ver + "   byte order: "@)
            &&& holds(text, "   byte order: "@ + r.endian + "   ts precision: "@)
            &&& holds(text, "   ts precision: "@ + r.ts_prec + "\n   linktype : "@)
            &&& holds(text, "\n   linktype : "@ + r.linktype + "   snaplen: "@)
            &&& holds(text, "   snaplen: "@ + decimal(r.snaplen as nat) + "   interfaces: "@)
            &&& holds(text, "   interfaces: "@ + decimal(r.iface_count) + "\n   avg pkt  : "@)
            &&& holds(text, "\n   avg pkt  : "@ + decimal(mean_length(r)) + " B   on-wire: "@)
            &&& holds(text, " B   on-wire: "@ + bytes_text(r.wire_bytes as usize as nat) + "   throughput: "@)
            &&& holds(text, "   throughput: "@ + hundredths_text(fixed(mean_rate(r), 100)) + " Mbit/s\n  INTAKE   : "@)
            &&& holds(text, " Mbit/s\n  INTAKE   : "@ + r.intake.spec_name() + "\n"@)
        }),
{
    let text = meta_lines(r);
    let none = Seq::<char>::empty();
    let d0 = none + "  ── Capture metadata ──\n   recorded : "@;
    let d1 = d0 + moment(r.stats.ts_first);
    let d2 = d1 + "  →  "@;
    let d3 = d2 + moment(r.stats.ts_last);
    let d4 = d3 + "\n"@;
    let d5 = d4 + duration_line(r);
    let d6 = d5 + "   pcap ver : "@;
    let d7 = d6 + r.ver;
    let d8 = d7 + "   byte order: "@;
    let d9 = d8 + r.endian;
    let d10 = d9 + "   ts precision: "@;
    let d11 = d10 + r.ts_prec;
    let d12 = d11 + "\n   linktype : "@;
    let d13 = d12 + r.linktype;
    let d14 = d13 + "   snaplen: "@;
    let d15 = d14 + decimal(r.snaplen as nat);
    let d16 = d15 + "   interfaces: "@;
    let d17 = d16 + decimal(r.iface_count);
    let d18 = d17 + "\n   avg pkt  : "@;
    let d19 = d18 + decimal(mean_length(r));
    let d20 = d19 + " B   on-wire: "@;
    let d21 = d20 + bytes_text(r.wire_bytes as usize as nat);
    let d22 = d21 + "   throughput: "@;
    let d23 = d22 + hundredths_text(fixed(mean_rate(r), 100));
    let d24 = d23 + " Mbit/s\n  INTAKE   : "@;
    let d25 = d24 + r.intake.spec_name();
    let d26 = d25 + "\n"@;
    assert(d0 =~= "  ── Capture metadata ──\n   recorded : "@);
    lemma_opens_itself(text);
    lemma_opens_with_less(text, d25, "\n"@);
    lemma_opens_with_less(text, d24, r.intake.spec_name());
    lemma_opens_with_less(text, d23, " Mbit/s\n  INTAKE   : "@);
    lemma_opens_with_less(text, d22, hundredths_text(fixed(mean_rate(r), 100)));
    lemma_opens_with_less(text, d21, "   throughput: "@);
    lemma_opens_with_less(text, d20, bytes_text(r.wire_bytes as usize as nat));
    lemma_opens_with_less(text, d19, " B   on-wire: "@);
    lemma_opens_with_less(text, d18, decimal(mean_length(r)));
    lemma_opens_with_less(text, d17, "\n   avg pkt  : "@);
    lemma_opens_with_less(text, d16, decimal(r.iface_count));
    lemma_opens_with_less(text, d15, "   interfaces: "@);
    lemma_opens_with_less(text, d14, decimal(r.snaplen as nat));
    lemma_opens_with_less(text, d13, "   snaplen: "@);
    lemma_opens_with_less(text, d12, r.linktype);
    lemma_opens_with_less(text, d11, "\n   linktype : "@);
    lemma_opens_with_less(text, d10, r.ts_prec);
    lemma_opens_with_less(text, d9, "   ts precision: "@);
    lemma_opens_with_less(text, d8, r.endian);
    lemma_opens_with_less(text, d7, "   byte order: "@);
    lemma_opens_with_less(text, d6, r.ver);
    lemma_opens_with_less(text, d5, "   pcap ver : "@);
    lemma_opens_with_less(text, d4, duration_line(r));
    lemma_opens_with_less(text, d3, "\n"@);
    lemma_opens_with_less(text, d2, moment(r.stats.ts_last));
    lemma_opens_with_less(text, d1, "  →  "@);
    lemma_opens_with_less(text, d0, moment(r.stats.ts_first));
    lemma_three_parts(text, none, "  ── Capture metadata ──\n   recorded : "@, moment(r.stats.ts_first), "  →  "@);
    lemma_three_parts(text, d1, "  →  "@, moment(r.stats.ts_last), "\n"@);
    lemma_three_parts(text, d3, "\n"@, duration_line(r), "   pcap ver : "@);
    lemma_three_parts(text, d5, "   pcap ver : "@, r.ver, "   byte order: "@);
    lemma_three_parts(text, d7, "   byte order: "@, r.endian, "   ts precision: "@);
    lemma_three_parts(text, d9, "   ts precision: "@, r.ts_prec, "\n   linktype : "@);
    lemma_three_parts(text, d11, "\n   linktype : "@, r.linktype, "   snaplen: "@);
    lemma_three_parts(text, d13, "   snaplen: "@, decimal(r.snaplen as nat), "   interfaces: "@);
    lemma_three_parts(text, d15, "   interfaces: "@, decimal(r.iface_count), "\n   avg pkt  : "@);
    lemma_three_parts(text, d17, "\n   avg pkt  : "@, decimal(mean_length(r)), " B   on-wire: "@);
    lemma_three_parts(text, d19, " B   on-wire: "@, bytes_text(r.wire_bytes as usize as nat), "   throughput: "@);
    lemma_three_parts(text, d21, "   throughput: "@, hundredths_text(fixed(mean_rate(r), 100)), " Mbit/s\n  INTAKE   : "@);
    lemma_three_parts(text, d23, " Mbit/s\n  INTAKE   : "@, r.intake.spec_name(), "\n"@);
}

/// The summary tells the metadata of the capture and the verdict on it.
#[verifier::rlimit(30)]
pub proof fn law_summary_tells_the_metadata(name: Seq<char>, sha: Seq<char>, r: ReportModel)
    ensures
        ({
            let text = summary_text(name, sha, r);
            &&& holds(text, "  ── Capture metadata ──\n   recorded : "@ + moment(r.stats.ts_first) + "  →  "@)
            &&& holds(text, "  →  "@ + moment(r.stats.ts_last) + "\n"@)
            &&& holds(text, "\n"@ + duration_line(r) + "   pcap ver : "@)
            &&& holds(text, "   pcap ver : "@ + r.ver + "   byte order: "@)
            &&& holds(text, "   byte order: "@ + r.endian + "   ts precision: "@)
            &&& holds(text, "   ts precision: "@ + r.ts_prec + "\n   linktype : "@)
            &&& holds(text, "\n   linktype : "@ + r.linktype + "   snaplen: "@)
            &&& holds(text, "   snaplen: "@ + decimal(r.snaplen as nat) + "   interfaces: "@)
            &&& holds(text, "   interfaces: "@ + decimal(r.iface_count) + "\n   avg pkt  : "@)
            &&& holds(text, "\n   avg pkt  : "@ + decimal(mean_length(r)) + " B   on-wire: "@)
            &&& holds(text, " B   on-wire: "@ + bytes_text(r.wire_bytes as usize as nat) + "   throughput: "@)
            &&& holds(text, "   throughput: "@ + hundredths_text(fixed(mean_rate(r), 100)) + " Mbit/s\n  INTAKE   : "@)
            &&& holds(text, " Mbit/s\n  INTAKE   : "@ + r.intake.spec_name() + "\n"@)
        }),
{
    lemma_meta_pieces(r);
    lemma_parts_of_the_summary(name, sha, r);
}

#[verifier::rlimit(30)]
proof fn lemma_distribution_pieces(r: ReportModel)
    ensures
        ({
            let text = distribution_lines(r);
            &&& holds(text, "  ── Packet distribution ("@ + decimal(r.stats.unicast + r.stats.multicast + r.stats.broadcast) + " L2 frames) ──\n   unicast "@)
            &&& holds(text, " L2 frames) ──\n   unicast "@ + decimal(r.stats.unicast) + "  multicast "@)
            &&& holds(text, "  multicast "@ + decimal(r.stats.multicast) + "  broadcast "@)
            &&& holds(text, "  broadcast "@ + decimal(r.stats.broadcast) + "\n   IPv4 "@)
            &&& holds(text, "\n   IPv4 "@ + decimal(r.stats.ipv4) + "  IPv6 "@)
            &&& holds(text, "  IPv6 "@ + decimal(r.stats.ipv6) + "  ARP "@)
            &&& holds(text, "  ARP "@ + decimal(r.stats.arp) + "  VLAN-tagged "@)
            &&& holds(text, "  VLAN-tagged "@ + decimal(r.stats.vlan) + "\n   GRE "@)
            &&& holds(text, "\n   GRE "@ + decimal(r.stats.gre) + "  ERSPAN "@)
            &&& holds(text, "  ERSPAN "@ + decimal(r.stats.erspan) + "  VXLAN "@)
            &&& holds(text, "  VXLAN "@ + decimal(r.stats.vxlan) + "  Geneve "@)
            &&& holds(text, "  Geneve "@ + decimal(r.stats.geneve) + "\n   VLAN-tagged "@)
            &&& holds(text, "\n   VLAN-tagged "@ + decimal(r.stats.vlan) + " (QinQ "@)
            &&& holds(text, " (QinQ "@ + decimal(r.stats.qinq) + ", "@)
            &&& holds(text, ", "@ + decimal(r.stats.vlan_ids.len()) + " distinct VLAN IDs)  max encap depth "@)
            &&& holds(text, " distinct VLAN IDs)  max encap depth "@ + decimal(r.stats.max_depth) + "  multi-encap "@)
            &&& holds(text, "  multi-encap "@ + decimal(r.stats.multi_encap) + "\n"@)
        }),
{
    let text = distribution_lines(r);
    let none = Seq::<char>::empty();
    let d0 = none + "  ── Packet distribution ("@;
    let d1 = d0 + decimal(r.stats.unicast + r.stats.multicast + r.stats.broadcast);
    let d2 = d1 + " L2 frames) ──\n   unicast "@;
    let d3 = d2 + decimal(r.stats.unicast);
    let d4 = d3 + "  multicast "@;
    let d5 = d4 + decimal(r.stats.multicast);
    let d6 = d5 + "  broadcast "@;
    let d7 = d6 + decimal(r.stats.broadcast);
    let d8 = d7 + "\n   IPv4 "@;
    let d9 = d8 + decimal(r.stats.ipv4);
    let d10 = d9 + "  IPv6 "@;
    let d11 = d10 + decimal(r.stats.ipv6);
    let d12 = d11 + "  ARP "@;
    let d13 = d12 + decimal(r.stats.arp);
    let d14 = d13 + "  VLAN-tagged "@;
    let d15 = d14 + decimal(r.stats.vlan);
    let d16 = d15 + "\n   GRE "@;
    let d17 = d16 + decimal(r.stats.gre);
    let d18 = d17 + "  ERSPAN "@;
    let d19 = d18 + decimal(r.stats.erspan);
    let d20 = d19 + "  VXLAN "@;
    let d21 = d20 + decimal(r.stats.vxlan);
    let d22 = d21 + "  Geneve "@;
    let d23 = d22 + decimal(r.stats.geneve);
    let d24 = d23 + "\n   VLAN-tagged "@;
    let d25 = d24 + decimal(r.stats.vlan);
    let d26 = d25 + " (QinQ "@;
    let d27 = d26 + decimal(r.stats.qinq);
    let d28 = d27 + ", "@;
    let d29 = d28 + decimal(r.stats.vlan_ids.len());
    let d30 = d29 + " distinct VLAN IDs)  max encap depth "@;
    let d31 = d30 + decimal(r.stats.max_depth);
    let d32 = d31 + "  multi-encap "@;
    let d33 = d32 + decimal(r.stats.multi_encap);
    let d34 = d33 + "\n"@;
    assert(d0 =~= "  ── Packet distribution ("@);
    lemma_opens_itself(text);
    lemma_opens_with_less(text, d33, "\n"@);
    lemma_opens_with_less(text, d32, decimal(r.stats.multi_encap));
    lemma_opens_with_less(text, d31, "  multi-encap "@);
    lemma_opens_with_less(text, d30, decimal(r.stats.max_depth));
    lemma_opens_with_less(text, d29, " distinct VLAN IDs)  max encap depth "@);
    lemma_opens_with_less(text, d28, decimal(r.stats.vlan_ids.len()));
    lemma_opens_with_less(text, d27, ", "@);
    lemma_opens_with_less(text, d26, decimal(r.stats.qinq));
    lemma_opens_with_less(text, d25, " (QinQ "@);
    lemma_opens_with_less(text, d24, decimal(r.stats.vlan));
    lemma_opens_with_less(text, d23, "\n   VLAN-tagged "@);
    lemma_opens_with_less(text, d22, decimal(r.stats.geneve));
    lemma_opens_with_less(text, d21, "  Geneve "@);
    lemma_opens_with_less(text, d20, decimal(r.stats.vxlan));
    lemma_opens_with_less(text, d19, "  VXLAN "@);
    lemma_opens_with_less(text, d18, decimal(r.stats.erspan));
    lemma_opens_with_less(text, d17, "  ERSPAN "@);
    lemma_opens_with_less(text, d16, decimal(r.stats.gre));
    lemma_opens_with_less(text, d15, "\n   GRE "@);
    lemma_opens_with_less(text, d14, decimal(r.stats.vlan));
    lemma_opens_with_less(text, d13, "  VLAN-tagged "@);
    lemma_opens_with_less(text, d12, decimal(r.stats.arp));
    lemma_opens_with_less(text, d11, "  ARP "@);
    lemma_opens_with_less(text, d10, decimal(r.stats.ipv6));
    lemma_opens_with_less(text, d9, "  IPv6 "@);
    lemma_opens_with_less(text, d8, decimal(r.stats.ipv4));
    lemma_opens_with_less(text, d7, "\n   IPv4 "@);
    lemma_opens_with_less(text, d6, decimal(r.stats.broadcast));
    lemma_opens_with_less(text, d5, "  broadcast "@);
    lemma_opens_with_less(text, d4, decimal(r.stats.multicast));
    lemma_opens_with_less(text, d3, "  multicast "@);
    lemma_opens_with_less(text, d2, decimal(r.stats.unicast));
    lemma_opens_with_less(text, d1, " L2 frames) ──\n   unicast "@);
    lemma_opens_with_less(text, d0, decimal(r.stats.unicast + r.stats.multicast + r.stats.broadcast));
    lemma_three_parts(text, none, "  ── Packet distribution ("@, decimal(r.stats.unicast + r.stats.multicast + r.stats.broadcast), " L2 frames) ──\n   unicast "@);
    lemma_three_parts(text, d1, " L2 frames) ──\n   unicast "@, decimal(r.stats.unicast), "  multicast "@);
    lemma_three_parts(text, d3, "  multicast "@, decimal(r.stats.multicast), "  broadcast "@);
    lemma_three_parts(text, d5, "  broadcast "@, decimal(r.stats.broadcast), "\n   IPv4 "@);
    lemma_three_parts(text, d7, "\n   IPv4 "@, decimal(r.stats.ipv4), "  IPv6 "@);
    lemma_three_parts(text, d9, "  IPv6 "@, decimal(r.stats.ipv6), "  ARP "@);
    lemma_three_parts(text, d11, "  ARP "@, decimal(r.stats.arp), "  VLAN-tagged "@);
    lemma_three_parts(text, d13, "  VLAN-tagged "@, decimal(r.stats.vlan), "\n   GRE "@);
    lemma_three_parts(text, d15, "\n   GRE "@, decimal(r.stats.gre), "  ERSPAN "@);
    lemma_three_parts(text, d17, "  ERSPAN "@, decimal(r.stats.erspan), "  VXLAN "@);
    lemma_three_parts(text, d19, "  VXLAN "@, decimal(r.stats.vxlan), "  Geneve "@);
    lemma_three_parts(text, d21, "  Geneve "@, decimal(r.stats.geneve), "\n   VLAN-tagged "@);
    lemma_three_parts(text, d23, "\n   VLAN-tagged "@, decimal(r.stats.vlan), " (QinQ "@);
    lemma_three_parts(text, d25, " (QinQ "@, decimal(r.stats.qinq), ", "@);
    lemma_three_parts(text, d27, ", "@, decimal(r.stats.vlan_ids.len()), " distinct VLAN IDs)  max encap depth "@);
    lemma_three_parts(text, d29, " distinct VLAN IDs)  max encap depth "@, decimal(r.stats.max_depth), "  multi-encap "@);
    lemma_three_parts(text, d31, "  multi-encap "@, decimal(r.stats.multi_encap), "\n"@);
}

/// The summary tells the distribution of the packets.
#[verifier::rlimit(30)]
pub proof fn law_summary_tells_the_distribution(name: Seq<char>, sha: Seq<char>, r: ReportModel)
    ensures
        ({
            let text = summary_text(name, sha, r);
            &&& holds(text, "  ── Packet distribution ("@ + decimal(r.stats.unicast + r.stats.multicast + r.stats.broadcast) + " L2 frames) ──\n   unicast "@)
            &&& holds(text, " L2 frames) ──\n   unicast "@ + decimal(r.stats.unicast) + "  multicast "@)
            &&& holds(text, "  multicast "@ + decimal(r.stats.multicast) + "  broadcast "@)
            &&& holds(text, "  broadcast "@ + decimal(r.stats.broadcast) + "\n   IPv4 "@)
            &&& holds(text, "\n   IPv4 "@ + decimal(r.stats.ipv4) + "  IPv6 "@)
            &&& holds(text, "  IPv6 "@ + decimal(r.stats.ipv6) + "  ARP "@)
            &&& holds(text, "  ARP "@ + decimal(r.stats.arp) + "  VLAN-tagged "@)
            &&& holds(text, "  VLAN-tagged "@ + decimal(r.stats.vlan) + "\n   GRE "@)
            &&& holds(text, "\n   GRE "@ + decimal(r.stats.gre) + "  ERSPAN "@)
            &&& holds(text, "  ERSPAN "@ + decimal(r.stats.erspan) + "  VXLAN "@)
            &&& holds(text, "  VXLAN "@ + decimal(r.stats.vxlan) + "  Geneve "@)
            &&& holds(text, "  Geneve "@ + decimal(r.stats.geneve) + "\n   VLAN-tagged "@)
            &&& holds(text, "\n   VLAN-tagged "@ + decimal(r.stats.vlan) + " (QinQ "@)
            &&& holds(text, " (QinQ "@ + decimal(r.stats.qinq) + ", "@)
            &&& holds(text, ", "@ + decimal(r.stats.vlan_ids.len()) + " distinct VLAN IDs)  max encap depth "@)
            &&& holds(text, " distinct VLAN IDs)  max encap depth "@ + decimal(r.stats.max_depth) + "  multi-encap "@)
            &&& holds(text, "  multi-encap "@ + decimal(r.stats.multi_encap) + "\n"@)
        }),
{
    lemma_distribution_pieces(r);
    lemma_parts_of_the_summary(name, sha, r);
}

/// What a part of the summary holds, the summary holds.
proof fn lemma_parts_of_the_summary(name: Seq<char>, sha: Seq<char>, r: ReportModel)
    ensures
        ({
            let text = summary_text(name, sha, r);
            &&& forall|p: Seq<char>| #[trigger] holds(file_lines(name, sha, r), p) ==> holds(text, p)
            &&& forall|p: Seq<char>| #[trigger] holds(meta_lines(r), p) ==> holds(text, p)
            &&& forall|p: Seq<char>| #[trigger] holds(check_lines(r.checks), p) ==> holds(text, p)
            &&& forall|p: Seq<char>| #[trigger] holds(distribution_lines(r), p) ==> holds(text, p)
            &&& forall|p: Seq<char>| #[trigger] holds(chain_part_text(r.stats.chains), p) ==> holds(text, p)
            &&& forall|p: Seq<char>| #[trigger] holds(notice_part_text(r.notices), p) ==> holds(text, p)
        }),
{
    let a0 = file_lines(name, sha, r);
    let a1 = a0 + meta_lines(r);
    let a2 = a1 + check_lines(r.checks);
    let a3 = a2 + distribution_lines(r);
    let a4 = a3 + chain_part_text(r.stats.chains);
    lemma_holds_in_front(a0, meta_lines(r));
    lemma_holds_in_front(a1, check_lines(r.checks));
    lemma_holds_in_front(a2, distribution_lines(r));
    lemma_holds_in_front(a3, chain_part_text(r.stats.chains));
    lemma_holds_in_front(a4, notice_part_text(r.notices));
}

proof fn lemma_check_lines(checks: Seq<CheckModel>, i: int)
    requires
        0 <= i < checks.len(),
    ensures
        holds(check_lines(checks), check_line(checks[i])),
    decreases checks.len(),
{
    lemma_holds_in_front(check_lines(checks.drop_last()), check_line(checks.last()));
    if i < checks.len() - 1 {
        lemma_check_lines(checks.drop_last(), i);
    }
}

proof fn lemma_notice_lines(notices: Seq<NoticeModel>, i: int)
    requires
        0 <= i < notices.len(),
    ensures
        holds(notice_lines(notices), notice_line(notices[i])),
    decreases notices.len(),
{
    lemma_holds_in_front(notice_lines(notices.drop_last()), notice_line(notices.last()));
    if i < notices.len() - 1 {
        lemma_notice_lines(notices.drop_last(), i);
    }
}

proof fn lemma_chain_lines(chains: Seq<(Seq<char>, nat)>, total: nat, i: int)
    requires
        0 <= i < chains.len(),
    ensures
        holds(chain_lines(chains, total), chain_line(chains[i], total)),
    decreases chains.len(),
{
    lemma_holds_in_front(chain_lines(chains.drop_last(), total), chain_line(chains.last(), total));
    if i < chains.len() - 1 {
        lemma_chain_lines(chains.drop_last(), total, i);
    }
}

/// The summary has a line for every criterion: a mark for its level, its name in a
/// column of 26 characters, and its remark.
pub proof fn law_summary_lists_the_criteria(name: Seq<char>, sha: Seq<char>, r: ReportModel, i: int)
    requires
        0 <= i < r.checks.len(),
    ensures
        holds(
            summary_text(name, sha, r),
            "   ["@ + (match r.checks[i].level {
                Level::Pass => "✓"@,
                Level::Warn => "!"@,
                Level::Fail => "✗"@,
                Level::Info => "i"@,
            }) + "] "@ + padded_right(r.checks[i].label, 26) + " "@ + r.checks[i].detail + "\n"@,
        ),
{
    lemma_parts_of_the_summary(name, sha, r);
    lemma_check_lines(r.checks, i);
}

/// The summary has every notice, and says so where there is none.
pub proof fn law_summary_lists_the_notices(name: Seq<char>, sha: Seq<char>, r: ReportModel, i: int)
    ensures
        0 <= i < r.notices.len() ==> holds(
            summary_text(name, sha, r),
            "   ⚠ "@ + r.notices[i].title + " ["@ + r.notices[i].code + "]\n     "@ + r.notices[i].text + "\n"@,
        ),
        r.notices.len() == 0 ==> holds(summary_text(name, sha, r), "   ✓ no capture-quality notices\n"@),
{
    lemma_parts_of_the_summary(name, sha, r);
    if r.notices.len() == 0 {
        lemma_holds_in_front(notice_lines(r.notices), "   ✓ no capture-quality notices\n"@);
    } else if 0 <= i < r.notices.len() {
        lemma_notice_lines(r.notices, i);
    }
}

/// The summary has a line for each of the twelve most frequent chains: its share of
/// all frames, its count and its name.
pub proof fn law_summary_lists_the_chains(name: Seq<char>, sha: Seq<char>, r: ReportModel, i: int)
    requires
        0 <= i < r.stats.chains.len(),
        i < 12,
        chain_total(r.stats.chains) > 0,
    ensures
        ({
            let (chain, count) = ranking(r.stats.chains)[i];
            holds(
                summary_text(name, sha, r),
                padded_left(
                    tenths_text(fixed(percent(count, chain_total(r.stats.chains)), 10)),
                    ' ',
                    6,
                ) + "%  "@ + padded_left(decimal(count), ' ', 8) + "  "@ + chain + "\n"@,
            )
        }),
{
    let all = ranking(r.stats.chains);
    let total = chain_total(r.stats.chains);
    assert(all.len() == r.stats.chains.len()) by {
        crate::ranking::law_chains_are_ranked(r.stats.chains);
    }
    let list = leading(all, SHOWN_CHAINS as nat);
    assert(list[i] == all[i]);
    lemma_chain_lines(list, total, i);
    let (chain, count) = all[i];
    let pct = percent(count, total);
    let front = "   "@ + bar_text(share_bar(pct, 24), 24, '·') + " "@;
    let piece = padded_left(tenths_text(fixed(pct, 10)), ' ', 6) + "%  "@ + padded_left(decimal(count), ' ', 8) + "  "@
        + chain + "\n"@;
    assert(chain_line(all[i], total) =~= front + piece);
    lemma_holds_in_front(front, piece);
    lemma_holds_through(chain_lines(list, total), front + piece, piece);
    assert(holds(summary_text(name, sha, r), piece)) by {
        lemma_parts_of_the_summary(name, sha, r);
    }
}

/// A bar has its width: the filled part in front, the blank part behind.
pub proof fn law_bars(filled: nat, width: nat, blank: char)
    requires
        filled <= width,
    ensures
        bar_text(filled, width, blank).len() == width,
        forall|i: int| 0 <= i < filled ==> #[trigger] bar_text(filled, width, blank)[i] == '█',
        forall|i: int| filled <= i < width ==> #[trigger] bar_text(filled, width, blank)[i] == blank,
{
}

/// Only an acceptance exits with zero, and a rejection exits with more than a review.
pub proof fn law_gravity(r: ReportModel, c: Settings)
    ensures
        gravity(judged(r, c).intake) == 0 <==> judged(r, c).intake == Intake::Accept,
        gravity(judged(r, c).intake) == 2 <==> has_level(judged(r, c).checks, Level::Fail),
        0 <= gravity(judged(r, c).intake) <= 2,
{
}

/// The rate is told where the capture has a duration, and is zero otherwise.
pub proof fn law_mean_rate(r: ReportModel)
    ensures
        r.has_time && r.duration.mant > 0 ==> mean_rate(r) == megabit_rate(r.wire_bytes as nat, r.duration),
        !r.has_time || r.duration.mant == 0 ==> mean_rate(r).mant == 0,
        r.has_time ==> duration_line(r) == "   duration : "@ + dur_text(r.duration) + "\n"@,
        !r.has_time ==> duration_line(r) == ""@,
{
}

/// Only the twelve most frequent chains are shown: what comes behind them shows in
/// nothing but the total.
pub proof fn law_only_twelve_chains_are_shown(a: Seq<(Seq<char>, nat)>, b: Seq<(Seq<char>, nat)>)
    requires
        ranking(a).len() > 12,
        ranking(b).len() > 12,
        ranking(a).take(12) == ranking(b).take(12),
        chain_total(a) == chain_total(b),
    ensures
        chain_part_text(a) == chain_part_text(b),
{
}

} // verus!
