//! The assessment report in Markdown.

use vstd::prelude::*;
use vstd::slice::slice_subrange;

use crate::about::{CODENAME, TRUST_NOTE, VERSION};
use crate::binary64::Binary64;
#[allow(unused_imports)]
use crate::binary64::{fixed, whole, zero};
use crate::checks::finding_source;
#[allow(unused_imports)]
use crate::checks::source_text;
use crate::figures::{bar_beside, human_bytes, megabits_per_second, percent_of, push_hundredths_of};
#[allow(unused_imports)]
use crate::figures::{bytes_text, megabit_rate, percent, relative_bar};
#[allow(unused_imports)]
use crate::pieces::{
    holds, lemma_holds_in_front, lemma_holds_through, lemma_opens_itself, lemma_opens_with_less, lemma_three_parts,
};
use crate::ranking::{ranked, total_of};
#[allow(unused_imports)]
use crate::ranking::{chain_total, ranking};
use crate::report::{Check, Intake, Level, Notice, Report};
#[allow(unused_imports)]
use crate::report::{checks_view, notices_view, CheckModel, NoticeModel, ReportModel};
#[allow(unused_imports)]
use crate::stats::chains_view;
use crate::text::{grp, md_esc, push_decimal, push_repeated, push_tenths};
#[allow(unused_imports)]
use crate::text::{decimal, digit, grouped, hundredths_text, md_text, repeated, tenths_text, without};
use crate::time::{fmt_utc, human_dur};
#[allow(unused_imports)]
use crate::time::{dur_text, utc_text};
use crate::words::{chars_of, text_of};

verus! {

/// The first `n` characters of a text, where it has so many; else nothing.
pub open spec fn first_chars(s: Seq<char>, n: nat) -> Seq<char> {
    if s.len() >= n {
        s.take(n as int)
    } else {
        Seq::empty()
    }
}

/// A letter of the Latin alphabet in capitals.
pub open spec fn upper(c: char) -> char {
    if 'a' <= c <= 'z' {
        (c as u32 - 32) as char
    } else {
        c
    }
}

/// A text with its Latin letters in capitals.
pub open spec fn uppered(s: Seq<char>) -> Seq<char> {
    s.map_values(|c: char| upper(c))
}

/// Whether a text is made of ASCII characters, as a digest in hexadecimal is.
pub open spec fn is_ascii_text(s: Seq<char>) -> bool {
    forall|i: int| 0 <= i < s.len() ==> (#[trigger] s[i] as u32) < 128
}

/// The bytes that a character takes in UTF-8.
pub open spec fn char_size(c: char) -> nat {
    let n = c as u32;
    if n < 0x80 {
        1
    } else if n < 0x800 {
        2
    } else if n < 0x1_0000 {
        3
    } else {
        4
    }
}

/// The bytes that a text takes in UTF-8.
pub open spec fn text_size(s: Seq<char>) -> nat
    decreases s.len(),
{
    if s.len() == 0 {
        0
    } else {
        text_size(s.drop_last()) + char_size(s.last())
    }
}

/// Whether the first `k` characters of a text take `n` bytes.
pub open spec fn is_cut(s: Seq<char>, k: int, n: nat) -> bool {
    0 <= k <= s.len() && text_size(s.take(k)) == n
}

/// The first `n` bytes of a text, where it has so many and they end with a
/// character; else nothing.
pub open spec fn first_bytes(s: Seq<char>, n: nat) -> Seq<char> {
    if exists|k: int| is_cut(s, k, n) {
        s.take(choose|k: int| is_cut(s, k, n))
    } else {
        Seq::empty()
    }
}

/// A text in upper case.
pub uninterp spec fn capitals(s: Seq<char>) -> Seq<char>;

/// `str::to_uppercase`: the text in upper case as Unicode defines it; of ASCII
/// text the letters become capitals, and nothing else changes.
#[verifier::external_body]
fn to_upper(s: &str) -> (r: String)
    ensures
        r@ == capitals(s@),
        is_ascii_text(s@) ==> r@ == uppered(s@),
{
    s.to_uppercase()
}

/// Seconds since the start of 1970 as a point in time.
pub open spec fn clock_time(now: u64) -> Binary64 {
    whole(now as nat)
}

/// The number of a report: the day of its issue and the start of the digest.
pub open spec fn report_number(sha: Seq<char>, now: u64) -> Seq<char> {
    "PC-"@ + without(first_chars(utc_text(clock_time(now)), 10), '-') + "-"@ + capitals(first_bytes(sha, 8))
}

fn head_chars(s: &str, n: usize) -> (r: Vec<char>)
    ensures
        r@ == first_chars(s@, n as nat),
{
    let all: Vec<char> = chars_of(s);
    if all.len() >= n {
        let mut out: Vec<char> = Vec::new();
        out.extend_from_slice(slice_subrange(all.as_slice(), 0, n));
        assert(out@ =~= s@.take(n as int));
        out
    } else {
        Vec::new()
    }
}

fn push_without(out: &mut String, s: &Vec<char>, c: char)
    ensures
        final(out)@ == old(out)@ + without(s@, c),
{
    let n: usize = s.len();
    let mut i: usize = 0;
    assert(old(out)@ + without(s@.take(0), c) =~= old(out)@);
    while i < n
        invariant
            i <= n,
            n == s@.len(),
            out@ == old(out)@ + without(s@.take(i as int), c),
        decreases n - i,
    {
        assert(s@.take(i + 1).drop_last() =~= s@.take(i as int));
        if s[i] != c {
            out.push(s[i]);
        }
        i = i + 1;
        assert(out@ =~= old(out)@ + without(s@.take(i as int), c));
    }
    assert(s@.take(n as int) =~= s@);
}

proof fn lemma_size_grows(s: Seq<char>, j: int, k: int)
    requires
        0 <= j < k <= s.len(),
    ensures
        text_size(s.take(j)) < text_size(s.take(k)),
    decreases k,
{
    assert(s.take(k).drop_last() =~= s.take(k - 1));
    if j < k - 1 {
        lemma_size_grows(s, j, k - 1);
    }
}

/// The first `n` bytes of a text end where its first `k` characters do.
proof fn lemma_first_bytes(s: Seq<char>, k: int, n: nat)
    requires
        is_cut(s, k, n),
    ensures
        first_bytes(s, n) == s.take(k),
{
    let other = choose|k: int| is_cut(s, k, n);
    if other < k {
        lemma_size_grows(s, other, k);
    } else if k < other {
        lemma_size_grows(s, k, other);
    }
}

/// Of ASCII text every character is a byte.
proof fn lemma_ascii_size(s: Seq<char>)
    requires
        is_ascii_text(s),
    ensures
        text_size(s) == s.len(),
    decreases s.len(),
{
    if s.len() > 0 {
        lemma_ascii_size(s.drop_last());
    }
}

proof fn lemma_ascii_first_bytes(s: Seq<char>, n: nat)
    requires
        is_ascii_text(s),
    ensures
        first_bytes(s, n) == first_chars(s, n),
        is_ascii_text(first_bytes(s, n)),
{
    if n <= s.len() {
        lemma_ascii_size(s.take(n as int));
        lemma_first_bytes(s, n as int, n);
    } else if exists|k: int| is_cut(s, k, n) {
        let k = choose|k: int| is_cut(s, k, n);
        lemma_ascii_size(s.take(k));
    }
}

fn size_of(c: char) -> (r: usize)
    ensures
        r == char_size(c),
{
    let n: u32 = c as u32;
    if n < 0x80 {
        1
    } else if n < 0x800 {
        2
    } else if n < 0x1_0000 {
        3
    } else {
        4
    }
}

fn head_bytes(s: &str, n: usize) -> (r: Vec<char>)
    requires
        n <= 0x1_0000,
    ensures
        r@ == first_bytes(s@, n as nat),
{
    let all: Vec<char> = chars_of(s);
    let len: usize = all.len();
    let mut size: usize = 0;
    let mut i: usize = 0;
    while i < len && size < n
        invariant
            i <= len,
            len == all@.len(),
            all@ == s@,
            n <= 0x1_0000,
            size <= n + 3,
            size == text_size(all@.take(i as int)),
            i > 0 ==> text_size(all@.take(i - 1)) < n,
        decreases len - i,
    {
        assert(all@.take(i + 1).drop_last() =~= all@.take(i as int));
        size = size + size_of(all[i]);
        i = i + 1;
    }
    if size == n {
        let mut out: Vec<char> = Vec::new();
        out.extend_from_slice(slice_subrange(all.as_slice(), 0, i));
        assert(out@ =~= s@.take(i as int));
        proof {
            assert(is_cut(s@, i as int, n as nat));
            lemma_first_bytes(s@, i as int, n as nat);
        }
        out
    } else {
        proof {
            assert forall|k: int| !is_cut(s@, k, n as nat) by {
                if 0 <= k < i && k != i - 1 {
                    lemma_size_grows(s@, k, i - 1);
                } else if i < k <= s@.len() {
                    lemma_size_grows(s@, i as int, k);
                }
            }
        }
        Vec::new()
    }
}

fn number_of(sha: &str, now: u64) -> (r: String)
    ensures
        r@ == report_number(sha@, now),
        is_ascii_text(sha@) ==> capitals(first_bytes(sha@, 8)) == uppered(first_chars(sha@, 8)),
{
    let issued = fmt_utc(Binary64::whole(now as u128));
    let day = head_chars(issued.as_str(), 10);
    let mut out = String::from_str("PC-");
    push_without(&mut out, &day, '-');
    out.append("-");
    let start = text_of(head_bytes(sha, 8).as_slice());
    let start = to_upper(start.as_str());
    out.append(start.as_str());
    proof {
        if is_ascii_text(sha@) {
            lemma_ascii_first_bytes(sha@, 8);
        }
    }
    out
}

fn push_grp(out: &mut String, n: u64)
    ensures
        final(out)@ == old(out)@ + grouped(n as nat),
{
    let s = grp(n);
    out.append(s.as_str());
}

fn push_md(out: &mut String, s: &str)
    ensures
        final(out)@ == old(out)@ + md_text(s@),
{
    let t = md_esc(s);
    out.append(t.as_str());
}

/// Title, number and the object under test.
pub open spec fn head_text(name: Seq<char>, sha: Seq<char>, r: ReportModel, now: u64) -> Seq<char> {
    "# Technical Assessment Report — PCAP Capture Intake\n\n**Report No.** `"@ + report_number(sha, now)
        + "`  ·  **Issued** "@ + utc_text(clock_time(now))
        + "  ·  **Classification** CONFIDENTIAL\n\n| Field | Value |\n|---|---|\n| Object under test | "@ + md_text(name)
        + " |\n| SHA-256 | `"@ + sha + "` |\n| Size | "@ + bytes_text(r.total) + " ("@ + grouped(r.packets)
        + " packets, "@ + r.format.spec_upper_name() + ") |\n| Assessment tool | PicoCap v"@ + VERSION@ + " \""@ + CODENAME@
        + "\" — local capture intake checker |\n\n"@
}

fn head_section(name: &str, sha: &str, r: &Report, now: u64) -> (o: String)
    ensures
        o@ == head_text(name@, sha@, r@, now),
        is_ascii_text(sha@) ==> capitals(first_bytes(sha@, 8)) == uppered(first_chars(sha@, 8)),
{
    let mut o = String::from_str("# Technical Assessment Report — PCAP Capture Intake\n\n**Report No.** `");
    let number = number_of(sha, now);
    o.append(number.as_str());
    o.append("`  ·  **Issued** ");
    let issued = fmt_utc(Binary64::whole(now as u128));
    o.append(issued.as_str());
    o.append("  ·  **Classification** CONFIDENTIAL\n\n| Field | Value |\n|---|---|\n| Object under test | ");
    push_md(&mut o, name);
    o.append(" |\n| SHA-256 | `");
    o.append(sha);
    o.append("` |\n| Size | ");
    let size = human_bytes(r.total);
    o.append(size.as_str());
    o.append(" (");
    push_grp(&mut o, r.packets as u64);
    o.append(" packets, ");
    o.append(r.format.upper_name());
    o.append(") |\n| Assessment tool | PicoCap v");
    o.append(VERSION);
    o.append(" \"");
    o.append(CODENAME);
    o.append("\" — local capture intake checker |\n\n");
    o
}

/// The verdict in the words of the report.
pub open spec fn result_word(i: Intake) -> Seq<char> {
    match i {
        Intake::Accept => "CONFORMS"@,
        Intake::Review => "CONFORMS WITH DEVIATIONS"@,
        Intake::Reject => "DOES NOT CONFORM"@,
    }
}

pub open spec fn statement(i: Intake) -> Seq<char> {
    match i {
        Intake::Accept => "The capture meets the collection requirements and is suitable for onward analysis."@,
        Intake::Review => "The capture is usable but exhibits deviations that should be reviewed before use (see findings)."@,
        Intake::Reject => "The capture does not meet one or more mandatory collection requirements and should be re-taken."@,
    }
}

pub open spec fn result_text(r: ReportModel) -> Seq<char> {
    "## Assessment result\n\n> ### "@ + result_word(r.intake) + " — Conformance "@ + tenths_text(fixed(r.conformance, 10))
        + "%\n>\n> "@ + statement(r.intake) + "\n\n"@
}

fn result_section(r: &Report) -> (o: String)
    requires
        r@.wf(),
    ensures
        o@ == result_text(r@),
{
    let (word, sentence): (&'static str, &'static str) = match r.intake {
        Intake::Accept => (
            "CONFORMS",
            "The capture meets the collection requirements and is suitable for onward analysis.",
        ),
        Intake::Review => (
            "CONFORMS WITH DEVIATIONS",
            "The capture is usable but exhibits deviations that should be reviewed before use (see findings).",
        ),
        Intake::Reject => (
            "DOES NOT CONFORM",
            "The capture does not meet one or more mandatory collection requirements and should be re-taken.",
        ),
    };
    let mut o = String::from_str("## Assessment result\n\n> ### ");
    o.append(word);
    o.append(" — Conformance ");
    push_tenths(&mut o, r.conformance.fixed(10));
    o.append("%\n>\n> ");
    o.append(sentence);
    o.append("\n\n");
    o
}

/// How a criterion came out, in the words of the report.
pub open spec fn level_word(l: Level) -> Seq<char> {
    match l {
        Level::Pass => "PASS"@,
        Level::Fail => "FAIL"@,
        Level::Warn => "DEVIATION"@,
        Level::Info => "INFO"@,
    }
}

/// A row of the criteria: number, requirement, result, remark.
pub open spec fn criterion_row(n: nat, c: CheckModel) -> Seq<char> {
    "| "@ + decimal(n) + " | "@ + md_text(c.label) + " | **"@ + level_word(c.level) + "** | "@ + md_text(c.detail)
        + " |\n"@
}

pub open spec fn criterion_rows(checks: Seq<CheckModel>) -> Seq<char>
    decreases checks.len(),
{
    if checks.len() == 0 {
        "## 1  Assessment of collection criteria\n\n| # | Requirement | Result | Remark |\n|---:|---|:--:|---|\n"@
    } else {
        criterion_rows(checks.drop_last()) + criterion_row(checks.len(), checks.last())
    }
}

fn criterion_line(n: usize, c: &Check) -> (o: String)
    ensures
        o@ == criterion_row(n as nat, c@),
{
    let mut o = String::from_str("| ");
    push_decimal(&mut o, n as u128);
    o.append(" | ");
    push_md(&mut o, c.label.as_str());
    o.append(" | **");
    o.append(
        match c.level {
            Level::Pass => "PASS",
            Level::Fail => "FAIL",
            Level::Warn => "DEVIATION",
            Level::Info => "INFO",
        },
    );
    o.append("** | ");
    push_md(&mut o, c.detail.as_str());
    o.append(" |\n");
    o
}

fn criteria_section(checks: &Vec<Check>) -> (o: String)
    ensures
        o@ == criterion_rows(checks_view(checks@)),
{
    let mut o = String::from_str(
        "## 1  Assessment of collection criteria\n\n| # | Requirement | Result | Remark |\n|---:|---|:--:|---|\n",
    );
    let n: usize = checks.len();
    let mut i: usize = 0;
    let ghost all = checks_view(checks@);
    while i < n
        invariant
            i <= n,
            n == checks@.len(),
            all == checks_view(checks@),
            o@ == criterion_rows(all.take(i as int)),
        decreases n - i,
    {
        assert(all.take(i + 1).drop_last() =~= all.take(i as int));
        assert(all[i as int] == checks@[i as int]@);
        let line = criterion_line(i + 1, &checks[i]);
        o.append(line.as_str());
        i = i + 1;
    }
    assert(all.take(n as int) =~= all);
    o
}

/// A quality finding.
pub open spec fn finding_text(n: nat, f: NoticeModel) -> Seq<char> {
    "### Finding F"@ + decimal(n) + " — "@ + f.title + "\n\n*Severity: Major · Reference: `"@ + f.code + "`*\n\n"@ + f.text
        + "\n\n"@
}

pub open spec fn finding_texts(notices: Seq<NoticeModel>) -> Seq<char>
    decreases notices.len(),
{
    if notices.len() == 0 {
        "\n## 2  Capture-quality findings\n\n"@
    } else {
        finding_texts(notices.drop_last()) + finding_text(notices.len(), notices.last())
    }
}

pub open spec fn findings_text(notices: Seq<NoticeModel>) -> Seq<char> {
    if notices.len() == 0 {
        finding_texts(notices) + "_No capture-quality findings were raised._\n\n"@
    } else {
        finding_texts(notices)
    }
}

fn finding(n: usize, f: &Notice) -> (o: String)
    ensures
        o@ == finding_text(n as nat, f@),
{
    let mut o = String::from_str("### Finding F");
    push_decimal(&mut o, n as u128);
    o.append(" — ");
    o.append(f.title.as_str());
    o.append("\n\n*Severity: Major · Reference: `");
    o.append(f.code);
    o.append("`*\n\n");
    o.append(f.text.as_str());
    o.append("\n\n");
    o
}

fn findings_section(notices: &Vec<Notice>) -> (o: String)
    ensures
        o@ == findings_text(notices_view(notices@)),
{
    let mut o = String::from_str("\n## 2  Capture-quality findings\n\n");
    let n: usize = notices.len();
    let mut i: usize = 0;
    let ghost all = notices_view(notices@);
    while i < n
        invariant
            i <= n,
            n == notices@.len(),
            all == notices_view(notices@),
            o@ == finding_texts(all.take(i as int)),
        decreases n - i,
    {
        assert(all.take(i + 1).drop_last() =~= all.take(i as int));
        assert(all[i as int] == notices@[i as int]@);
        let one = finding(i + 1, &notices[i]);
        o.append(one.as_str());
        i = i + 1;
    }
    assert(all.take(n as int) =~= all);
    if n == 0 {
        o.append("_No capture-quality findings were raised._\n\n");
    }
    o
}

/// The distribution of the packets.
pub open spec fn distribution_text(r: ReportModel) -> Seq<char> {
    let s = r.stats;
    "## 3  Packet distribution\n\n| Metric | Values |\n|---|---|\n| Layer-2 cast | Unicast "@ + grouped(s.unicast)
        + " · Multicast "@ + grouped(s.multicast) + " · Broadcast "@ + grouped(s.broadcast)
        + " |\n| Network layer | IPv4 "@ + grouped(s.ipv4) + " · IPv6 "@ + grouped(s.ipv6) + " · ARP "@ + grouped(s.arp)
        + " |\n| Encapsulation | GRE "@ + grouped(s.gre) + " · ERSPAN "@ + grouped(s.erspan) + " · VXLAN "@ + grouped(
        s.vxlan,
    ) + " · Geneve "@ + grouped(s.geneve) + " |\n| VLAN | "@ + grouped(s.vlan) + " tagged · QinQ "@ + grouped(s.qinq)
        + " · "@ + decimal(s.vlan_ids.len()) + " distinct IDs |\n| Nesting | max tunnel depth "@ + decimal(s.max_depth)
        + " · multi-encapsulated "@ + grouped(s.multi_encap) + " frames |\n| Endpoints | "@ + grouped(r.src_macs)
        + " distinct MAC · "@ + grouped(r.ip_addrs) + " IP addresses |\n"@
}

/// The TCP sessions, where there are any.
pub open spec fn sessions_text(r: ReportModel) -> Seq<char> {
    let s = r.stats;
    if s.tcp_flows > 0 {
        "| TCP sessions | "@ + grouped(s.tcp_flows) + " total · "@ + grouped(s.hs_complete) + " complete handshake · "@
            + grouped(s.hs_syn_only) + " SYN-only · "@ + grouped(s.hs_midstream)
            + " mid-stream |\n| Capture completeness | "@ + grouped(s.seq_gaps) + " seq gaps · "@ + grouped(s.acked_unseen)
            + " ACKed-unseen · "@ + grouped(s.inner_trunc) + " inner-truncated · "@ + grouped(s.runts) + " runt · "@
            + grouped(s.oversize) + " oversize |\n\n"@
    } else {
        "\n"@
    }
}

fn distribution_section(r: &Report) -> (o: String)
    ensures
        o@ == distribution_text(r@),
{
    let s = &r.stats;
    let mut o = String::from_str(
        "## 3  Packet distribution\n\n| Metric | Values |\n|---|---|\n| Layer-2 cast | Unicast ",
    );
    push_grp(&mut o, s.unicast);
    o.append(" · Multicast ");
    push_grp(&mut o, s.multicast);
    o.append(" · Broadcast ");
    push_grp(&mut o, s.broadcast);
    o.append(" |\n| Network layer | IPv4 ");
    push_grp(&mut o, s.ipv4);
    o.append(" · IPv6 ");
    push_grp(&mut o, s.ipv6);
    o.append(" · ARP ");
    push_grp(&mut o, s.arp);
    o.append(" |\n| Encapsulation | GRE ");
    push_grp(&mut o, s.gre);
    o.append(" · ERSPAN ");
    push_grp(&mut o, s.erspan);
    o.append(" · VXLAN ");
    push_grp(&mut o, s.vxlan);
    o.append(" · Geneve ");
    push_grp(&mut o, s.geneve);
    o.append(" |\n| VLAN | ");
    push_grp(&mut o, s.vlan);
    o.append(" tagged · QinQ ");
    push_grp(&mut o, s.qinq);
    o.append(" · ");
    push_decimal(&mut o, s.vlan_ids.len() as u128);
    o.append(" distinct IDs |\n| Nesting | max tunnel depth ");
    push_decimal(&mut o, s.max_depth as u128);
    o.append(" · multi-encapsulated ");
    push_grp(&mut o, s.multi_encap);
    o.append(" frames |\n| Endpoints | ");
    push_grp(&mut o, r.src_macs as u64);
    o.append(" distinct MAC · ");
    push_grp(&mut o, r.ip_addrs as u64);
    o.append(" IP addresses |\n");
    o
}

fn sessions_section(r: &Report) -> (o: String)
    ensures
        o@ == sessions_text(r@),
{
    let s = &r.stats;
    if s.tcp_flows == 0 {
        return String::from_str("\n");
    }
    let mut o = String::from_str("| TCP sessions | ");
    push_grp(&mut o, s.tcp_flows);
    o.append(" total · ");
    push_grp(&mut o, s.hs_complete);
    o.append(" complete handshake · ");
    push_grp(&mut o, s.hs_syn_only);
    o.append(" SYN-only · ");
    push_grp(&mut o, s.hs_midstream);
    o.append(" mid-stream |\n| Capture completeness | ");
    push_grp(&mut o, s.seq_gaps);
    o.append(" seq gaps · ");
    push_grp(&mut o, s.acked_unseen);
    o.append(" ACKed-unseen · ");
    push_grp(&mut o, s.inner_trunc);
    o.append(" inner-truncated · ");
    push_grp(&mut o, s.runts);
    o.append(" runt · ");
    push_grp(&mut o, s.oversize);
    o.append(" oversize |\n\n");
    o
}

/// The share of a chain in percent.
pub open spec fn chain_percent(count: nat, total: nat) -> Binary64 {
    percent(
        count,
        if total < 1 {
            1
        } else {
            total
        },
    )
}

/// A row of the chains: name, count, share, bar.
pub open spec fn chain_row(c: (Seq<char>, nat), top: nat, total: nat) -> Seq<char> {
    let pct = chain_percent(c.1, total);
    "| `"@ + c.0 + "` | "@ + grouped(c.1) + " | "@ + tenths_text(fixed(pct, 10)) + "% | "@ + repeated(
        '█',
        relative_bar(pct, chain_percent(top, total)),
    ) + " |\n"@
}

/// The rows of the chains, of which the first has `top` frames.
pub open spec fn chain_rows(chains: Seq<(Seq<char>, nat)>, top: nat, total: nat) -> Seq<char>
    decreases chains.len(),
{
    if chains.len() == 0 {
        "## 4  Encapsulation chains (count / %)\n\n| Chain | Count | % | |\n|---|---:|---:|---|\n"@
    } else {
        chain_rows(chains.drop_last(), top, total) + chain_row(chains.last(), top, total)
    }
}

/// At most this many chains are listed.
pub const LISTED_CHAINS: usize = 20;

/// The first `n` of some chains.
pub open spec fn leading(chains: Seq<(Seq<char>, nat)>, n: nat) -> Seq<(Seq<char>, nat)> {
    if chains.len() > n {
        chains.take(n as int)
    } else {
        chains
    }
}

pub open spec fn chains_text(chains: Seq<(Seq<char>, nat)>) -> Seq<char> {
    let list = ranking(chains);
    if list.len() == 0 {
        "## 4  Encapsulation chains (count / %)\n\n_No decodable Layer-2 chains._\n"@
    } else {
        chain_rows(leading(list, LISTED_CHAINS as nat), list[0].1, chain_total(chains))
    }
}

fn chain_line(name: &String, count: u64, top: u64, total: u128) -> (o: String)
    requires
        0 < total,
    ensures
        o@ == chain_row((name@, count as nat), top as nat, total as nat),
{
    let pct: Binary64 = percent_of(count as u128, total);
    let most: Binary64 = percent_of(top as u128, total);
    let mut o = String::from_str("| `");
    o.append(name.as_str());
    o.append("` | ");
    push_grp(&mut o, count);
    o.append(" | ");
    push_tenths(&mut o, pct.fixed(10));
    o.append("% | ");
    push_repeated(&mut o, '█', bar_beside(pct, most));
    o.append(" |\n");
    o
}

fn chains_section(chains: &Vec<(String, u64)>) -> (o: String)
    ensures
        o@ == chains_text(chains_view(chains@)),
{
    let list: Vec<(String, u64)> = ranked(chains);
    let ghost all = chains_view(list@);
    let n: usize = list.len();
    if n == 0 {
        return String::from_str("## 4  Encapsulation chains (count / %)\n\n_No decodable Layer-2 chains._\n");
    }
    let sum: u128 = total_of(chains);
    let ghost total = chain_total(chains_view(chains@));
    let whole: u128 = if sum < 1 {
        1
    } else {
        sum
    };
    let top: u64 = list[0].1;
    let shown: usize = if n > LISTED_CHAINS {
        LISTED_CHAINS
    } else {
        n
    };
    assert(all[0].1 == top);
    let mut o = String::from_str(
        "## 4  Encapsulation chains (count / %)\n\n| Chain | Count | % | |\n|---|---:|---:|---|\n",
    );
    let mut i: usize = 0;
    while i < shown
        invariant
            i <= shown <= n,
            n == list@.len(),
            all == chains_view(list@),
            whole == (if total < 1 {
                1
            } else {
                total
            }),
            o@ == chain_rows(all.take(i as int), top as nat, total),
        decreases shown - i,
    {
        assert(all.take(i + 1).drop_last() =~= all.take(i as int));
        assert(all[i as int] == (list@[i as int].0@, list@[i as int].1 as nat));
        let line = chain_line(&list[i].0, list[i].1, top, whole);
        assert(line@ == chain_row(all[i as int], top as nat, total));
        o.append(line.as_str());
        i = i + 1;
    }
    assert(all.take(shown as int) =~= leading(all, LISTED_CHAINS as nat));
    o
}

/// A row of the metadata.
pub open spec fn meta_row(key: Seq<char>, value: Seq<char>) -> Seq<char> {
    "| "@ + key + " | "@ + md_text(value) + " |\n"@
}

fn meta_line(key: &str, value: &str) -> (o: String)
    ensures
        o@ == meta_row(key@, value@),
{
    let mut o = String::from_str("| ");
    o.append(key);
    o.append(" | ");
    push_md(&mut o, value);
    o.append(" |\n");
    o
}

/// A timestamp, or none.
pub open spec fn moment(ts: Option<Binary64>) -> Seq<char> {
    utc_text(
        match ts {
            Some(t) => t,
            None => zero(),
        },
    )
}

/// A timestamp as text, or a dash.
pub fn moment_text(ts: Option<Binary64>) -> (o: String)
    ensures
        o@ == moment(ts),
{
    fmt_utc(
        match ts {
            Some(t) => t,
            None => Binary64 { mant: 0, exp: 0 },
        },
    )
}

pub open spec fn throughput(r: ReportModel) -> Seq<char> {
    if r.has_time && r.duration.mant > 0 {
        hundredths_text(fixed(megabit_rate(r.wire_bytes as nat, r.duration), 100)) + " Mbit/s"@
    } else {
        "-"@
    }
}

fn throughput_text(r: &Report) -> (o: String)
    requires
        r@.wf(),
    ensures
        o@ == throughput(r@),
{
    if r.has_time && r.duration.mant > 0 {
        let mut o = String::new();
        push_hundredths_of(&mut o, megabits_per_second(r.wire_bytes, r.duration));
        assert(o@ =~= hundredths_text(fixed(megabit_rate(r.wire_bytes as nat, r.duration), 100)));
        o.append(" Mbit/s");
        o
    } else {
        String::from_str("-")
    }
}

/// The mean length of a packet on the wire.
pub open spec fn mean_length(r: ReportModel) -> nat {
    if r.packets > 0 {
        (r.wire_bytes as nat / r.packets) as nat
    } else {
        0
    }
}

/// The mean length of a packet on the wire.
pub fn average_packet(r: &Report) -> (n: u64)
    ensures
        n == mean_length(r@),
{
    if r.packets > 0 {
        r.wire_bytes / r.packets as u64
    } else {
        0
    }
}

pub open spec fn duration_or_dash(r: ReportModel) -> Seq<char> {
    if r.has_time {
        dur_text(r.duration)
    } else {
        "-"@
    }
}

pub open spec fn snap_text(r: ReportModel) -> Seq<char> {
    if r.snaplen == 0 {
        "unlimited"@
    } else {
        grouped(r.snaplen as nat) + " B"@
    }
}

/// The metadata of the capture.
pub open spec fn metadata_text(r: ReportModel) -> Seq<char> {
    "\n## 5  Capture metadata\n\n| Field | Value |\n|---|---|\n"@ + meta_row("Recorded start"@, moment(r.stats.ts_first))
        + meta_row("Recorded end"@, moment(r.stats.ts_last)) + meta_row("Duration"@, duration_or_dash(r)) + meta_row(
        "Throughput"@,
        throughput(r),
    ) + meta_row("pcap version"@, r.ver) + meta_row("Byte order"@, r.endian) + meta_row(
        "Timestamp precision"@,
        r.ts_prec,
    ) + meta_row("Link type"@, r.linktype) + meta_row("Snap length"@, snap_text(r)) + meta_row(
        "Interfaces"@,
        decimal(r.iface_count),
    ) + meta_row("Average packet"@, decimal(mean_length(r)) + " B"@) + meta_row(
        "Data on wire"@,
        bytes_text(r.wire_bytes as usize as nat),
    )
}

fn push_meta(o: &mut String, key: &str, value: &str)
    ensures
        final(o)@ == old(o)@ + meta_row(key@, value@),
{
    let line = meta_line(key, value);
    o.append(line.as_str());
}

fn metadata_section(r: &Report) -> (o: String)
    requires
        r@.wf(),
    ensures
        o@ == metadata_text(r@),
{
    let mut o = String::from_str("\n## 5  Capture metadata\n\n| Field | Value |\n|---|---|\n");
    push_meta(&mut o, "Recorded start", moment_text(r.stats.ts_first).as_str());
    push_meta(&mut o, "Recorded end", moment_text(r.stats.ts_last).as_str());
    let duration = if r.has_time {
        human_dur(r.duration)
    } else {
        String::from_str("-")
    };
    push_meta(&mut o, "Duration", duration.as_str());
    push_meta(&mut o, "Throughput", throughput_text(r).as_str());
    push_meta(&mut o, "pcap version", r.ver.as_str());
    push_meta(&mut o, "Byte order", r.endian);
    push_meta(&mut o, "Timestamp precision", r.ts_prec);
    push_meta(&mut o, "Link type", r.linktype.as_str());
    let snap = if r.snaplen == 0 {
        String::from_str("unlimited")
    } else {
        let mut t = grp(r.snaplen as u64);
        t.append(" B");
        t
    };
    push_meta(&mut o, "Snap length", snap.as_str());
    let count = crate::text::decimal_text(r.iface_count as u128);
    push_meta(&mut o, "Interfaces", count.as_str());
    let mut mean = crate::text::decimal_text(average_packet(r) as u128);
    mean.append(" B");
    push_meta(&mut o, "Average packet", mean.as_str());
    push_meta(&mut o, "Data on wire", human_bytes(r.wire_bytes as usize).as_str());
    o
}

/// The sources of the criteria that have one.
pub open spec fn source_rows(checks: Seq<CheckModel>) -> Seq<char>
    decreases checks.len(),
{
    if checks.len() == 0 {
        "\n## 6  Sources per finding\n\n| Requirement | Source |\n|---|---|\n"@
    } else {
        let c = checks.last();
        let head = source_rows(checks.drop_last());
        if source_text(c.label).len() == 0 {
            head
        } else {
            head + ("| "@ + md_text(c.label) + " | "@ + md_text(source_text(c.label)) + " |\n"@)
        }
    }
}

fn sources_section(checks: &Vec<Check>) -> (o: String)
    ensures
        o@ == source_rows(checks_view(checks@)),
{
    let mut o = String::from_str("\n## 6  Sources per finding\n\n| Requirement | Source |\n|---|---|\n");
    let n: usize = checks.len();
    let mut i: usize = 0;
    let ghost all = checks_view(checks@);
    while i < n
        invariant
            i <= n,
            n == checks@.len(),
            all == checks_view(checks@),
            o@ == source_rows(all.take(i as int)),
        decreases n - i,
    {
        assert(all.take(i + 1).drop_last() =~= all.take(i as int));
        assert(all[i as int] == checks@[i as int]@);
        let label = checks[i].label.as_str();
        let src = finding_source(label);
        if !src.is_empty() {
            let mut line = String::from_str("| ");
            push_md(&mut line, label);
            line.append(" | ");
            push_md(&mut line, src);
            line.append(" |\n");
            o.append(line.as_str());
        }
        i = i + 1;
    }
    assert(all.take(n as int) =~= all);
    o
}

/// The basis of the report and how it was made.
pub open spec fn closing_text(now: u64) -> Seq<char> {
    "\n## 7  Basis and disclaimer\n\nCriteria basis: PCAP Collection Guide (format, full-frame capture, per-file size, endpoint diversity and representative duration). TCP session integrity follows RFC 9293 (handshake, sequence numbers); tunnel/encapsulation conformance follows RFC 7348 (VXLAN) and the ERSPAN draft. Thresholds are configurable. This automated report contains no manual review and does not constitute a certification.\n\n> **How this runs:** "@
        + TRUST_NOTE@ + "\n\n_Prepared by PicoCap v"@ + VERSION@ + " \""@ + CODENAME@ + "\" (automated) · "@ + utc_text(
        clock_time(now),
    ) + "_\n"@
}

fn closing_section(now: u64) -> (o: String)
    ensures
        o@ == closing_text(now),
{
    let mut o = String::from_str(
        "\n## 7  Basis and disclaimer\n\nCriteria basis: PCAP Collection Guide (format, full-frame capture, per-file size, endpoint diversity and representative duration). TCP session integrity follows RFC 9293 (handshake, sequence numbers); tunnel/encapsulation conformance follows RFC 7348 (VXLAN) and the ERSPAN draft. Thresholds are configurable. This automated report contains no manual review and does not constitute a certification.\n\n> **How this runs:** ",
    );
    o.append(TRUST_NOTE);
    o.append("\n\n_Prepared by PicoCap v");
    o.append(VERSION);
    o.append(" \"");
    o.append(CODENAME);
    o.append("\" (automated) · ");
    let issued = fmt_utc(Binary64::whole(now as u128));
    o.append(issued.as_str());
    o.append("_\n");
    o
}

/// The assessment report in Markdown.
pub open spec fn markdown_text(name: Seq<char>, sha: Seq<char>, r: ReportModel, now: u64) -> Seq<char> {
    head_text(name, sha, r, now) + result_text(r) + criterion_rows(r.checks) + findings_text(r.notices)
        + distribution_text(r) + sessions_text(r) + chains_text(r.stats.chains) + metadata_text(r) + source_rows(r.checks)
        + closing_text(now)
}

/// The assessment report on the capture `name` in Markdown. `sha` is its digest
/// in hexadecimal, the start of which goes into the number of the report in
/// capitals; `now` is the time of issue in seconds since the start of 1970.
pub fn markdown_report(name: &str, sha: &str, r: &Report, now: u64) -> (o: String)
    requires
        r@.wf(),
    ensures
        o@ == markdown_text(name@, sha@, r@, now),
        is_ascii_text(sha@) ==> capitals(first_bytes(sha@, 8)) == uppered(first_chars(sha@, 8)),
{
    let mut o = head_section(name, sha, r, now);
    o.append(result_section(r).as_str());
    o.append(criteria_section(&r.checks).as_str());
    o.append(findings_section(&r.notices).as_str());
    o.append(distribution_section(r).as_str());
    o.append(sessions_section(r).as_str());
    o.append(chains_section(&r.stats.chains).as_str());
    o.append(metadata_section(r).as_str());
    o.append(sources_section(&r.checks).as_str());
    o.append(closing_section(now).as_str());
    o
}

#[verifier::rlimit(30)]
proof fn lemma_head_pieces(name: Seq<char>, sha: Seq<char>, r: ReportModel, now: u64)
    ensures
        ({
            let text = head_text(name, sha, r, now);
            &&& holds(text, "# Technical Assessment Report — PCAP Capture Intake\n\n**Report No.** `"@ + report_number(sha, now) + "`  ·  **Issued** "@)
            &&& holds(text, "`  ·  **Issued** "@ + utc_text(clock_time(now)) + "  ·  **Classification** CONFIDENTIAL\n\n| Field | Value |\n|---|---|\n| Object under test | "@)
            &&& holds(text, "  ·  **Classification** CONFIDENTIAL\n\n| Field | Value |\n|---|---|\n| Object under test | "@ + md_text(name) + " |\n| SHA-256 | `"@)
            &&& holds(text, " |\n| SHA-256 | `"@ + sha + "` |\n| Size | "@)
            &&& holds(text, "` |\n| Size | "@ + bytes_text(r.total) + " ("@)
            &&& holds(text, " ("@ + grouped(r.packets) + " packets, "@)
            &&& holds(text, " packets, "@ + r.format.spec_upper_name() + ") |\n| Assessment tool | PicoCap v"@)
            &&& holds(text, ") |\n| Assessment tool | PicoCap v"@ + VERSION@ + " \""@)
            &&& holds(text, " \""@ + CODENAME@ + "\" — local capture intake checker |\n\n"@)
        }),
{
    let text = head_text(name, sha, r, now);
    let none = Seq::<char>::empty();
    let d0 = none + "# Technical Assessment Report — PCAP Capture Intake\n\n**Report No.** `"@;
    let d1 = d0 + report_number(sha, now);
    let d2 = d1 + "`  ·  **Issued** "@;
    let d3 = d2 + utc_text(clock_time(now));
    let d4 = d3 + "  ·  **Classification** CONFIDENTIAL\n\n| Field | Value |\n|---|---|\n| Object under test | "@;
    let d5 = d4 + md_text(name);
    let d6 = d5 + " |\n| SHA-256 | `"@;
    let d7 = d6 + sha;
    let d8 = d7 + "` |\n| Size | "@;
    let d9 = d8 + bytes_text(r.total);
    let d10 = d9 + " ("@;
    let d11 = d10 + grouped(r.packets);
    let d12 = d11 + " packets, "@;
    let d13 = d12 + r.format.spec_upper_name();
    let d14 = d13 + ") |\n| Assessment tool | PicoCap v"@;
    let d15 = d14 + VERSION@;
    let d16 = d15 + " \""@;
    let d17 = d16 + CODENAME@;
    let d18 = d17 + "\" — local capture intake checker |\n\n"@;
    assert(d0 =~= "# Technical Assessment Report — PCAP Capture Intake\n\n**Report No.** `"@);
    lemma_opens_itself(text);
    lemma_opens_with_less(text, d17, "\" — local capture intake checker |\n\n"@);
    lemma_opens_with_less(text, d16, CODENAME@);
    lemma_opens_with_less(text, d15, " \""@);
    lemma_opens_with_less(text, d14, VERSION@);
    lemma_opens_with_less(text, d13, ") |\n| Assessment tool | PicoCap v"@);
    lemma_opens_with_less(text, d12, r.format.spec_upper_name());
    lemma_opens_with_less(text, d11, " packets, "@);
    lemma_opens_with_less(text, d10, grouped(r.packets));
    lemma_opens_with_less(text, d9, " ("@);
    lemma_opens_with_less(text, d8, bytes_text(r.total));
    lemma_opens_with_less(text, d7, "` |\n| Size | "@);
    lemma_opens_with_less(text, d6, sha);
    lemma_opens_with_less(text, d5, " |\n| SHA-256 | `"@);
    lemma_opens_with_less(text, d4, md_text(name));
    lemma_opens_with_less(text, d3, "  ·  **Classification** CONFIDENTIAL\n\n| Field | Value |\n|---|---|\n| Object under test | "@);
    lemma_opens_with_less(text, d2, utc_text(clock_time(now)));
    lemma_opens_with_less(text, d1, "`  ·  **Issued** "@);
    lemma_opens_with_less(text, d0, report_number(sha, now));
    lemma_three_parts(text, none, "# Technical Assessment Report — PCAP Capture Intake\n\n**Report No.** `"@, report_number(sha, now), "`  ·  **Issued** "@);
    lemma_three_parts(text, d1, "`  ·  **Issued** "@, utc_text(clock_time(now)), "  ·  **Classification** CONFIDENTIAL\n\n| Field | Value |\n|---|---|\n| Object under test | "@);
    lemma_three_parts(text, d3, "  ·  **Classification** CONFIDENTIAL\n\n| Field | Value |\n|---|---|\n| Object under test | "@, md_text(name), " |\n| SHA-256 | `"@);
    lemma_three_parts(text, d5, " |\n| SHA-256 | `"@, sha, "` |\n| Size | "@);
    lemma_three_parts(text, d7, "` |\n| Size | "@, bytes_text(r.total), " ("@);
    lemma_three_parts(text, d9, " ("@, grouped(r.packets), " packets, "@);
    lemma_three_parts(text, d11, " packets, "@, r.format.spec_upper_name(), ") |\n| Assessment tool | PicoCap v"@);
    lemma_three_parts(text, d13, ") |\n| Assessment tool | PicoCap v"@, VERSION@, " \""@);
    lemma_three_parts(text, d15, " \""@, CODENAME@, "\" — local capture intake checker |\n\n"@);
}

/// The report names its object, its number and the time of its issue.
pub proof fn law_report_names_its_object(name: Seq<char>, sha: Seq<char>, r: ReportModel, now: u64)
    ensures
        ({
            let text = markdown_text(name, sha, r, now);
            &&& holds(text, "# Technical Assessment Report — PCAP Capture Intake\n\n**Report No.** `"@ + report_number(sha, now) + "`  ·  **Issued** "@)
            &&& holds(text, "`  ·  **Issued** "@ + utc_text(clock_time(now)) + "  ·  **Classification** CONFIDENTIAL\n\n| Field | Value |\n|---|---|\n| Object under test | "@)
            &&& holds(text, "  ·  **Classification** CONFIDENTIAL\n\n| Field | Value |\n|---|---|\n| Object under test | "@ + md_text(name) + " |\n| SHA-256 | `"@)
            &&& holds(text, " |\n| SHA-256 | `"@ + sha + "` |\n| Size | "@)
            &&& holds(text, "` |\n| Size | "@ + bytes_text(r.total) + " ("@)
            &&& holds(text, " ("@ + grouped(r.packets) + " packets, "@)
            &&& holds(text, " packets, "@ + r.format.spec_upper_name() + ") |\n| Assessment tool | PicoCap v"@)
            &&& holds(text, ") |\n| Assessment tool | PicoCap v"@ + VERSION@ + " \""@)
            &&& holds(text, " \""@ + CODENAME@ + "\" — local capture intake checker |\n\n"@)
        }),
{
    lemma_head_pieces(name, sha, r, now);
    lemma_parts_of_the_report(name, sha, r, now);
}

proof fn lemma_result_pieces(r: ReportModel)
    ensures
        ({
            let text = result_text(r);
            &&& holds(text, "## Assessment result\n\n> ### "@ + result_word(r.intake) + " — Conformance "@)
            &&& holds(text, " — Conformance "@ + tenths_text(fixed(r.conformance, 10)) + "%\n>\n> "@)
            &&& holds(text, "%\n>\n> "@ + statement(r.intake) + "\n\n"@)
        }),
{
    let text = result_text(r);
    let none = Seq::<char>::empty();
    let d0 = none + "## Assessment result\n\n> ### "@;
    let d1 = d0 + result_word(r.intake);
    let d2 = d1 + " — Conformance "@;
    let d3 = d2 + tenths_text(fixed(r.conformance, 10));
    let d4 = d3 + "%\n>\n> "@;
    let d5 = d4 + statement(r.intake);
    let d6 = d5 + "\n\n"@;
    assert(d0 =~= "## Assessment result\n\n> ### "@);
    lemma_opens_itself(text);
    lemma_opens_with_less(text, d5, "\n\n"@);
    lemma_opens_with_less(text, d4, statement(r.intake));
    lemma_opens_with_less(text, d3, "%\n>\n> "@);
    lemma_opens_with_less(text, d2, tenths_text(fixed(r.conformance, 10)));
    lemma_opens_with_less(text, d1, " — Conformance "@);
    lemma_opens_with_less(text, d0, result_word(r.intake));
    lemma_three_parts(text, none, "## Assessment result\n\n> ### "@, result_word(r.intake), " — Conformance "@);
    lemma_three_parts(text, d1, " — Conformance "@, tenths_text(fixed(r.conformance, 10)), "%\n>\n> "@);
    lemma_three_parts(text, d3, "%\n>\n> "@, statement(r.intake), "\n\n"@);
}

/// The report tells the result and the conformance.
pub proof fn law_report_tells_the_result(name: Seq<char>, sha: Seq<char>, r: ReportModel, now: u64)
    ensures
        ({
            let text = markdown_text(name, sha, r, now);
            &&& holds(text, "## Assessment result\n\n> ### "@ + result_word(r.intake) + " — Conformance "@)
            &&& holds(text, " — Conformance "@ + tenths_text(fixed(r.conformance, 10)) + "%\n>\n> "@)
            &&& holds(text, "%\n>\n> "@ + statement(r.intake) + "\n\n"@)
        }),
{
    lemma_result_pieces(r);
    lemma_parts_of_the_report(name, sha, r, now);
}

#[verifier::rlimit(30)]
proof fn lemma_distribution_pieces(r: ReportModel)
    ensures
        ({
            let text = distribution_text(r);
            &&& holds(text, "## 3  Packet distribution\n\n| Metric | Values |\n|---|---|\n| Layer-2 cast | Unicast "@ + grouped(r.stats.unicast) + " · Multicast "@)
            &&& holds(text, " · Multicast "@ + grouped(r.stats.multicast) + " · Broadcast "@)
            &&& holds(text, " · Broadcast "@ + grouped(r.stats.broadcast) + " |\n| Network layer | IPv4 "@)
            &&& holds(text, " |\n| Network layer | IPv4 "@ + grouped(r.stats.ipv4) + " · IPv6 "@)
            &&& holds(text, " · IPv6 "@ + grouped(r.stats.ipv6) + " · ARP "@)
            &&& holds(text, " · ARP "@ + grouped(r.stats.arp) + " |\n| Encapsulation | GRE "@)
            &&& holds(text, " |\n| Encapsulation | GRE "@ + grouped(r.stats.gre) + " · ERSPAN "@)
            &&& holds(text, " · ERSPAN "@ + grouped(r.stats.erspan) + " · VXLAN "@)
            &&& holds(text, " · VXLAN "@ + grouped(r.stats.vxlan) + " · Geneve "@)
            &&& holds(text, " · Geneve "@ + grouped(r.stats.geneve) + " |\n| VLAN | "@)
            &&& holds(text, " |\n| VLAN | "@ + grouped(r.stats.vlan) + " tagged · QinQ "@)
            &&& holds(text, " tagged · QinQ "@ + grouped(r.stats.qinq) + " · "@)
            &&& holds(text, " · "@ + decimal(r.stats.vlan_ids.len()) + " distinct IDs |\n| Nesting | max tunnel depth "@)
            &&& holds(text, " distinct IDs |\n| Nesting | max tunnel depth "@ + decimal(r.stats.max_depth) + " · multi-encapsulated "@)
            &&& holds(text, " · multi-encapsulated "@ + grouped(r.stats.multi_encap) + " frames |\n| Endpoints | "@)
            &&& holds(text, " frames |\n| Endpoints | "@ + grouped(r.src_macs) + " distinct MAC · "@)
            &&& holds(text, " distinct MAC · "@ + grouped(r.ip_addrs) + " IP addresses |\n"@)
        }),
{
    let text = distribution_text(r);
    let none = Seq::<char>::empty();
    let d0 = none + "## 3  Packet distribution\n\n| Metric | Values |\n|---|---|\n| Layer-2 cast | Unicast "@;
    let d1 = d0 + grouped(r.stats.unicast);
    let d2 = d1 + " · Multicast "@;
    let d3 = d2 + grouped(r.stats.multicast);
    let d4 = d3 + " · Broadcast "@;
    let d5 = d4 + grouped(r.stats.broadcast);
    let d6 = d5 + " |\n| Network layer | IPv4 "@;
    let d7 = d6 + grouped(r.stats.ipv4);
    let d8 = d7 + " · IPv6 "@;
    let d9 = d8 + grouped(r.stats.ipv6);
    let d10 = d9 + " · ARP "@;
    let d11 = d10 + grouped(r.stats.arp);
    let d12 = d11 + " |\n| Encapsulation | GRE "@;
    let d13 = d12 + grouped(r.stats.gre);
    let d14 = d13 + " · ERSPAN "@;
    let d15 = d14 + grouped(r.stats.erspan);
    let d16 = d15 + " · VXLAN "@;
    let d17 = d16 + grouped(r.stats.vxlan);
    let d18 = d17 + " · Geneve "@;
    let d19 = d18 + grouped(r.stats.geneve);
    let d20 = d19 + " |\n| VLAN | "@;
    let d21 = d20 + grouped(r.stats.vlan);
    let d22 = d21 + " tagged · QinQ "@;
    let d23 = d22 + grouped(r.stats.qinq);
    let d24 = d23 + " · "@;
    let d25 = d24 + decimal(r.stats.vlan_ids.len());
    let d26 = d25 + " distinct IDs |\n| Nesting | max tunnel depth "@;
    let d27 = d26 + decimal(r.stats.max_depth);
    let d28 = d27 + " · multi-encapsulated "@;
    let d29 = d28 + grouped(r.stats.multi_encap);
    let d30 = d29 + " frames |\n| Endpoints | "@;
    let d31 = d30 + grouped(r.src_macs);
    let d32 = d31 + " distinct MAC · "@;
    let d33 = d32 + grouped(r.ip_addrs);
    let d34 = d33 + " IP addresses |\n"@;
    assert(d0 =~= "## 3  Packet distribution\n\n| Metric | Values |\n|---|---|\n| Layer-2 cast | Unicast "@);
    lemma_opens_itself(text);
    lemma_opens_with_less(text, d33, " IP addresses |\n"@);
    lemma_opens_with_less(text, d32, grouped(r.ip_addrs));
    lemma_opens_with_less(text, d31, " distinct MAC · "@);
    lemma_opens_with_less(text, d30, grouped(r.src_macs));
    lemma_opens_with_less(text, d29, " frames |\n| Endpoints | "@);
    lemma_opens_with_less(text, d28, grouped(r.stats.multi_encap));
    lemma_opens_with_less(text, d27, " · multi-encapsulated "@);
    lemma_opens_with_less(text, d26, decimal(r.stats.max_depth));
    lemma_opens_with_less(text, d25, " distinct IDs |\n| Nesting | max tunnel depth "@);
    lemma_opens_with_less(text, d24, decimal(r.stats.vlan_ids.len()));
    lemma_opens_with_less(text, d23, " · "@);
    lemma_opens_with_less(text, d22, grouped(r.stats.qinq));
    lemma_opens_with_less(text, d21, " tagged · QinQ "@);
    lemma_opens_with_less(text, d20, grouped(r.stats.vlan));
    lemma_opens_with_less(text, d19, " |\n| VLAN | "@);
    lemma_opens_with_less(text, d18, grouped(r.stats.geneve));
    lemma_opens_with_less(text, d17, " · Geneve "@);
    lemma_opens_with_less(text, d16, grouped(r.stats.vxlan));
    lemma_opens_with_less(text, d15, " · VXLAN "@);
    lemma_opens_with_less(text, d14, grouped(r.stats.erspan));
    lemma_opens_with_less(text, d13, " · ERSPAN "@);
    lemma_opens_with_less(text, d12, grouped(r.stats.gre));
    lemma_opens_with_less(text, d11, " |\n| Encapsulation | GRE "@);
    lemma_opens_with_less(text, d10, grouped(r.stats.arp));
    lemma_opens_with_less(text, d9, " · ARP "@);
    lemma_opens_with_less(text, d8, grouped(r.stats.ipv6));
    lemma_opens_with_less(text, d7, " · IPv6 "@);
    lemma_opens_with_less(text, d6, grouped(r.stats.ipv4));
    lemma_opens_with_less(text, d5, " |\n| Network layer | IPv4 "@);
    lemma_opens_with_less(text, d4, grouped(r.stats.broadcast));
    lemma_opens_with_less(text, d3, " · Broadcast "@);
    lemma_opens_with_less(text, d2, grouped(r.stats.multicast));
    lemma_opens_with_less(text, d1, " · Multicast "@);
    lemma_opens_with_less(text, d0, grouped(r.stats.unicast));
    lemma_three_parts(text, none, "## 3  Packet distribution\n\n| Metric | Values |\n|---|---|\n| Layer-2 cast | Unicast "@, grouped(r.stats.unicast), " · Multicast "@);
    lemma_three_parts(text, d1, " · Multicast "@, grouped(r.stats.multicast), " · Broadcast "@);
    lemma_three_parts(text, d3, " · Broadcast "@, grouped(r.stats.broadcast), " |\n| Network layer | IPv4 "@);
    lemma_three_parts(text, d5, " |\n| Network layer | IPv4 "@, grouped(r.stats.ipv4), " · IPv6 "@);
    lemma_three_parts(text, d7, " · IPv6 "@, grouped(r.stats.ipv6), " · ARP "@);
    lemma_three_parts(text, d9, " · ARP "@, grouped(r.stats.arp), " |\n| Encapsulation | GRE "@);
    lemma_three_parts(text, d11, " |\n| Encapsulation | GRE "@, grouped(r.stats.gre), " · ERSPAN "@);
    lemma_three_parts(text, d13, " · ERSPAN "@, grouped(r.stats.erspan), " · VXLAN "@);
    lemma_three_parts(text, d15, " · VXLAN "@, grouped(r.stats.vxlan), " · Geneve "@);
    lemma_three_parts(text, d17, " · Geneve "@, grouped(r.stats.geneve), " |\n| VLAN | "@);
    lemma_three_parts(text, d19, " |\n| VLAN | "@, grouped(r.stats.vlan), " tagged · QinQ "@);
    lemma_three_parts(text, d21, " tagged · QinQ "@, grouped(r.stats.qinq), " · "@);
    lemma_three_parts(text, d23, " · "@, decimal(r.stats.vlan_ids.len()), " distinct IDs |\n| Nesting | max tunnel depth "@);
    lemma_three_parts(text, d25, " distinct IDs |\n| Nesting | max tunnel depth "@, decimal(r.stats.max_depth), " · multi-encapsulated "@);
    lemma_three_parts(text, d27, " · multi-encapsulated "@, grouped(r.stats.multi_encap), " frames |\n| Endpoints | "@);
    lemma_three_parts(text, d29, " frames |\n| Endpoints | "@, grouped(r.src_macs), " distinct MAC · "@);
    lemma_three_parts(text, d31, " distinct MAC · "@, grouped(r.ip_addrs), " IP addresses |\n"@);
}

/// The report tells the distribution of the packets.
#[verifier::rlimit(30)]
pub proof fn law_report_tells_the_distribution(name: Seq<char>, sha: Seq<char>, r: ReportModel, now: u64)
    ensures
        ({
            let text = markdown_text(name, sha, r, now);
            &&& holds(text, "## 3  Packet distribution\n\n| Metric | Values |\n|---|---|\n| Layer-2 cast | Unicast "@ + grouped(r.stats.unicast) + " · Multicast "@)
            &&& holds(text, " · Multicast "@ + grouped(r.stats.multicast) + " · Broadcast "@)
            &&& holds(text, " · Broadcast "@ + grouped(r.stats.broadcast) + " |\n| Network layer | IPv4 "@)
            &&& holds(text, " |\n| Network layer | IPv4 "@ + grouped(r.stats.ipv4) + " · IPv6 "@)
            &&& holds(text, " · IPv6 "@ + grouped(r.stats.ipv6) + " · ARP "@)
            &&& holds(text, " · ARP "@ + grouped(r.stats.arp) + " |\n| Encapsulation | GRE "@)
            &&& holds(text, " |\n| Encapsulation | GRE "@ + grouped(r.stats.gre) + " · ERSPAN "@)
            &&& holds(text, " · ERSPAN "@ + grouped(r.stats.erspan) + " · VXLAN "@)
            &&& holds(text, " · VXLAN "@ + grouped(r.stats.vxlan) + " · Geneve "@)
            &&& holds(text, " · Geneve "@ + grouped(r.stats.geneve) + " |\n| VLAN | "@)
            &&& holds(text, " |\n| VLAN | "@ + grouped(r.stats.vlan) + " tagged · QinQ "@)
            &&& holds(text, " tagged · QinQ "@ + grouped(r.stats.qinq) + " · "@)
            &&& holds(text, " · "@ + decimal(r.stats.vlan_ids.len()) + " distinct IDs |\n| Nesting | max tunnel depth "@)
            &&& holds(text, " distinct IDs |\n| Nesting | max tunnel depth "@ + decimal(r.stats.max_depth) + " · multi-encapsulated "@)
            &&& holds(text, " · multi-encapsulated "@ + grouped(r.stats.multi_encap) + " frames |\n| Endpoints | "@)
            &&& holds(text, " frames |\n| Endpoints | "@ + grouped(r.src_macs) + " distinct MAC · "@)
            &&& holds(text, " distinct MAC · "@ + grouped(r.ip_addrs) + " IP addresses |\n"@)
        }),
{
    lemma_distribution_pieces(r);
    lemma_parts_of_the_report(name, sha, r, now);
}

#[verifier::rlimit(30)]
proof fn lemma_sessions_pieces(r: ReportModel)
    requires
        r.stats.tcp_flows > 0,
    ensures
        ({
            let text = sessions_text(r);
            &&& holds(text, "| TCP sessions | "@ + grouped(r.stats.tcp_flows) + " total · "@)
            &&& holds(text, " total · "@ + grouped(r.stats.hs_complete) + " complete handshake · "@)
            &&& holds(text, " complete handshake · "@ + grouped(r.stats.hs_syn_only) + " SYN-only · "@)
            &&& holds(text, " SYN-only · "@ + grouped(r.stats.hs_midstream) + " mid-stream |\n| Capture completeness | "@)
            &&& holds(text, " mid-stream |\n| Capture completeness | "@ + grouped(r.stats.seq_gaps) + " seq gaps · "@)
            &&& holds(text, " seq gaps · "@ + grouped(r.stats.acked_unseen) + " ACKed-unseen · "@)
            &&& holds(text, " ACKed-unseen · "@ + grouped(r.stats.inner_trunc) + " inner-truncated · "@)
            &&& holds(text, " inner-truncated · "@ + grouped(r.stats.runts) + " runt · "@)
            &&& holds(text, " runt · "@ + grouped(r.stats.oversize) + " oversize |\n\n"@)
        }),
{
    let text = sessions_text(r);
    let none = Seq::<char>::empty();
    let d0 = none + "| TCP sessions | "@;
    let d1 = d0 + grouped(r.stats.tcp_flows);
    let d2 = d1 + " total · "@;
    let d3 = d2 + grouped(r.stats.hs_complete);
    let d4 = d3 + " complete handshake · "@;
    let d5 = d4 + grouped(r.stats.hs_syn_only);
    let d6 = d5 + " SYN-only · "@;
    let d7 = d6 + grouped(r.stats.hs_midstream);
    let d8 = d7 + " mid-stream |\n| Capture completeness | "@;
    let d9 = d8 + grouped(r.stats.seq_gaps);
    let d10 = d9 + " seq gaps · "@;
    let d11 = d10 + grouped(r.stats.acked_unseen);
    let d12 = d11 + " ACKed-unseen · "@;
    let d13 = d12 + grouped(r.stats.inner_trunc);
    let d14 = d13 + " inner-truncated · "@;
    let d15 = d14 + grouped(r.stats.runts);
    let d16 = d15 + " runt · "@;
    let d17 = d16 + grouped(r.stats.oversize);
    let d18 = d17 + " oversize |\n\n"@;
    assert(d0 =~= "| TCP sessions | "@);
    lemma_opens_itself(text);
    lemma_opens_with_less(text, d17, " oversize |\n\n"@);
    lemma_opens_with_less(text, d16, grouped(r.stats.oversize));
    lemma_opens_with_less(text, d15, " runt · "@);
    lemma_opens_with_less(text, d14, grouped(r.stats.runts));
    lemma_opens_with_less(text, d13, " inner-truncated · "@);
    lemma_opens_with_less(text, d12, grouped(r.stats.inner_trunc));
    lemma_opens_with_less(text, d11, " ACKed-unseen · "@);
    lemma_opens_with_less(text, d10, grouped(r.stats.acked_unseen));
    lemma_opens_with_less(text, d9, " seq gaps · "@);
    lemma_opens_with_less(text, d8, grouped(r.stats.seq_gaps));
    lemma_opens_with_less(text, d7, " mid-stream |\n| Capture completeness | "@);
    lemma_opens_with_less(text, d6, grouped(r.stats.hs_midstream));
    lemma_opens_with_less(text, d5, " SYN-only · "@);
    lemma_opens_with_less(text, d4, grouped(r.stats.hs_syn_only));
    lemma_opens_with_less(text, d3, " complete handshake · "@);
    lemma_opens_with_less(text, d2, grouped(r.stats.hs_complete));
    lemma_opens_with_less(text, d1, " total · "@);
    lemma_opens_with_less(text, d0, grouped(r.stats.tcp_flows));
    lemma_three_parts(text, none, "| TCP sessions | "@, grouped(r.stats.tcp_flows), " total · "@);
    lemma_three_parts(text, d1, " total · "@, grouped(r.stats.hs_complete), " complete handshake · "@);
    lemma_three_parts(text, d3, " complete handshake · "@, grouped(r.stats.hs_syn_only), " SYN-only · "@);
    lemma_three_parts(text, d5, " SYN-only · "@, grouped(r.stats.hs_midstream), " mid-stream |\n| Capture completeness | "@);
    lemma_three_parts(text, d7, " mid-stream |\n| Capture completeness | "@, grouped(r.stats.seq_gaps), " seq gaps · "@);
    lemma_three_parts(text, d9, " seq gaps · "@, grouped(r.stats.acked_unseen), " ACKed-unseen · "@);
    lemma_three_parts(text, d11, " ACKed-unseen · "@, grouped(r.stats.inner_trunc), " inner-truncated · "@);
    lemma_three_parts(text, d13, " inner-truncated · "@, grouped(r.stats.runts), " runt · "@);
    lemma_three_parts(text, d15, " runt · "@, grouped(r.stats.oversize), " oversize |\n\n"@);
}

/// The report tells the TCP sessions and what is missing from them, where there are any.
#[verifier::rlimit(30)]
pub proof fn law_report_tells_the_sessions(name: Seq<char>, sha: Seq<char>, r: ReportModel, now: u64)
    requires
        r.stats.tcp_flows > 0,
    ensures
        ({
            let text = markdown_text(name, sha, r, now);
            &&& holds(text, "| TCP sessions | "@ + grouped(r.stats.tcp_flows) + " total · "@)
            &&& holds(text, " total · "@ + grouped(r.stats.hs_complete) + " complete handshake · "@)
            &&& holds(text, " complete handshake · "@ + grouped(r.stats.hs_syn_only) + " SYN-only · "@)
            &&& holds(text, " SYN-only · "@ + grouped(r.stats.hs_midstream) + " mid-stream |\n| Capture completeness | "@)
            &&& holds(text, " mid-stream |\n| Capture completeness | "@ + grouped(r.stats.seq_gaps) + " seq gaps · "@)
            &&& holds(text, " seq gaps · "@ + grouped(r.stats.acked_unseen) + " ACKed-unseen · "@)
            &&& holds(text, " ACKed-unseen · "@ + grouped(r.stats.inner_trunc) + " inner-truncated · "@)
            &&& holds(text, " inner-truncated · "@ + grouped(r.stats.runts) + " runt · "@)
            &&& holds(text, " runt · "@ + grouped(r.stats.oversize) + " oversize |\n\n"@)
        }),
{
    lemma_sessions_pieces(r);
    lemma_parts_of_the_report(name, sha, r, now);
}

/// The report has a row for every field of the metadata.
#[verifier::rlimit(30)]
pub proof fn law_report_tells_the_metadata(name: Seq<char>, sha: Seq<char>, r: ReportModel, now: u64)
    ensures
        ({
            let text = markdown_text(name, sha, r, now);
            &&& holds(text, "| "@ + "Recorded start"@ + " | "@ + md_text(moment(r.stats.ts_first)) + " |\n"@)
            &&& holds(text, "| "@ + "Recorded end"@ + " | "@ + md_text(moment(r.stats.ts_last)) + " |\n"@)
            &&& holds(text, "| "@ + "Duration"@ + " | "@ + md_text(if r.has_time {
                    dur_text(r.duration)
                } else {
                    "-"@
                }) + " |\n"@)
            &&& holds(text, "| "@ + "Throughput"@ + " | "@ + md_text(if r.has_time && r.duration.mant > 0 {
                    hundredths_text(fixed(megabit_rate(r.wire_bytes as nat, r.duration), 100)) + " Mbit/s"@
                } else {
                    "-"@
                }) + " |\n"@)
            &&& holds(text, "| "@ + "pcap version"@ + " | "@ + md_text(r.ver) + " |\n"@)
            &&& holds(text, "| "@ + "Byte order"@ + " | "@ + md_text(r.endian) + " |\n"@)
            &&& holds(text, "| "@ + "Timestamp precision"@ + " | "@ + md_text(r.ts_prec) + " |\n"@)
            &&& holds(text, "| "@ + "Link type"@ + " | "@ + md_text(r.linktype) + " |\n"@)
            &&& holds(text, "| "@ + "Snap length"@ + " | "@ + md_text(if r.snaplen == 0 {
                    "unlimited"@
                } else {
                    grouped(r.snaplen as nat) + " B"@
                }) + " |\n"@)
            &&& holds(text, "| "@ + "Interfaces"@ + " | "@ + md_text(decimal(r.iface_count)) + " |\n"@)
            &&& holds(text, "| "@ + "Average packet"@ + " | "@ + md_text(decimal(mean_length(r)) + " B"@) + " |\n"@)
            &&& holds(text, "| "@ + "Data on wire"@ + " | "@ + md_text(bytes_text(r.wire_bytes as usize as nat)) + " |\n"@)
        }),
{
    lemma_parts_of_the_report(name, sha, r, now);
    let d0 = "\n## 5  Capture metadata\n\n| Field | Value |\n|---|---|\n"@;
    let r1 = meta_row("Recorded start"@, moment(r.stats.ts_first));
    let d1 = d0 + r1;
    lemma_holds_in_front(d0, r1);
    let r2 = meta_row("Recorded end"@, moment(r.stats.ts_last));
    let d2 = d1 + r2;
    lemma_holds_in_front(d1, r2);
    let r3 = meta_row("Duration"@, duration_or_dash(r));
    let d3 = d2 + r3;
    lemma_holds_in_front(d2, r3);
    let r4 = meta_row("Throughput"@, throughput(r));
    let d4 = d3 + r4;
    lemma_holds_in_front(d3, r4);
    let r5 = meta_row("pcap version"@, r.ver);
    let d5 = d4 + r5;
    lemma_holds_in_front(d4, r5);
    let r6 = meta_row("Byte order"@, r.endian);
    let d6 = d5 + r6;
    lemma_holds_in_front(d5, r6);
    let r7 = meta_row("Timestamp precision"@, r.ts_prec);
    let d7 = d6 + r7;
    lemma_holds_in_front(d6, r7);
    let r8 = meta_row("Link type"@, r.linktype);
    let d8 = d7 + r8;
    lemma_holds_in_front(d7, r8);
    let r9 = meta_row("Snap length"@, snap_text(r));
    let d9 = d8 + r9;
    lemma_holds_in_front(d8, r9);
    let r10 = meta_row("Interfaces"@, decimal(r.iface_count));
    let d10 = d9 + r10;
    lemma_holds_in_front(d9, r10);
    let r11 = meta_row("Average packet"@, decimal(mean_length(r)) + " B"@);
    let d11 = d10 + r11;
    lemma_holds_in_front(d10, r11);
    let r12 = meta_row("Data on wire"@, bytes_text(r.wire_bytes as usize as nat));
    let d12 = d11 + r12;
    lemma_holds_in_front(d11, r12);
    assert(d12 == metadata_text(r));
}

/// What a part of the report holds, the report holds.
proof fn lemma_parts_of_the_report(name: Seq<char>, sha: Seq<char>, r: ReportModel, now: u64)
    ensures
        ({
            let text = markdown_text(name, sha, r, now);
            &&& forall|p: Seq<char>| #[trigger] holds(head_text(name, sha, r, now), p) ==> holds(text, p)
            &&& forall|p: Seq<char>| #[trigger] holds(result_text(r), p) ==> holds(text, p)
            &&& forall|p: Seq<char>| #[trigger] holds(criterion_rows(r.checks), p) ==> holds(text, p)
            &&& forall|p: Seq<char>| #[trigger] holds(findings_text(r.notices), p) ==> holds(text, p)
            &&& forall|p: Seq<char>| #[trigger] holds(distribution_text(r), p) ==> holds(text, p)
            &&& forall|p: Seq<char>| #[trigger] holds(sessions_text(r), p) ==> holds(text, p)
            &&& forall|p: Seq<char>| #[trigger] holds(chains_text(r.stats.chains), p) ==> holds(text, p)
            &&& forall|p: Seq<char>| #[trigger] holds(metadata_text(r), p) ==> holds(text, p)
            &&& forall|p: Seq<char>| #[trigger] holds(source_rows(r.checks), p) ==> holds(text, p)
            &&& forall|p: Seq<char>| #[trigger] holds(closing_text(now), p) ==> holds(text, p)
        }),
{
    let a0 = head_text(name, sha, r, now);
    let a1 = a0 + result_text(r);
    let a2 = a1 + criterion_rows(r.checks);
    let a3 = a2 + findings_text(r.notices);
    let a4 = a3 + distribution_text(r);
    let a5 = a4 + sessions_text(r);
    let a6 = a5 + chains_text(r.stats.chains);
    let a7 = a6 + metadata_text(r);
    let a8 = a7 + source_rows(r.checks);
    lemma_holds_in_front(a0, result_text(r));
    lemma_holds_in_front(a1, criterion_rows(r.checks));
    lemma_holds_in_front(a2, findings_text(r.notices));
    lemma_holds_in_front(a3, distribution_text(r));
    lemma_holds_in_front(a4, sessions_text(r));
    lemma_holds_in_front(a5, chains_text(r.stats.chains));
    lemma_holds_in_front(a6, metadata_text(r));
    lemma_holds_in_front(a7, source_rows(r.checks));
    lemma_holds_in_front(a8, closing_text(now));
}

proof fn lemma_criterion_rows(checks: Seq<CheckModel>, i: int)
    requires
        0 <= i < checks.len(),
    ensures
        holds(criterion_rows(checks), criterion_row((i + 1) as nat, checks[i])),
    decreases checks.len(),
{
    lemma_holds_in_front(criterion_rows(checks.drop_last()), criterion_row(checks.len(), checks.last()));
    if i < checks.len() - 1 {
        lemma_criterion_rows(checks.drop_last(), i);
    }
}

proof fn lemma_finding_texts(notices: Seq<NoticeModel>, i: int)
    requires
        0 <= i < notices.len(),
    ensures
        holds(finding_texts(notices), finding_text((i + 1) as nat, notices[i])),
    decreases notices.len(),
{
    lemma_holds_in_front(finding_texts(notices.drop_last()), finding_text(notices.len(), notices.last()));
    if i < notices.len() - 1 {
        lemma_finding_texts(notices.drop_last(), i);
    }
}

proof fn lemma_source_rows(checks: Seq<CheckModel>, i: int)
    requires
        0 <= i < checks.len(),
        source_text(checks[i].label).len() > 0,
    ensures
        holds(
            source_rows(checks),
            "| "@ + md_text(checks[i].label) + " | "@ + md_text(source_text(checks[i].label)) + " |\n"@,
        ),
    decreases checks.len(),
{
    let c = checks.last();
    lemma_holds_in_front(
        source_rows(checks.drop_last()),
        "| "@ + md_text(c.label) + " | "@ + md_text(source_text(c.label)) + " |\n"@,
    );
    if i < checks.len() - 1 {
        lemma_source_rows(checks.drop_last(), i);
    }
}

proof fn lemma_chain_rows(chains: Seq<(Seq<char>, nat)>, top: nat, total: nat, i: int)
    requires
        0 <= i < chains.len(),
    ensures
        holds(chain_rows(chains, top, total), chain_row(chains[i], top, total)),
    decreases chains.len(),
{
    lemma_holds_in_front(chain_rows(chains.drop_last(), top, total), chain_row(chains.last(), top, total));
    if i < chains.len() - 1 {
        lemma_chain_rows(chains.drop_last(), top, total, i);
    }
}

/// The report numbers the criteria from one on, each with its name, its result in a
/// word and its remark.
pub proof fn law_report_lists_the_criteria(name: Seq<char>, sha: Seq<char>, r: ReportModel, now: u64, i: int)
    requires
        0 <= i < r.checks.len(),
    ensures
        holds(
            markdown_text(name, sha, r, now),
            "| "@ + decimal((i + 1) as nat) + " | "@ + md_text(r.checks[i].label) + " | **"@ + (match r.checks[i].level {
                Level::Pass => "PASS"@,
                Level::Warn => "DEVIATION"@,
                Level::Fail => "FAIL"@,
                Level::Info => "INFO"@,
            }) + "** | "@ + md_text(r.checks[i].detail) + " |\n"@,
        ),
        source_text(r.checks[i].label).len() > 0 ==> holds(
            markdown_text(name, sha, r, now),
            "| "@ + md_text(r.checks[i].label) + " | "@ + md_text(source_text(r.checks[i].label)) + " |\n"@,
        ),
{
    lemma_parts_of_the_report(name, sha, r, now);
    lemma_criterion_rows(r.checks, i);
    if source_text(r.checks[i].label).len() > 0 {
        lemma_source_rows(r.checks, i);
    }
}

/// The report numbers the findings from one on, and says so where there is none.
pub proof fn law_report_lists_the_findings(name: Seq<char>, sha: Seq<char>, r: ReportModel, now: u64, i: int)
    ensures
        0 <= i < r.notices.len() ==> holds(
            markdown_text(name, sha, r, now),
            "### Finding F"@ + decimal((i + 1) as nat) + " — "@ + r.notices[i].title
                + "\n\n*Severity: Major · Reference: `"@ + r.notices[i].code + "`*\n\n"@ + r.notices[i].text + "\n\n"@,
        ),
        r.notices.len() == 0 ==> holds(
            markdown_text(name, sha, r, now),
            "_No capture-quality findings were raised._\n\n"@,
        ),
{
    lemma_parts_of_the_report(name, sha, r, now);
    if r.notices.len() == 0 {
        lemma_holds_in_front(finding_texts(r.notices), "_No capture-quality findings were raised._\n\n"@);
    } else if 0 <= i < r.notices.len() {
        lemma_finding_texts(r.notices, i);
    }
}

/// The report lists the twenty most frequent chains, each with its count and its share
/// of all frames.
pub proof fn law_report_lists_the_chains(name: Seq<char>, sha: Seq<char>, r: ReportModel, now: u64, i: int)
    requires
        0 <= i < r.stats.chains.len(),
        i < 20,
        chain_total(r.stats.chains) > 0,
    ensures
        ({
            let (chain, count) = ranking(r.stats.chains)[i];
            holds(
                markdown_text(name, sha, r, now),
                "| `"@ + chain + "` | "@ + grouped(count) + " | "@ + tenths_text(
                    fixed(percent(count, chain_total(r.stats.chains)), 10),
                ) + "% | "@,
            )
        }),
{
    let all = ranking(r.stats.chains);
    let total = chain_total(r.stats.chains);
    assert(all.len() == r.stats.chains.len()) by {
        crate::ranking::law_chains_are_ranked(r.stats.chains);
    }
    let list = leading(all, LISTED_CHAINS as nat);
    assert(list[i] == all[i]);
    lemma_chain_rows(list, all[0].1, total, i);
    let (chain, count) = all[i];
    let pct = percent(count, total);
    let piece = "| `"@ + chain + "` | "@ + grouped(count) + " | "@ + tenths_text(fixed(pct, 10)) + "% | "@;
    let rest = repeated('█', relative_bar(pct, chain_percent(all[0].1, total))) + " |\n"@;
    assert(chain_row(all[i], all[0].1, total) =~= piece + rest);
    lemma_holds_in_front(piece, rest);
    lemma_holds_through(chain_rows(list, all[0].1, total), piece + rest, piece);
    assert(holds(markdown_text(name, sha, r, now), piece)) by {
        lemma_parts_of_the_report(name, sha, r, now);
    }
}

/// The result in words: a capture conforms, conforms with deviations, or does not.
pub proof fn law_result_words(i: Intake)
    ensures
        result_word(i) == (match i {
            Intake::Accept => "CONFORMS"@,
            Intake::Review => "CONFORMS WITH DEVIATIONS"@,
            Intake::Reject => "DOES NOT CONFORM"@,
        }),
        statement(i) == (match i {
            Intake::Accept => "The capture meets the collection requirements and is suitable for onward analysis."@,
            Intake::Review => "The capture is usable but exhibits deviations that should be reviewed before use (see findings)."@,
            Intake::Reject => "The capture does not meet one or more mandatory collection requirements and should be re-taken."@,
        }),
{
}

/// The mean length of a packet is that of the bytes on the wire, the fraction cut off.
pub proof fn law_mean_length(r: ReportModel)
    ensures
        r.packets == 0 ==> mean_length(r) == 0,
        r.packets > 0 ==> mean_length(r) * r.packets <= r.wire_bytes < (mean_length(r) + 1) * r.packets,
{
    if r.packets > 0 {
        let (w, n) = (r.wire_bytes as nat, r.packets);
        let m = w / n;
        assert(m * n <= w < (m + 1) * n) by (nonlinear_arith)
            requires
                m == w / n,
                n > 0,
        ;
    }
}

/// The number of a report holds the day of its issue, as eight digits, and the start of
/// the digest.
pub proof fn law_report_number(sha: Seq<char>, d: crate::time::Date, h: nat, m: nat, s: nat)
    requires
        crate::time::is_date(d),
        1970 <= d.year < 10_000,
        h < 24,
        m < 60,
        s < 60,
        crate::time::day_number(d) > 0 || h + m + s > 0,
        86_400 * crate::time::day_number(d) + 3600 * h + 60 * m + s <= u64::MAX,
    ensures
        ({
            let (y, o, n) = (d.year as nat, d.month as nat, d.day as nat);
            let now = (86_400 * crate::time::day_number(d) + 3600 * h + 60 * m + s) as u64;
            report_number(sha, now) == "PC-"@ + seq![
                digit(y / 1000),
                digit((y / 100) % 10),
                digit((y / 10) % 10),
                digit(y % 10),
                digit(o / 10),
                digit(o % 10),
                digit(n / 10),
                digit(n % 10),
            ] + "-"@ + capitals(first_bytes(sha, 8))
        }),
{
    let (y, o, n) = (d.year as nat, d.month as nat, d.day as nat);
    let now = (86_400 * crate::time::day_number(d) + 3600 * h + 60 * m + s) as u64;
    crate::time::lemma_days_since_1970(d);
    crate::time::law_calendar_time(d, h, m, s);
    let t = utc_text(clock_time(now));
    let a = crate::time::date_digits(d);
    assert(t.take(10) =~= a);
    lemma_without_dashes(a, y, o, n);
}

proof fn lemma_without_dashes(a: Seq<char>, y: nat, o: nat, n: nat)
    requires
        y < 10_000,
        o < 100,
        n < 100,
        a == seq![
            digit(y / 1000),
            digit((y / 100) % 10),
            digit((y / 10) % 10),
            digit(y % 10),
            '-',
            digit(o / 10),
            digit(o % 10),
            '-',
            digit(n / 10),
            digit(n % 10),
        ],
    ensures
        without(a, '-') == seq![
            digit(y / 1000),
            digit((y / 100) % 10),
            digit((y / 10) % 10),
            digit(y % 10),
            digit(o / 10),
            digit(o % 10),
            digit(n / 10),
            digit(n % 10),
        ],
{
    let p = seq![digit(y / 1000), digit((y / 100) % 10), digit((y / 10) % 10), digit(y % 10)];
    let q = seq![digit(o / 10), digit(o % 10)];
    let r = seq![digit(n / 10), digit(n % 10)];
    let dash = seq!['-'];
    assert(digit(y / 1000) as nat == 48 + y / 1000 && digit((y / 100) % 10) as nat == 48 + (y / 100) % 10 && digit(
        (y / 10) % 10,
    ) as nat == 48 + (y / 10) % 10 && digit(y % 10) as nat == 48 + y % 10);
    assert(digit(o / 10) as nat == 48 + o / 10 && digit(o % 10) as nat == 48 + o % 10);
    assert(digit(n / 10) as nat == 48 + n / 10 && digit(n % 10) as nat == 48 + n % 10);
    assert(a =~= p + dash + q + dash + r);
    crate::text::lemma_without_joined(p + dash + q + dash, r, '-');
    crate::text::lemma_without_joined(p + dash + q, dash, '-');
    crate::text::lemma_without_joined(p + dash, q, '-');
    crate::text::lemma_without_joined(p, dash, '-');
    crate::text::lemma_without_nothing(p, '-');
    crate::text::lemma_without_nothing(q, '-');
    crate::text::lemma_without_nothing(r, '-');
    assert(without(dash, '-') =~= Seq::<char>::empty()) by {
        assert(dash.drop_last() =~= Seq::<char>::empty());
        reveal_with_fuel(without, 2);
    }
    assert(without(a, '-') =~= p + q + r);
}

/// A point in time is told as such, and none as a dash.
pub proof fn law_moments(t: Binary64)
    ensures
        moment(Some(t)) == utc_text(t),
        moment(None) == "-"@,
        t.mant == 0 ==> moment(Some(t)) == "-"@,
{
}

/// Of ASCII text the first bytes are the first characters, and capitals are taken of
/// its letters alone.
pub proof fn law_start_of_a_digest(s: Seq<char>, n: nat)
    requires
        is_ascii_text(s),
        n <= s.len(),
    ensures
        first_bytes(s, n) == s.take(n as int),
        uppered(s).len() == s.len(),
        forall|i: int|
            0 <= i < s.len() ==> #[trigger] uppered(s)[i] as int == (if 97 <= s[i] as int <= 122 {
                s[i] as int - 32
            } else {
                s[i] as int
            }),
{
    lemma_ascii_first_bytes(s, n);
}

/// The share of a chain is that of all frames, and nothing is none of nothing.
pub proof fn law_share_of_a_chain(count: nat, total: nat)
    ensures
        total > 0 ==> chain_percent(count, total) == percent(count, total),
        chain_percent(0, total).mant == 0,
{
}

/// Only the twenty most frequent chains are listed: what comes behind them shows in
/// nothing but the total.
pub proof fn law_only_twenty_chains_are_listed(a: Seq<(Seq<char>, nat)>, b: Seq<(Seq<char>, nat)>)
    requires
        ranking(a).len() > 20,
        ranking(b).len() > 20,
        ranking(a).take(20) == ranking(b).take(20),
        chain_total(a) == chain_total(b),
    ensures
        chains_text(a) == chains_text(b),
{
    assert(ranking(a)[0] == ranking(a).take(20)[0]);
    assert(ranking(b)[0] == ranking(b).take(20)[0]);
}

/// A capture without a decodable frame says so.
pub proof fn law_no_chains(chains: Seq<(Seq<char>, nat)>)
    requires
        ranking(chains).len() == 0,
    ensures
        chains_text(chains) == "## 4  Encapsulation chains (count / %)\n\n_No decodable Layer-2 chains._\n"@,
{
}

proof fn lemma_closing_pieces(now: u64)
    ensures
        ({
            let text = closing_text(now);
            &&& holds(text, "\n## 7  Basis and disclaimer\n\nCriteria basis: PCAP Collection Guide (format, full-frame capture, per-file size, endpoint diversity and representative duration). TCP session integrity follows RFC 9293 (handshake, sequence numbers); tunnel/encapsulation conformance follows RFC 7348 (VXLAN) and the ERSPAN draft. Thresholds are configurable. This automated report contains no manual review and does not constitute a certification.\n\n> **How this runs:** "@ + TRUST_NOTE@ + "\n\n_Prepared by PicoCap v"@)
            &&& holds(text, "\n\n_Prepared by PicoCap v"@ + VERSION@ + " \""@)
            &&& holds(text, " \""@ + CODENAME@ + "\" (automated) · "@)
            &&& holds(text, "\" (automated) · "@ + utc_text(clock_time(now)) + "_\n"@)
        }),
{
    let text = closing_text(now);
    let none = Seq::<char>::empty();
    let d0 = none + "\n## 7  Basis and disclaimer\n\nCriteria basis: PCAP Collection Guide (format, full-frame capture, per-file size, endpoint diversity and representative duration). TCP session integrity follows RFC 9293 (handshake, sequence numbers); tunnel/encapsulation conformance follows RFC 7348 (VXLAN) and the ERSPAN draft. Thresholds are configurable. This automated report contains no manual review and does not constitute a certification.\n\n> **How this runs:** "@;
    let d1 = d0 + TRUST_NOTE@;
    let d2 = d1 + "\n\n_Prepared by PicoCap v"@;
    let d3 = d2 + VERSION@;
    let d4 = d3 + " \""@;
    let d5 = d4 + CODENAME@;
    let d6 = d5 + "\" (automated) · "@;
    let d7 = d6 + utc_text(clock_time(now));
    let d8 = d7 + "_\n"@;
    assert(d0 =~= "\n## 7  Basis and disclaimer\n\nCriteria basis: PCAP Collection Guide (format, full-frame capture, per-file size, endpoint diversity and representative duration). TCP session integrity follows RFC 9293 (handshake, sequence numbers); tunnel/encapsulation conformance follows RFC 7348 (VXLAN) and the ERSPAN draft. Thresholds are configurable. This automated report contains no manual review and does not constitute a certification.\n\n> **How this runs:** "@);
    lemma_opens_itself(text);
    lemma_opens_with_less(text, d7, "_\n"@);
    lemma_opens_with_less(text, d6, utc_text(clock_time(now)));
    lemma_opens_with_less(text, d5, "\" (automated) · "@);
    lemma_opens_with_less(text, d4, CODENAME@);
    lemma_opens_with_less(text, d3, " \""@);
    lemma_opens_with_less(text, d2, VERSION@);
    lemma_opens_with_less(text, d1, "\n\n_Prepared by PicoCap v"@);
    lemma_opens_with_less(text, d0, TRUST_NOTE@);
    lemma_three_parts(text, none, "\n## 7  Basis and disclaimer\n\nCriteria basis: PCAP Collection Guide (format, full-frame capture, per-file size, endpoint diversity and representative duration). TCP session integrity follows RFC 9293 (handshake, sequence numbers); tunnel/encapsulation conformance follows RFC 7348 (VXLAN) and the ERSPAN draft. Thresholds are configurable. This automated report contains no manual review and does not constitute a certification.\n\n> **How this runs:** "@, TRUST_NOTE@, "\n\n_Prepared by PicoCap v"@);
    lemma_three_parts(text, d1, "\n\n_Prepared by PicoCap v"@, VERSION@, " \""@);
    lemma_three_parts(text, d3, " \""@, CODENAME@, "\" (automated) · "@);
    lemma_three_parts(text, d5, "\" (automated) · "@, utc_text(clock_time(now)), "_\n"@);
}

/// The report closes with how it was made, by what and when.
pub proof fn law_report_closes(name: Seq<char>, sha: Seq<char>, r: ReportModel, now: u64)
    ensures
        ({
            let text = markdown_text(name, sha, r, now);
            &&& holds(text, "\n## 7  Basis and disclaimer\n\nCriteria basis: PCAP Collection Guide (format, full-frame capture, per-file size, endpoint diversity and representative duration). TCP session integrity follows RFC 9293 (handshake, sequence numbers); tunnel/encapsulation conformance follows RFC 7348 (VXLAN) and the ERSPAN draft. Thresholds are configurable. This automated report contains no manual review and does not constitute a certification.\n\n> **How this runs:** "@ + TRUST_NOTE@ + "\n\n_Prepared by PicoCap v"@)
            &&& holds(text, "\n\n_Prepared by PicoCap v"@ + VERSION@ + " \""@)
            &&& holds(text, " \""@ + CODENAME@ + "\" (automated) · "@)
            &&& holds(text, "\" (automated) · "@ + utc_text(clock_time(now)) + "_\n"@)
        }),
{
    lemma_closing_pieces(now);
    lemma_parts_of_the_report(name, sha, r, now);
}

} // verus!
