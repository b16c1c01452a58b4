//! The answer to an uploaded capture, in JSON.

use vstd::prelude::*;

use crate::about::TRUST_NOTE;
use crate::binary64::Binary64;
#[allow(unused_imports)]
use crate::binary64::{fixed, zero};
use crate::checks::finding_source;
#[allow(unused_imports)]
use crate::checks::source_text;
use crate::config::Config;
use crate::digest::sha256_hex;
#[allow(unused_imports)]
use crate::digest::sha256_of;
use crate::figures::{bits_per_second, percent_of, push_whole_figure};
#[allow(unused_imports)]
use crate::figures::{bit_rate, percent};
use crate::markdown::{average_packet, markdown_report, moment_text, LISTED_CHAINS};
#[allow(unused_imports)]
use crate::markdown::{
    capitals, first_bytes, first_chars, is_ascii_text, leading, markdown_text, mean_length, moment, uppered,
};
#[allow(unused_imports)]
use crate::pieces::{holds, lemma_holds_in_front, lemma_opens_itself, lemma_opens_with_less, lemma_three_parts};
use crate::ranking::{ranked, total_of};
#[allow(unused_imports)]
use crate::ranking::{chain_total, ranking};
use crate::reader::analyze;
#[allow(unused_imports)]
use crate::reader::analysis_of;
use crate::report::{Check, Notice, Report};
#[allow(unused_imports)]
use crate::report::{checks_view, notices_view, CheckModel, Level, NoticeModel, ReportModel};
#[allow(unused_imports)]
use crate::stats::chains_view;
use crate::text::{json_str, push_bool, push_decimal, push_tenths};
#[allow(unused_imports)]
use crate::text::{bool_text, decimal, hex_byte, hex_text, json_text, tenths_text};

verus! {

fn push_json(o: &mut String, s: &str)
    ensures
        final(o)@ == old(o)@ + json_text(s@),
{
    let t = json_str(s);
    o.append(t.as_str());
}

/// A comma before every item of a list but the first.
pub open spec fn comma(n: nat) -> Seq<char> {
    if n > 1 {
        ","@
    } else {
        ""@
    }
}

/// A criterion as a JSON object.
pub open spec fn check_object(c: CheckModel) -> Seq<char> {
    "{\"level\":\""@ + c.level.spec_name() + "\",\"label\":"@ + json_text(c.label) + ",\"detail\":"@ + json_text(c.detail)
        + ",\"source\":"@ + json_text(source_text(c.label)) + "}"@
}

pub open spec fn check_objects(checks: Seq<CheckModel>) -> Seq<char>
    decreases checks.len(),
{
    if checks.len() == 0 {
        ""@
    } else {
        check_objects(checks.drop_last()) + comma(checks.len()) + check_object(checks.last())
    }
}

fn check_item(c: &Check) -> (o: String)
    ensures
        o@ == check_object(c@),
{
    let mut o = String::from_str("{\"level\":\"");
    o.append(c.level.name());
    o.append("\",\"label\":");
    push_json(&mut o, c.label.as_str());
    o.append(",\"detail\":");
    push_json(&mut o, c.detail.as_str());
    o.append(",\"source\":");
    push_json(&mut o, finding_source(c.label.as_str()));
    o.append("}");
    o
}

fn check_list(checks: &Vec<Check>) -> (o: String)
    ensures
        o@ == check_objects(checks_view(checks@)),
{
    let mut o = String::from_str("");
    let n: usize = checks.len();
    let mut i: usize = 0;
    let ghost all = checks_view(checks@);
    while i < n
        invariant
            i <= n,
            n == checks@.len(),
            all == checks_view(checks@),
            o@ == check_objects(all.take(i as int)),
        decreases n - i,
    {
        assert(all.take(i + 1).drop_last() =~= all.take(i as int));
        assert(all[i as int] == checks@[i as int]@);
        o.append(
            if i > 0 {
                ","
            } else {
                ""
            },
        );
        o.append(check_item(&checks[i]).as_str());
        i = i + 1;
    }
    assert(all.take(n as int) =~= all);
    o
}

/// A notice as a JSON object.
pub open spec fn notice_object(n: NoticeModel) -> Seq<char> {
    "{\"code\":\""@ + n.code + "\",\"title\":"@ + json_text(n.title) + ",\"text\":"@ + json_text(n.text) + "}"@
}

pub open spec fn notice_objects(notices: Seq<NoticeModel>) -> Seq<char>
    decreases notices.len(),
{
    if notices.len() == 0 {
        ""@
    } else {
        notice_objects(notices.drop_last()) + comma(notices.len()) + notice_object(notices.last())
    }
}

fn notice_item(n: &Notice) -> (o: String)
    ensures
        o@ == notice_object(n@),
{
    let mut o = String::from_str("{\"code\":\"");
    o.append(n.code);
    o.append("\",\"title\":");
    push_json(&mut o, n.title.as_str());
    o.append(",\"text\":");
    push_json(&mut o, n.text.as_str());
    o.append("}");
    o
}

fn notice_list(notices: &Vec<Notice>) -> (o: String)
    ensures
        o@ == notice_objects(notices_view(notices@)),
{
    let mut o = String::from_str("");
    let n: usize = notices.len();
    let mut i: usize = 0;
    let ghost all = notices_view(notices@);
    while i < n
        invariant
            i <= n,
            n == notices@.len(),
            all == notices_view(notices@),
            o@ == notice_objects(all.take(i as int)),
        decreases n - i,
    {
        assert(all.take(i + 1).drop_last() =~= all.take(i as int));
        assert(all[i as int] == notices@[i as int]@);
        o.append(
            if i > 0 {
                ","
            } else {
                ""
            },
        );
        o.append(notice_item(&notices[i]).as_str());
        i = i + 1;
    }
    assert(all.take(n as int) =~= all);
    o
}

/// A share in percent; nothing of nothing.
pub open spec fn share(part: nat, total: nat) -> Binary64 {
    if total > 0 {
        percent(part, total)
    } else {
        zero()
    }
}

fn share_of(part: u64, total: u128) -> (r: Binary64)
    ensures
        r == share(part as nat, total as nat),
        r.wf(),
        r.exp <= 26,
{
    if total > 0 {
        percent_of(part as u128, total)
    } else {
        Binary64 { mant: 0, exp: 0 }
    }
}

/// A chain as a JSON object.
pub open spec fn chain_object(c: (Seq<char>, nat), total: nat) -> Seq<char> {
    "{\"chain\":"@ + json_text(c.0) + ",\"count\":"@ + decimal(c.1) + ",\"pct\":"@ + tenths_text(
        fixed(share(c.1, total), 10),
    ) + "}"@
}

pub open spec fn chain_objects(chains: Seq<(Seq<char>, nat)>, total: nat) -> Seq<char>
    decreases chains.len(),
{
    if chains.len() == 0 {
        ""@
    } else {
        chain_objects(chains.drop_last(), total) + comma(chains.len()) + chain_object(chains.last(), total)
    }
}

fn chain_item(name: &String, count: u64, total: u128) -> (o: String)
    ensures
        o@ == chain_object((name@, count as nat), total as nat),
{
    let mut o = String::from_str("{\"chain\":");
    push_json(&mut o, name.as_str());
    o.append(",\"count\":");
    push_decimal(&mut o, count as u128);
    o.append(",\"pct\":");
    push_tenths(&mut o, share_of(count, total).fixed(10));
    o.append("}");
    o
}

fn chain_list(chains: &Vec<(String, u64)>) -> (o: String)
    ensures
        o@ == chain_objects(
            leading(ranking(chains_view(chains@)), LISTED_CHAINS as nat),
            chain_total(chains_view(chains@)),
        ),
{
    let total: u128 = total_of(chains);
    let list: Vec<(String, u64)> = ranked(chains);
    let ghost all = chains_view(list@);
    let n: usize = list.len();
    let shown: usize = if n > LISTED_CHAINS {
        LISTED_CHAINS
    } else {
        n
    };
    let mut o = String::from_str("");
    let mut i: usize = 0;
    while i < shown
        invariant
            i <= shown <= n,
            n == list@.len(),
            all == chains_view(list@),
            o@ == chain_objects(all.take(i as int), total as nat),
        decreases shown - i,
    {
        assert(all.take(i + 1).drop_last() =~= all.take(i as int));
        assert(all[i as int] == (list@[i as int].0@, list@[i as int].1 as nat));
        o.append(
            if i > 0 {
                ","
            } else {
                ""
            },
        );
        o.append(chain_item(&list[i].0, list[i].1, total).as_str());
        i = i + 1;
    }
    assert(all.take(shown as int) =~= leading(all, LISTED_CHAINS as nat));
    o
}

/// File, scores and verdict.
pub open spec fn head_members(name: Seq<char>, sha: Seq<char>, r: ReportModel) -> Seq<char> {
    "{\"name\":"@ + json_text(name) + ",\"format\":\""@ + r.format.spec_name() + "\",\"linktype\":"@ + json_text(r.linktype)
        + ",\"packets\":"@ + decimal(r.packets) + ",\"consumed\":"@ + decimal(r.consumed) + ",\"total\":"@ + decimal(r.total)
        + ",\"score\":"@ + tenths_text(fixed(r.score, 10)) + ",\"conformance\":"@ + tenths_text(fixed(r.conformance, 10))
        + ",\"clean\":"@ + bool_text(r.clean) + ",\"note\":"@ + json_text(r.note) + ",\"sha256\":\""@ + sha
        + "\",\"intake\":\""@ + r.intake.spec_name() + "\",\"snaplen\":"@ + decimal(r.snaplen as nat) + ",\"truncated\":"@
        + decimal(r.truncated_pkts) + ",\"src_macs\":"@ + decimal(r.src_macs) + ",\"ip_addrs\":"@ + decimal(r.ip_addrs)
        + ",\"duration\":"@ + tenths_text(fixed(r.duration, 10)) + ",\"has_time\":"@ + bool_text(r.has_time)
}

fn head_part(name: &str, sha: &str, r: &Report) -> (o: String)
    requires
        r@.wf(),
    ensures
        o@ == head_members(name@, sha@, r@),
{
    let mut o = String::from_str("{\"name\":");
    push_json(&mut o, name);
    o.append(",\"format\":\"");
    o.append(r.format.name());
    o.append("\",\"linktype\":");
    push_json(&mut o, r.linktype.as_str());
    o.append(",\"packets\":");
    push_decimal(&mut o, r.packets as u128);
    o.append(",\"consumed\":");
    push_decimal(&mut o, r.consumed as u128);
    o.append(",\"total\":");
    push_decimal(&mut o, r.total as u128);
    o.append(",\"score\":");
    push_tenths(&mut o, r.score.fixed(10));
    o.append(",\"conformance\":");
    push_tenths(&mut o, r.conformance.fixed(10));
    o.append(",\"clean\":");
    push_bool(&mut o, r.clean);
    o.append(",\"note\":");
    push_json(&mut o, r.note.as_str());
    o.append(",\"sha256\":\"");
    o.append(sha);
    o.append("\",\"intake\":\"");
    o.append(r.intake.name());
    o.append("\",\"snaplen\":");
    push_decimal(&mut o, r.snaplen as u128);
    o.append(",\"truncated\":");
    push_decimal(&mut o, r.truncated_pkts as u128);
    o.append(",\"src_macs\":");
    push_decimal(&mut o, r.src_macs as u128);
    o.append(",\"ip_addrs\":");
    push_decimal(&mut o, r.ip_addrs as u128);
    o.append(",\"duration\":");
    push_tenths(&mut o, r.duration.fixed(10));
    o.append(",\"has_time\":");
    push_bool(&mut o, r.has_time);
    o
}

/// The bits per second; none without a time span.
pub open spec fn mean_bit_rate(r: ReportModel) -> Binary64 {
    if r.has_time && r.duration.mant > 0 {
        bit_rate(r.wire_bytes as nat, r.duration)
    } else {
        zero()
    }
}

/// The metadata of the capture.
pub open spec fn meta_members(r: ReportModel) -> Seq<char> {
    ",\"meta\":{\"ver\":"@ + json_text(r.ver) + ",\"endian\":\""@ + r.endian + "\",\"ts_prec\":\""@ + r.ts_prec
        + "\",\"ifaces\":"@ + decimal(r.iface_count) + ",\"snaplen\":"@ + decimal(r.snaplen as nat) + ",\"linktype\":"@
        + json_text(r.linktype) + ",\"start\":\""@ + moment(r.stats.ts_first) + "\",\"end\":\""@ + moment(r.stats.ts_last)
        + "\",\"duration_h\":"@ + tenths_text(fixed(r.duration, 10)) + ",\"wire_bytes\":"@ + decimal(
        r.wire_bytes as nat,
    ) + ",\"avg_pkt\":"@ + decimal(mean_length(r)) + ",\"rate_bps\":"@ + decimal(fixed(mean_bit_rate(r), 1)) + "}"@
}

fn meta_part(r: &Report) -> (o: String)
    requires
        r@.wf(),
    ensures
        o@ == meta_members(r@),
{
    let rate: Binary64 = if r.has_time && r.duration.mant > 0 {
        bits_per_second(r.wire_bytes, r.duration)
    } else {
        Binary64 { mant: 0, exp: 0 }
    };
    let mut o = String::from_str(",\"meta\":{\"ver\":");
    push_json(&mut o, r.ver.as_str());
    o.append(",\"endian\":\"");
    o.append(r.endian);
    o.append("\",\"ts_prec\":\"");
    o.append(r.ts_prec);
    o.append("\",\"ifaces\":");
    push_decimal(&mut o, r.iface_count as u128);
    o.append(",\"snaplen\":");
    push_decimal(&mut o, r.snaplen as u128);
    o.append(",\"linktype\":");
    push_json(&mut o, r.linktype.as_str());
    o.append(",\"start\":\"");
    o.append(moment_text(r.stats.ts_first).as_str());
    o.append("\",\"end\":\"");
    o.append(moment_text(r.stats.ts_last).as_str());
    o.append("\",\"duration_h\":");
    push_tenths(&mut o, r.duration.fixed(10));
    o.append(",\"wire_bytes\":");
    push_decimal(&mut o, r.wire_bytes as u128);
    o.append(",\"avg_pkt\":");
    push_decimal(&mut o, average_packet(r) as u128);
    o.append(",\"rate_bps\":");
    push_whole_figure(&mut o, rate);
    o.append("}");
    o
}

/// The distribution of the packets.
pub open spec fn dist_members(r: ReportModel) -> Seq<char> {
    let s = r.stats;
    ",\"dist\":{\"unicast\":"@ + decimal(s.unicast) + ",\"multicast\":"@ + decimal(s.multicast) + ",\"broadcast\":"@
        + decimal(s.broadcast) + ",\"ipv4\":"@ + decimal(s.ipv4) + ",\"ipv6\":"@ + decimal(s.ipv6) + ",\"arp\":"@ + decimal(
        s.arp,
    ) + ",\"vlan\":"@ + decimal(s.vlan) + ",\"gre\":"@ + decimal(s.gre) + ",\"erspan\":"@ + decimal(s.erspan)
        + ",\"vxlan\":"@ + decimal(s.vxlan) + ",\"geneve\":"@ + decimal(s.geneve) + ",\"decoded\":"@ + decimal(s.decoded)
        + ",\"dup_frames\":"@ + decimal(s.dup_frames) + ",\"dup_pct\":"@ + tenths_text(
        fixed(share(s.dup_frames, r.packets), 10),
    ) + ",\"qinq\":"@ + decimal(s.qinq) + ",\"vlan_ids\":"@ + decimal(s.vlan_ids.len()) + ",\"max_depth\":"@ + decimal(
        s.max_depth,
    ) + ",\"multi_encap\":"@ + decimal(s.multi_encap) + "}"@
}

fn dist_part(r: &Report) -> (o: String)
    ensures
        o@ == dist_members(r@),
{
    let s = &r.stats;
    let mut o = String::from_str(",\"dist\":{\"unicast\":");
    push_decimal(&mut o, s.unicast as u128);
    o.append(",\"multicast\":");
    push_decimal(&mut o, s.multicast as u128);
    o.append(",\"broadcast\":");
    push_decimal(&mut o, s.broadcast as u128);
    o.append(",\"ipv4\":");
    push_decimal(&mut o, s.ipv4 as u128);
    o.append(",\"ipv6\":");
    push_decimal(&mut o, s.ipv6 as u128);
    o.append(",\"arp\":");
    push_decimal(&mut o, s.arp as u128);
    o.append(",\"vlan\":");
    push_decimal(&mut o, s.vlan as u128);
    o.append(",\"gre\":");
    push_decimal(&mut o, s.gre as u128);
    o.append(",\"erspan\":");
    push_decimal(&mut o, s.erspan as u128);
    o.append(",\"vxlan\":");
    push_decimal(&mut o, s.vxlan as u128);
    o.append(",\"geneve\":");
    push_decimal(&mut o, s.geneve as u128);
    o.append(",\"decoded\":");
    push_decimal(&mut o, s.decoded as u128);
    o.append(",\"dup_frames\":");
    push_decimal(&mut o, s.dup_frames as u128);
    o.append(",\"dup_pct\":");
    push_tenths(&mut o, share_of(s.dup_frames, r.packets as u128).fixed(10));
    o.append(",\"qinq\":");
    push_decimal(&mut o, s.qinq as u128);
    o.append(",\"vlan_ids\":");
    push_decimal(&mut o, s.vlan_ids.len() as u128);
    o.append(",\"max_depth\":");
    push_decimal(&mut o, s.max_depth as u128);
    o.append(",\"multi_encap\":");
    push_decimal(&mut o, s.multi_encap as u128);
    o.append("}");
    o
}

/// The TCP sessions and the frames that are off.
pub open spec fn session_members(r: ReportModel) -> Seq<char> {
    let s = r.stats;
    ",\"session\":{\"tcp_flows\":"@ + decimal(s.tcp_flows) + ",\"handshake_complete\":"@ + decimal(s.hs_complete)
        + ",\"syn_only\":"@ + decimal(s.hs_syn_only) + ",\"mid_stream\":"@ + decimal(s.hs_midstream) + ",\"seq_gaps\":"@
        + decimal(s.seq_gaps) + ",\"acked_unseen\":"@ + decimal(s.acked_unseen) + ",\"inner_trunc\":"@ + decimal(
        s.inner_trunc,
    ) + ",\"vxlan_legacy\":"@ + decimal(s.vxlan_legacy) + ",\"runts\":"@ + decimal(s.runts) + ",\"oversize\":"@ + decimal(
        s.oversize,
    ) + "}"@
}

fn session_part(r: &Report) -> (o: String)
    ensures
        o@ == session_members(r@),
{
    let s = &r.stats;
    let mut o = String::from_str(",\"session\":{\"tcp_flows\":");
    push_decimal(&mut o, s.tcp_flows as u128);
    o.append(",\"handshake_complete\":");
    push_decimal(&mut o, s.hs_complete as u128);
    o.append(",\"syn_only\":");
    push_decimal(&mut o, s.hs_syn_only as u128);
    o.append(",\"mid_stream\":");
    push_decimal(&mut o, s.hs_midstream as u128);
    o.append(",\"seq_gaps\":");
    push_decimal(&mut o, s.seq_gaps as u128);
    o.append(",\"acked_unseen\":");
    push_decimal(&mut o, s.acked_unseen as u128);
    o.append(",\"inner_trunc\":");
    push_decimal(&mut o, s.inner_trunc as u128);
    o.append(",\"vxlan_legacy\":");
    push_decimal(&mut o, s.vxlan_legacy as u128);
    o.append(",\"runts\":");
    push_decimal(&mut o, s.runts as u128);
    o.append(",\"oversize\":");
    push_decimal(&mut o, s.oversize as u128);
    o.append("}");
    o
}

/// The whole answer: the report as a JSON object, with its Markdown form inside.
pub open spec fn answer_text(name: Seq<char>, sha: Seq<char>, r: ReportModel, markdown: Seq<char>) -> Seq<char> {
    head_members(name, sha, r) + meta_members(r) + dist_members(r) + session_members(r) + ",\"trust\":"@ + json_text(
        TRUST_NOTE@,
    ) + ",\"chains\":["@ + chain_objects(
        leading(ranking(r.stats.chains), LISTED_CHAINS as nat),
        chain_total(r.stats.chains),
    ) + "],\"checks\":["@ + check_objects(r.checks) + "],\"notices\":["@ + notice_objects(r.notices) + "],\"report_md\":"@
        + json_text(markdown) + "}"@
}

/// The report on the capture `name` with the digest `sha` as a JSON object.
pub fn answer(name: &str, sha: &str, r: &Report, markdown: &str) -> (o: String)
    requires
        r@.wf(),
    ensures
        o@ == answer_text(name@, sha@, r@, markdown@),
{
    let mut o = head_part(name, sha, r);
    o.append(meta_part(r).as_str());
    o.append(dist_part(r).as_str());
    o.append(session_part(r).as_str());
    o.append(",\"trust\":");
    push_json(&mut o, TRUST_NOTE);
    o.append(",\"chains\":[");
    o.append(chain_list(&r.stats.chains).as_str());
    o.append("],\"checks\":[");
    o.append(check_list(&r.checks).as_str());
    o.append("],\"notices\":[");
    o.append(notice_list(&r.notices).as_str());
    o.append("],\"report_md\":");
    push_json(&mut o, markdown);
    o.append("}");
    o
}

proof fn lemma_hex_is_ascii(b: Seq<u8>)
    ensures
        is_ascii_text(hex_text(b)),
    decreases b.len(),
{
    if b.len() > 0 {
        let head = hex_text(b.drop_last());
        lemma_hex_is_ascii(b.drop_last());
        let s = hex_text(b);
        assert forall|i: int| 0 <= i < s.len() implies (#[trigger] s[i] as u32) < 128 by {
            if i < head.len() {
                assert(s[i] == head[i]);
            } else {
                assert(s[i] == hex_byte(b.last())[i - head.len()]);
            }
        }
    }
}

/// Checks an uploaded capture and answers in JSON. `now` is the time of issue in
/// seconds since the start of 1970.
pub fn check(name: &str, data: &[u8], now: u64, c: &Config) -> (o: String)
    requires
        data@.len() + 65_536 <= usize::MAX,
    ensures
        ({
            let sha = hex_text(sha256_of(data@));
            let r = analysis_of(data@, data@, data@.len(), c@);
            &&& o@ == answer_text(name@, sha, r, markdown_text(name@, sha, r, now))
            &&& capitals(first_bytes(sha, 8)) == uppered(first_chars(sha, 8))
        }),
{
    let sha = sha256_hex(data);
    proof {
        lemma_hex_is_ascii(sha256_of(data@));
    }
    let r = analyze(data, c);
    let markdown = markdown_report(name, sha.as_str(), &r, now);
    answer(name, sha.as_str(), &r, markdown.as_str())
}

#[verifier::rlimit(30)]
proof fn lemma_head_pieces(name: Seq<char>, sha: Seq<char>, r: ReportModel)
    ensures
        ({
            let text = head_members(name, sha, r);
            &&& holds(text, "{\"name\":"@ + json_text(name) + ",\"format\":\""@)
            &&& holds(text, ",\"format\":\""@ + r.format.spec_name() + "\",\"linktype\":"@)
            &&& holds(text, "\",\"linktype\":"@ + json_text(r.linktype) + ",\"packets\":"@)
            &&& holds(text, ",\"packets\":"@ + decimal(r.packets) + ",\"consumed\":"@)
            &&& holds(text, ",\"consumed\":"@ + decimal(r.consumed) + ",\"total\":"@)
            &&& holds(text, ",\"total\":"@ + decimal(r.total) + ",\"score\":"@)
            &&& holds(text, ",\"score\":"@ + tenths_text(fixed(r.score, 10)) + ",\"conformance\":"@)
            &&& holds(text, ",\"conformance\":"@ + tenths_text(fixed(r.conformance, 10)) + ",\"clean\":"@)
            &&& holds(text, ",\"clean\":"@ + bool_text(r.clean) + ",\"note\":"@)
            &&& holds(text, ",\"note\":"@ + json_text(r.note) + ",\"sha256\":\""@)
            &&& holds(text, ",\"sha256\":\""@ + sha + "\",\"intake\":\""@)
            &&& holds(text, "\",\"intake\":\""@ + r.intake.spec_name() + "\",\"snaplen\":"@)
            &&& holds(text, "\",\"snaplen\":"@ + decimal(r.snaplen as nat) + ",\"truncated\":"@)
            &&& holds(text, ",\"truncated\":"@ + decimal(r.truncated_pkts) + ",\"src_macs\":"@)
            &&& holds(text, ",\"src_macs\":"@ + decimal(r.src_macs) + ",\"ip_addrs\":"@)
            &&& holds(text, ",\"ip_addrs\":"@ + decimal(r.ip_addrs) + ",\"duration\":"@)
            &&& holds(text, ",\"duration\":"@ + tenths_text(fixed(r.duration, 10)) + ",\"has_time\":"@)
            &&& holds(text, tenths_text(fixed(r.duration, 10)) + ",\"has_time\":"@ + bool_text(r.has_time))
        }),
{
    let text = head_members(name, sha, r);
    let none = Seq::<char>::empty();
    let d0 = none + "{\"name\":"@;
    let d1 = d0 + json_text(name);
    let d2 = d1 + ",\"format\":\""@;
    let d3 = d2 + r.format.spec_name();
    let d4 = d3 + "\",\"linktype\":"@;
    let d5 = d4 + json_text(r.linktype);
    let d6 = d5 + ",\"packets\":"@;
    let d7 = d6 + decimal(r.packets);
    let d8 = d7 + ",\"consumed\":"@;
    let d9 = d8 + decimal(r.consumed);
    let d10 = d9 + ",\"total\":"@;
    let d11 = d10 + decimal(r.total);
    let d12 = d11 + ",\"score\":"@;
    let d13 = d12 + tenths_text(fixed(r.score, 10));
    let d14 = d13 + ",\"conformance\":"@;
    let d15 = d14 + tenths_text(fixed(r.conformance, 10));
    let d16 = d15 + ",\"clean\":"@;
    let d17 = d16 + bool_text(r.clean);
    let d18 = d17 + ",\"note\":"@;
    let d19 = d18 + json_text(r.note);
    let d20 = d19 + ",\"sha256\":\""@;
    let d21 = d20 + sha;
    let d22 = d21 + "\",\"intake\":\""@;
    let d23 = d22 + r.intake.spec_name();
    let d24 = d23 + "\",\"snaplen\":"@;
    let d25 = d24 + decimal(r.snaplen as nat);
    let d26 = d25 + ",\"truncated\":"@;
    let d27 = d26 + decimal(r.truncated_pkts);
    let d28 = d27 + ",\"src_macs\":"@;
    let d29 = d28 + decimal(r.src_macs);
    let d30 = d29 + ",\"ip_addrs\":"@;
    let d31 = d30 + decimal(r.ip_addrs);
    let d32 = d31 + ",\"duration\":"@;
    let d33 = d32 + tenths_text(fixed(r.duration, 10));
    let d34 = d33 + ",\"has_time\":"@;
    let d35 = d34 + bool_text(r.has_time);
    assert(d0 =~= "{\"name\":"@);
    lemma_opens_itself(text);
    lemma_opens_with_less(text, d34, bool_text(r.has_time));
    lemma_opens_with_less(text, d33, ",\"has_time\":"@);
    lemma_opens_with_less(text, d32, tenths_text(fixed(r.duration, 10)));
    lemma_opens_with_less(text, d31, ",\"duration\":"@);
    lemma_opens_with_less(text, d30, decimal(r.ip_addrs));
    lemma_opens_with_less(text, d29, ",\"ip_addrs\":"@);
    lemma_opens_with_less(text, d28, decimal(r.src_macs));
    lemma_opens_with_less(text, d27, ",\"src_macs\":"@);
    lemma_opens_with_less(text, d26, decimal(r.truncated_pkts));
    lemma_opens_with_less(text, d25, ",\"truncated\":"@);
    lemma_opens_with_less(text, d24, decimal(r.snaplen as nat));
    lemma_opens_with_less(text, d23, "\",\"snaplen\":"@);
    lemma_opens_with_less(text, d22, r.intake.spec_name());
    lemma_opens_with_less(text, d21, "\",\"intake\":\""@);
    lemma_opens_with_less(text, d20, sha);
    lemma_opens_with_less(text, d19, ",\"sha256\":\""@);
    lemma_opens_with_less(text, d18, json_text(r.note));
    lemma_opens_with_less(text, d17, ",\"note\":"@);
    lemma_opens_with_less(text, d16, bool_text(r.clean));
    lemma_opens_with_less(text, d15, ",\"clean\":"@);
    lemma_opens_with_less(text, d14, tenths_text(fixed(r.conformance, 10)));
    lemma_opens_with_less(text, d13, ",\"conformance\":"@);
    lemma_opens_with_less(text, d12, tenths_text(fixed(r.score, 10)));
    lemma_opens_with_less(text, d11, ",\"score\":"@);
    lemma_opens_with_less(text, d10, decimal(r.total));
    lemma_opens_with_less(text, d9, ",\"total\":"@);
    lemma_opens_with_less(text, d8, decimal(r.consumed));
    lemma_opens_with_less(text, d7, ",\"consumed\":"@);
    lemma_opens_with_less(text, d6, decimal(r.packets));
    lemma_opens_with_less(text, d5, ",\"packets\":"@);
    lemma_opens_with_less(text, d4, json_text(r.linktype));
    lemma_opens_with_less(text, d3, "\",\"linktype\":"@);
    lemma_opens_with_less(text, d2, r.format.spec_name());
    lemma_opens_with_less(text, d1, ",\"format\":\""@);
    lemma_opens_with_less(text, d0, json_text(name));
    lemma_three_parts(text, none, "{\"name\":"@, json_text(name), ",\"format\":\""@);
    lemma_three_parts(text, d1, ",\"format\":\""@, r.format.spec_name(), "\",\"linktype\":"@);
    lemma_three_parts(text, d3, "\",\"linktype\":"@, json_text(r.linktype), ",\"packets\":"@);
    lemma_three_parts(text, d5, ",\"packets\":"@, decimal(r.packets), ",\"consumed\":"@);
    lemma_three_parts(text, d7, ",\"consumed\":"@, decimal(r.consumed), ",\"total\":"@);
    lemma_three_parts(text, d9, ",\"total\":"@, decimal(r.total), ",\"score\":"@);
    lemma_three_parts(text, d11, ",\"score\":"@, tenths_text(fixed(r.score, 10)), ",\"conformance\":"@);
    lemma_three_parts(text, d13, ",\"conformance\":"@, tenths_text(fixed(r.conformance, 10)), ",\"clean\":"@);
    lemma_three_parts(text, d15, ",\"clean\":"@, bool_text(r.clean), ",\"note\":"@);
    lemma_three_parts(text, d17, ",\"note\":"@, json_text(r.note), ",\"sha256\":\""@);
    lemma_three_parts(text, d19, ",\"sha256\":\""@, sha, "\",\"intake\":\""@);
    lemma_three_parts(text, d21, "\",\"intake\":\""@, r.intake.spec_name(), "\",\"snaplen\":"@);
    lemma_three_parts(text, d23, "\",\"snaplen\":"@, decimal(r.snaplen as nat), ",\"truncated\":"@);
    lemma_three_parts(text, d25, ",\"truncated\":"@, decimal(r.truncated_pkts), ",\"src_macs\":"@);
    lemma_three_parts(text, d27, ",\"src_macs\":"@, decimal(r.src_macs), ",\"ip_addrs\":"@);
    lemma_three_parts(text, d29, ",\"ip_addrs\":"@, decimal(r.ip_addrs), ",\"duration\":"@);
    lemma_three_parts(text, d31, ",\"duration\":"@, tenths_text(fixed(r.duration, 10)), ",\"has_time\":"@);
    lemma_three_parts(text, d32, tenths_text(fixed(r.duration, 10)), ",\"has_time\":"@, bool_text(r.has_time));
}

/// The answer tells what the file is and what became of it, each figure under its
/// name.
#[verifier::rlimit(30)]
pub proof fn law_answer_tells_the_file(name: Seq<char>, sha: Seq<char>, r: ReportModel, markdown: Seq<char>)
    ensures
        ({
            let text = answer_text(name, sha, r, markdown);
            &&& holds(text, "{\"name\":"@ + json_text(name) + ",\"format\":\""@)
            &&& holds(text, ",\"format\":\""@ + r.format.spec_name() + "\",\"linktype\":"@)
            &&& holds(text, "\",\"linktype\":"@ + json_text(r.linktype) + ",\"packets\":"@)
            &&& holds(text, ",\"packets\":"@ + decimal(r.packets) + ",\"consumed\":"@)
            &&& holds(text, ",\"consumed\":"@ + decimal(r.consumed) + ",\"total\":"@)
            &&& holds(text, ",\"total\":"@ + decimal(r.total) + ",\"score\":"@)
            &&& holds(text, ",\"score\":"@ + tenths_text(fixed(r.score, 10)) + ",\"conformance\":"@)
            &&& holds(text, ",\"conformance\":"@ + tenths_text(fixed(r.conformance, 10)) + ",\"clean\":"@)
            &&& holds(text, ",\"clean\":"@ + bool_text(r.clean) + ",\"note\":"@)
            &&& holds(text, ",\"note\":"@ + json_text(r.note) + ",\"sha256\":\""@)
            &&& holds(text, ",\"sha256\":\""@ + sha + "\",\"intake\":\""@)
            &&& holds(text, "\",\"intake\":\""@ + r.intake.spec_name() + "\",\"snaplen\":"@)
            &&& holds(text, "\",\"snaplen\":"@ + decimal(r.snaplen as nat) + ",\"truncated\":"@)
            &&& holds(text, ",\"truncated\":"@ + decimal(r.truncated_pkts) + ",\"src_macs\":"@)
            &&& holds(text, ",\"src_macs\":"@ + decimal(r.src_macs) + ",\"ip_addrs\":"@)
            &&& holds(text, ",\"ip_addrs\":"@ + decimal(r.ip_addrs) + ",\"duration\":"@)
            &&& holds(text, ",\"duration\":"@ + tenths_text(fixed(r.duration, 10)) + ",\"has_time\":"@)
            &&& holds(text, tenths_text(fixed(r.duration, 10)) + ",\"has_time\":"@ + bool_text(r.has_time))
        }),
{
    lemma_head_pieces(name, sha, r);
    lemma_parts_of_the_answer(name, sha, r, markdown);
}

#[verifier::rlimit(30)]
proof fn lemma_meta_pieces(r: ReportModel)
    ensures
        ({
            let text = meta_members(r);
            &&& holds(text, ",\"meta\":{\"ver\":"@ + json_text(r.ver) + ",\"endian\":\""@)
            &&& holds(text, ",\"endian\":\""@ + r.endian + "\",\"ts_prec\":\""@)
            &&& holds(text, "\",\"ts_prec\":\""@ + r.ts_prec + "\",\"ifaces\":"@)
            &&& holds(text, "\",\"ifaces\":"@ + decimal(r.iface_count) + ",\"snaplen\":"@)
            &&& holds(text, ",\"snaplen\":"@ + decimal(r.snaplen as nat) + ",\"linktype\":"@)
            &&& holds(text, ",\"linktype\":"@ + json_text(r.linktype) + ",\"start\":\""@)
            &&& holds(text, ",\"start\":\""@ + moment(r.stats.ts_first) + "\",\"end\":\""@)
            &&& holds(text, "\",\"end\":\""@ + moment(r.stats.ts_last) + "\",\"duration_h\":"@)
            &&& holds(text, "\",\"duration_h\":"@ + tenths_text(fixed(r.duration, 10)) + ",\"wire_bytes\":"@)
            &&& holds(text, ",\"wire_bytes\":"@ + decimal(r.wire_bytes as nat) + ",\"avg_pkt\":"@)
            &&& holds(text, ",\"avg_pkt\":"@ + decimal(mean_length(r)) + ",\"rate_bps\":"@)
            &&& holds(text, ",\"rate_bps\":"@ + decimal(fixed(mean_bit_rate(r), 1)) + "}"@)
        }),
{
    let text = meta_members(r);
    let none = Seq::<char>::empty();
    let d0 = none + ",\"meta\":{\"ver\":"@;
    let d1 = d0 + json_text(r.ver);
    let d2 = d1 + ",\"endian\":\""@;
    let d3 = d2 + r.endian;
    let d4 = d3 + "\",\"ts_prec\":\""@;
    let d5 = d4 + r.ts_prec;
    let d6 = d5 + "\",\"ifaces\":"@;
    let d7 = d6 + decimal(r.iface_count);
    let d8 = d7 + ",\"snaplen\":"@;
    let d9 = d8 + decimal(r.snaplen as nat);
    let d10 = d9 + ",\"linktype\":"@;
    let d11 = d10 + json_text(r.linktype);
    let d12 = d11 + ",\"start\":\""@;
    let d13 = d12 + moment(r.stats.ts_first);
    let d14 = d13 + "\",\"end\":\""@;
    let d15 = d14 + moment(r.stats.ts_last);
    let d16 = d15 + "\",\"duration_h\":"@;
    let d17 = d16 + tenths_text(fixed(r.duration, 10));
    let d18 = d17 + ",\"wire_bytes\":"@;
    let d19 = d18 + decimal(r.wire_bytes as nat);
    let d20 = d19 + ",\"avg_pkt\":"@;
    let d21 = d20 + decimal(mean_length(r));
    let d22 = d21 + ",\"rate_bps\":"@;
    let d23 = d22 + decimal(fixed(mean_bit_rate(r), 1));
    let d24 = d23 + "}"@;
    assert(d0 =~= ",\"meta\":{\"ver\":"@);
    lemma_opens_itself(text);
    lemma_opens_with_less(text, d23, "}"@);
    lemma_opens_with_less(text, d22, decimal(fixed(mean_bit_rate(r), 1)));
    lemma_opens_with_less(text, d21, ",\"rate_bps\":"@);
    lemma_opens_with_less(text, d20, decimal(mean_length(r)));
    lemma_opens_with_less(text, d19, ",\"avg_pkt\":"@);
    lemma_opens_with_less(text, d18, decimal(r.wire_bytes as nat));
    lemma_opens_with_less(text, d17, ",\"wire_bytes\":"@);
    lemma_opens_with_less(text, d16, tenths_text(fixed(r.duration, 10)));
    lemma_opens_with_less(text, d15, "\",\"duration_h\":"@);
    lemma_opens_with_less(text, d14, moment(r.stats.ts_last));
    lemma_opens_with_less(text, d13, "\",\"end\":\""@);
    lemma_opens_with_less(text, d12, moment(r.stats.ts_first));
    lemma_opens_with_less(text, d11, ",\"start\":\""@);
    lemma_opens_with_less(text, d10, json_text(r.linktype));
    lemma_opens_with_less(text, d9, ",\"linktype\":"@);
    lemma_opens_with_less(text, d8, decimal(r.snaplen as nat));
    lemma_opens_with_less(text, d7, ",\"snaplen\":"@);
    lemma_opens_with_less(text, d6, decimal(r.iface_count));
    lemma_opens_with_less(text, d5, "\",\"ifaces\":"@);
    lemma_opens_with_less(text, d4, r.ts_prec);
    lemma_opens_with_less(text, d3, "\",\"ts_prec\":\""@);
    lemma_opens_with_less(text, d2, r.endian);
    lemma_opens_with_less(text, d1, ",\"endian\":\""@);
    lemma_opens_with_less(text, d0, json_text(r.ver));
    lemma_three_parts(text, none, ",\"meta\":{\"ver\":"@, json_text(r.ver), ",\"endian\":\""@);
    lemma_three_parts(text, d1, ",\"endian\":\""@, r.endian, "\",\"ts_prec\":\""@);
    lemma_three_parts(text, d3, "\",\"ts_prec\":\""@, r.ts_prec, "\",\"ifaces\":"@);
    lemma_three_parts(text, d5, "\",\"ifaces\":"@, decimal(r.iface_count), ",\"snaplen\":"@);
    lemma_three_parts(text, d7, ",\"snaplen\":"@, decimal(r.snaplen as nat), ",\"linktype\":"@);
    lemma_three_parts(text, d9, ",\"linktype\":"@, json_text(r.linktype), ",\"start\":\""@);
    lemma_three_parts(text, d11, ",\"start\":\""@, moment(r.stats.ts_first), "\",\"end\":\""@);
    lemma_three_parts(text, d13, "\",\"end\":\""@, moment(r.stats.ts_last), "\",\"duration_h\":"@);
    lemma_three_parts(text, d15, "\",\"duration_h\":"@, tenths_text(fixed(r.duration, 10)), ",\"wire_bytes\":"@);
    lemma_three_parts(text, d17, ",\"wire_bytes\":"@, decimal(r.wire_bytes as nat), ",\"avg_pkt\":"@);
    lemma_three_parts(text, d19, ",\"avg_pkt\":"@, decimal(mean_length(r)), ",\"rate_bps\":"@);
    lemma_three_parts(text, d21, ",\"rate_bps\":"@, decimal(fixed(mean_bit_rate(r), 1)), "}"@);
}

/// The answer tells the metadata of the capture, each figure under its name.
#[verifier::rlimit(30)]
pub proof fn law_answer_tells_the_metadata(name: Seq<char>, sha: Seq<char>, r: ReportModel, markdown: Seq<char>)
    ensures
        ({
            let text = answer_text(name, sha, r, markdown);
            &&& holds(text, ",\"meta\":{\"ver\":"@ + json_text(r.ver) + ",\"endian\":\""@)
            &&& holds(text, ",\"endian\":\""@ + r.endian + "\",\"ts_prec\":\""@)
            &&& holds(text, "\",\"ts_prec\":\""@ + r.ts_prec + "\",\"ifaces\":"@)
            &&& holds(text, "\",\"ifaces\":"@ + decimal(r.iface_count) + ",\"snaplen\":"@)
            &&& holds(text, ",\"snaplen\":"@ + decimal(r.snaplen as nat) + ",\"linktype\":"@)
            &&& holds(text, ",\"linktype\":"@ + json_text(r.linktype) + ",\"start\":\""@)
            &&& holds(text, ",\"start\":\""@ + moment(r.stats.ts_first) + "\",\"end\":\""@)
            &&& holds(text, "\",\"end\":\""@ + moment(r.stats.ts_last) + "\",\"duration_h\":"@)
            &&& holds(text, "\",\"duration_h\":"@ + tenths_text(fixed(r.duration, 10)) + ",\"wire_bytes\":"@)
            &&& holds(text, ",\"wire_bytes\":"@ + decimal(r.wire_bytes as nat) + ",\"avg_pkt\":"@)
            &&& holds(text, ",\"avg_pkt\":"@ + decimal(mean_length(r)) + ",\"rate_bps\":"@)
            &&& holds(text, ",\"rate_bps\":"@ + decimal(fixed(mean_bit_rate(r), 1)) + "}"@)
        }),
{
    lemma_meta_pieces(r);
    lemma_parts_of_the_answer(name, sha, r, markdown);
}

#[verifier::rlimit(30)]
proof fn lemma_dist_pieces(r: ReportModel)
    ensures
        ({
            let text = dist_members(r);
            &&& holds(text, ",\"dist\":{\"unicast\":"@ + decimal(r.stats.unicast) + ",\"multicast\":"@)
            &&& holds(text, ",\"multicast\":"@ + decimal(r.stats.multicast) + ",\"broadcast\":"@)
            &&& holds(text, ",\"broadcast\":"@ + decimal(r.stats.broadcast) + ",\"ipv4\":"@)
            &&& holds(text, ",\"ipv4\":"@ + decimal(r.stats.ipv4) + ",\"ipv6\":"@)
            &&& holds(text, ",\"ipv6\":"@ + decimal(r.stats.ipv6) + ",\"arp\":"@)
            &&& holds(text, ",\"arp\":"@ + decimal(r.stats.arp) + ",\"vlan\":"@)
            &&& holds(text, ",\"vlan\":"@ + decimal(r.stats.vlan) + ",\"gre\":"@)
            &&& holds(text, ",\"gre\":"@ + decimal(r.stats.gre) + ",\"erspan\":"@)
            &&& holds(text, ",\"erspan\":"@ + decimal(r.stats.erspan) + ",\"vxlan\":"@)
            &&& holds(text, ",\"vxlan\":"@ + decimal(r.stats.vxlan) + ",\"geneve\":"@)
            &&& holds(text, ",\"geneve\":"@ + decimal(r.stats.geneve) + ",\"decoded\":"@)
            &&& holds(text, ",\"decoded\":"@ + decimal(r.stats.decoded) + ",\"dup_frames\":"@)
            &&& holds(text, ",\"dup_frames\":"@ + decimal(r.stats.dup_frames) + ",\"dup_pct\":"@)
            &&& holds(text, ",\"dup_pct\":"@ + tenths_text(fixed(share(r.stats.dup_frames, r.packets), 10)) + ",\"qinq\":"@)
            &&& holds(text, ",\"qinq\":"@ + decimal(r.stats.qinq) + ",\"vlan_ids\":"@)
            &&& holds(text, ",\"vlan_ids\":"@ + decimal(r.stats.vlan_ids.len()) + ",\"max_depth\":"@)
            &&& holds(text, ",\"max_depth\":"@ + decimal(r.stats.max_depth) + ",\"multi_encap\":"@)
            &&& holds(text, ",\"multi_encap\":"@ + decimal(r.stats.multi_encap) + "}"@)
        }),
{
    let text = dist_members(r);
    let none = Seq::<char>::empty();
    let d0 = none + ",\"dist\":{\"unicast\":"@;
    let d1 = d0 + decimal(r.stats.unicast);
    let d2 = d1 + ",\"multicast\":"@;
    let d3 = d2 + decimal(r.stats.multicast);
    let d4 = d3 + ",\"broadcast\":"@;
    let d5 = d4 + decimal(r.stats.broadcast);
    let d6 = d5 + ",\"ipv4\":"@;
    let d7 = d6 + decimal(r.stats.ipv4);
    let d8 = d7 + ",\"ipv6\":"@;
    let d9 = d8 + decimal(r.stats.ipv6);
    let d10 = d9 + ",\"arp\":"@;
    let d11 = d10 + decimal(r.stats.arp);
    let d12 = d11 + ",\"vlan\":"@;
    let d13 = d12 + decimal(r.stats.vlan);
    let d14 = d13 + ",\"gre\":"@;
    let d15 = d14 + decimal(r.stats.gre);
    let d16 = d15 + ",\"erspan\":"@;
    let d17 = d16 + decimal(r.stats.erspan);
    let d18 = d17 + ",\"vxlan\":"@;
    let d19 = d18 + decimal(r.stats.vxlan);
    let d20 = d19 + ",\"geneve\":"@;
    let d21 = d20 + decimal(r.stats.geneve);
    let d22 = d21 + ",\"decoded\":"@;
    let d23 = d22 + decimal(r.stats.decoded);
    let d24 = d23 + ",\"dup_frames\":"@;
    let d25 = d24 + decimal(r.stats.dup_frames);
    let d26 = d25 + ",\"dup_pct\":"@;
    let d27 = d26 + tenths_text(fixed(share(r.stats.dup_frames, r.packets), 10));
    let d28 = d27 + ",\"qinq\":"@;
    let d29 = d28 + decimal(r.stats.qinq);
    let d30 = d29 + ",\"vlan_ids\":"@;
    let d31 = d30 + decimal(r.stats.vlan_ids.len());
    let d32 = d31 + ",\"max_depth\":"@;
    let d33 = d32 + decimal(r.stats.max_depth);
    let d34 = d33 + ",\"multi_encap\":"@;
    let d35 = d34 + decimal(r.stats.multi_encap);
    let d36 = d35 + "}"@;
    assert(d0 =~= ",\"dist\":{\"unicast\":"@);
    lemma_opens_itself(text);
    lemma_opens_with_less(text, d35, "}"@);
    lemma_opens_with_less(text, d34, decimal(r.stats.multi_encap));
    lemma_opens_with_less(text, d33, ",\"multi_encap\":"@);
    lemma_opens_with_less(text, d32, decimal(r.stats.max_depth));
    lemma_opens_with_less(text, d31, ",\"max_depth\":"@);
    lemma_opens_with_less(text, d30, decimal(r.stats.vlan_ids.len()));
    lemma_opens_with_less(text, d29, ",\"vlan_ids\":"@);
    lemma_opens_with_less(text, d28, decimal(r.stats.qinq));
    lemma_opens_with_less(text, d27, ",\"qinq\":"@);
    lemma_opens_with_less(text, d26, tenths_text(fixed(share(r.stats.dup_frames, r.packets), 10)));
    lemma_opens_with_less(text, d25, ",\"dup_pct\":"@);
    lemma_opens_with_less(text, d24, decimal(r.stats.dup_frames));
    lemma_opens_with_less(text, d23, ",\"dup_frames\":"@);
    lemma_opens_with_less(text, d22, decimal(r.stats.decoded));
    lemma_opens_with_less(text, d21, ",\"decoded\":"@);
    lemma_opens_with_less(text, d20, decimal(r.stats.geneve));
    lemma_opens_with_less(text, d19, ",\"geneve\":"@);
    lemma_opens_with_less(text, d18, decimal(r.stats.vxlan));
    lemma_opens_with_less(text, d17, ",\"vxlan\":"@);
    lemma_opens_with_less(text, d16, decimal(r.stats.erspan));
    lemma_opens_with_less(text, d15, ",\"erspan\":"@);
    lemma_opens_with_less(text, d14, decimal(r.stats.gre));
    lemma_opens_with_less(text, d13, ",\"gre\":"@);
    lemma_opens_with_less(text, d12, decimal(r.stats.vlan));
    lemma_opens_with_less(text, d11, ",\"vlan\":"@);
    lemma_opens_with_less(text, d10, decimal(r.stats.arp));
    lemma_opens_with_less(text, d9, ",\"arp\":"@);
    lemma_opens_with_less(text, d8, decimal(r.stats.ipv6));
    lemma_opens_with_less(text, d7, ",\"ipv6\":"@);
    lemma_opens_with_less(text, d6, decimal(r.stats.ipv4));
    lemma_opens_with_less(text, d5, ",\"ipv4\":"@);
    lemma_opens_with_less(text, d4, decimal(r.stats.broadcast));
    lemma_opens_with_less(text, d3, ",\"broadcast\":"@);
    lemma_opens_with_less(text, d2, decimal(r.stats.multicast));
    lemma_opens_with_less(text, d1, ",\"multicast\":"@);
    lemma_opens_with_less(text, d0, decimal(r.stats.unicast));
    lemma_three_parts(text, none, ",\"dist\":{\"unicast\":"@, decimal(r.stats.unicast), ",\"multicast\":"@);
    lemma_three_parts(text, d1, ",\"multicast\":"@, decimal(r.stats.multicast), ",\"broadcast\":"@);
    lemma_three_parts(text, d3, ",\"broadcast\":"@, decimal(r.stats.broadcast), ",\"ipv4\":"@);
    lemma_three_parts(text, d5, ",\"ipv4\":"@, decimal(r.stats.ipv4), ",\"ipv6\":"@);
    lemma_three_parts(text, d7, ",\"ipv6\":"@, decimal(r.stats.ipv6), ",\"arp\":"@);
    lemma_three_parts(text, d9, ",\"arp\":"@, decimal(r.stats.arp), ",\"vlan\":"@);
    lemma_three_parts(text, d11, ",\"vlan\":"@, decimal(r.stats.vlan), ",\"gre\":"@);
    lemma_three_parts(text, d13, ",\"gre\":"@, decimal(r.stats.gre), ",\"erspan\":"@);
    lemma_three_parts(text, d15, ",\"erspan\":"@, decimal(r.stats.erspan), ",\"vxlan\":"@);
    lemma_three_parts(text, d17, ",\"vxlan\":"@, decimal(r.stats.vxlan), ",\"geneve\":"@);
    lemma_three_parts(text, d19, ",\"geneve\":"@, decimal(r.stats.geneve), ",\"decoded\":"@);
    lemma_three_parts(text, d21, ",\"decoded\":"@, decimal(r.stats.decoded), ",\"dup_frames\":"@);
    lemma_three_parts(text, d23, ",\"dup_frames\":"@, decimal(r.stats.dup_frames), ",\"dup_pct\":"@);
    lemma_three_parts(text, d25, ",\"dup_pct\":"@, tenths_text(fixed(share(r.stats.dup_frames, r.packets), 10)), ",\"qinq\":"@);
    lemma_three_parts(text, d27, ",\"qinq\":"@, decimal(r.stats.qinq), ",\"vlan_ids\":"@);
    lemma_three_parts(text, d29, ",\"vlan_ids\":"@, decimal(r.stats.vlan_ids.len()), ",\"max_depth\":"@);
    lemma_three_parts(text, d31, ",\"max_depth\":"@, decimal(r.stats.max_depth), ",\"multi_encap\":"@);
    lemma_three_parts(text, d33, ",\"multi_encap\":"@, decimal(r.stats.multi_encap), "}"@);
}

/// The answer tells the distribution of the packets, each figure under its name.
#[verifier::rlimit(30)]
pub proof fn law_answer_tells_the_distribution(name: Seq<char>, sha: Seq<char>, r: ReportModel, markdown: Seq<char>)
    ensures
        ({
            let text = answer_text(name, sha, r, markdown);
            &&& holds(text, ",\"dist\":{\"unicast\":"@ + decimal(r.stats.unicast) + ",\"multicast\":"@)
            &&& holds(text, ",\"multicast\":"@ + decimal(r.stats.multicast) + ",\"broadcast\":"@)
            &&& holds(text, ",\"broadcast\":"@ + decimal(r.stats.broadcast) + ",\"ipv4\":"@)
            &&& holds(text, ",\"ipv4\":"@ + decimal(r.stats.ipv4) + ",\"ipv6\":"@)
            &&& holds(text, ",\"ipv6\":"@ + decimal(r.stats.ipv6) + ",\"arp\":"@)
            &&& holds(text, ",\"arp\":"@ + decimal(r.stats.arp) + ",\"vlan\":"@)
            &&& holds(text, ",\"vlan\":"@ + decimal(r.stats.vlan) + ",\"gre\":"@)
            &&& holds(text, ",\"gre\":"@ + decimal(r.stats.gre) + ",\"erspan\":"@)
            &&& holds(text, ",\"erspan\":"@ + decimal(r.stats.erspan) + ",\"vxlan\":"@)
            &&& holds(text, ",\"vxlan\":"@ + decimal(r.stats.vxlan) + ",\"geneve\":"@)
            &&& holds(text, ",\"geneve\":"@ + decimal(r.stats.geneve) + ",\"decoded\":"@)
            &&& holds(text, ",\"decoded\":"@ + decimal(r.stats.decoded) + ",\"dup_frames\":"@)
            &&& holds(text, ",\"dup_frames\":"@ + decimal(r.stats.dup_frames) + ",\"dup_pct\":"@)
            &&& holds(text, ",\"dup_pct\":"@ + tenths_text(fixed(share(r.stats.dup_frames, r.packets), 10)) + ",\"qinq\":"@)
            &&& holds(text, ",\"qinq\":"@ + decimal(r.stats.qinq) + ",\"vlan_ids\":"@)
            &&& holds(text, ",\"vlan_ids\":"@ + decimal(r.stats.vlan_ids.len()) + ",\"max_depth\":"@)
            &&& holds(text, ",\"max_depth\":"@ + decimal(r.stats.max_depth) + ",\"multi_encap\":"@)
            &&& holds(text, ",\"multi_encap\":"@ + decimal(r.stats.multi_encap) + "}"@)
        }),
{
    lemma_dist_pieces(r);
    lemma_parts_of_the_answer(name, sha, r, markdown);
}

#[verifier::rlimit(30)]
proof fn lemma_session_pieces(r: ReportModel)
    ensures
        ({
            let text = session_members(r);
            &&& holds(text, ",\"session\":{\"tcp_flows\":"@ + decimal(r.stats.tcp_flows) + ",\"handshake_complete\":"@)
            &&& holds(text, ",\"handshake_complete\":"@ + decimal(r.stats.hs_complete) + ",\"syn_only\":"@)
            &&& holds(text, ",\"syn_only\":"@ + decimal(r.stats.hs_syn_only) + ",\"mid_stream\":"@)
            &&& holds(text, ",\"mid_stream\":"@ + decimal(r.stats.hs_midstream) + ",\"seq_gaps\":"@)
            &&& holds(text, ",\"seq_gaps\":"@ + decimal(r.stats.seq_gaps) + ",\"acked_unseen\":"@)
            &&& holds(text, ",\"acked_unseen\":"@ + decimal(r.stats.acked_unseen) + ",\"inner_trunc\":"@)
            &&& holds(text, ",\"inner_trunc\":"@ + decimal(r.stats.inner_trunc) + ",\"vxlan_legacy\":"@)
            &&& holds(text, ",\"vxlan_legacy\":"@ + decimal(r.stats.vxlan_legacy) + ",\"runts\":"@)
            &&& holds(text, ",\"runts\":"@ + decimal(r.stats.runts) + ",\"oversize\":"@)
            &&& holds(text, ",\"oversize\":"@ + decimal(r.stats.oversize) + "}"@)
        }),
{
    let text = session_members(r);
    let none = Seq::<char>::empty();
    let d0 = none + ",\"session\":{\"tcp_flows\":"@;
    let d1 = d0 + decimal(r.stats.tcp_flows);
    let d2 = d1 + ",\"handshake_complete\":"@;
    let d3 = d2 + decimal(r.stats.hs_complete);
    let d4 = d3 + ",\"syn_only\":"@;
    let d5 = d4 + decimal(r.stats.hs_syn_only);
    let d6 = d5 + ",\"mid_stream\":"@;
    let d7 = d6 + decimal(r.stats.hs_midstream);
    let d8 = d7 + ",\"seq_gaps\":"@;
    let d9 = d8 + decimal(r.stats.seq_gaps);
    let d10 = d9 + ",\"acked_unseen\":"@;
    let d11 = d10 + decimal(r.stats.acked_unseen);
    let d12 = d11 + ",\"inner_trunc\":"@;
    let d13 = d12 + decimal(r.stats.inner_trunc);
    let d14 = d13 + ",\"vxlan_legacy\":"@;
    let d15 = d14 + decimal(r.stats.vxlan_legacy);
    let d16 = d15 + ",\"runts\":"@;
    let d17 = d16 + decimal(r.stats.runts);
    let d18 = d17 + ",\"oversize\":"@;
    let d19 = d18 + decimal(r.stats.oversize);
    let d20 = d19 + "}"@;
    assert(d0 =~= ",\"session\":{\"tcp_flows\":"@);
    lemma_opens_itself(text);
    lemma_opens_with_less(text, d19, "}"@);
    lemma_opens_with_less(text, d18, decimal(r.stats.oversize));
    lemma_opens_with_less(text, d17, ",\"oversize\":"@);
    lemma_opens_with_less(text, d16, decimal(r.stats.runts));
    lemma_opens_with_less(text, d15, ",\"runts\":"@);
    lemma_opens_with_less(text, d14, decimal(r.stats.vxlan_legacy));
    lemma_opens_with_less(text, d13, ",\"vxlan_legacy\":"@);
    lemma_opens_with_less(text, d12, decimal(r.stats.inner_trunc));
    lemma_opens_with_less(text, d11, ",\"inner_trunc\":"@);
    lemma_opens_with_less(text, d10, decimal(r.stats.acked_unseen));
    lemma_opens_with_less(text, d9, ",\"acked_unseen\":"@);
    lemma_opens_with_less(text, d8, decimal(r.stats.seq_gaps));
    lemma_opens_with_less(text, d7, ",\"seq_gaps\":"@);
    lemma_opens_with_less(text, d6, decimal(r.stats.hs_midstream));
    lemma_opens_with_less(text, d5, ",\"mid_stream\":"@);
    lemma_opens_with_less(text, d4, decimal(r.stats.hs_syn_only));
    lemma_opens_with_less(text, d3, ",\"syn_only\":"@);
    lemma_opens_with_less(text, d2, decimal(r.stats.hs_complete));
    lemma_opens_with_less(text, d1, ",\"handshake_complete\":"@);
    lemma_opens_with_less(text, d0, decimal(r.stats.tcp_flows));
    lemma_three_parts(text, none, ",\"session\":{\"tcp_flows\":"@, decimal(r.stats.tcp_flows), ",\"handshake_complete\":"@);
    lemma_three_parts(text, d1, ",\"handshake_complete\":"@, decimal(r.stats.hs_complete), ",\"syn_only\":"@);
    lemma_three_parts(text, d3, ",\"syn_only\":"@, decimal(r.stats.hs_syn_only), ",\"mid_stream\":"@);
    lemma_three_parts(text, d5, ",\"mid_stream\":"@, decimal(r.stats.hs_midstream), ",\"seq_gaps\":"@);
    lemma_three_parts(text, d7, ",\"seq_gaps\":"@, decimal(r.stats.seq_gaps), ",\"acked_unseen\":"@);
    lemma_three_parts(text, d9, ",\"acked_unseen\":"@, decimal(r.stats.acked_unseen), ",\"inner_trunc\":"@);
    lemma_three_parts(text, d11, ",\"inner_trunc\":"@, decimal(r.stats.inner_trunc), ",\"vxlan_legacy\":"@);
    lemma_three_parts(text, d13, ",\"vxlan_legacy\":"@, decimal(r.stats.vxlan_legacy), ",\"runts\":"@);
    lemma_three_parts(text, d15, ",\"runts\":"@, decimal(r.stats.runts), ",\"oversize\":"@);
    lemma_three_parts(text, d17, ",\"oversize\":"@, decimal(r.stats.oversize), "}"@);
}

/// The answer tells the sessions, each figure under its name.
#[verifier::rlimit(30)]
pub proof fn law_answer_tells_the_sessions(name: Seq<char>, sha: Seq<char>, r: ReportModel, markdown: Seq<char>)
    ensures
        ({
            let text = answer_text(name, sha, r, markdown);
            &&& holds(text, ",\"session\":{\"tcp_flows\":"@ + decimal(r.stats.tcp_flows) + ",\"handshake_complete\":"@)
            &&& holds(text, ",\"handshake_complete\":"@ + decimal(r.stats.hs_complete) + ",\"syn_only\":"@)
            &&& holds(text, ",\"syn_only\":"@ + decimal(r.stats.hs_syn_only) + ",\"mid_stream\":"@)
            &&& holds(text, ",\"mid_stream\":"@ + decimal(r.stats.hs_midstream) + ",\"seq_gaps\":"@)
            &&& holds(text, ",\"seq_gaps\":"@ + decimal(r.stats.seq_gaps) + ",\"acked_unseen\":"@)
            &&& holds(text, ",\"acked_unseen\":"@ + decimal(r.stats.acked_unseen) + ",\"inner_trunc\":"@)
            &&& holds(text, ",\"inner_trunc\":"@ + decimal(r.stats.inner_trunc) + ",\"vxlan_legacy\":"@)
            &&& holds(text, ",\"vxlan_legacy\":"@ + decimal(r.stats.vxlan_legacy) + ",\"runts\":"@)
            &&& holds(text, ",\"runts\":"@ + decimal(r.stats.runts) + ",\"oversize\":"@)
            &&& holds(text, ",\"oversize\":"@ + decimal(r.stats.oversize) + "}"@)
        }),
{
    lemma_session_pieces(r);
    lemma_parts_of_the_answer(name, sha, r, markdown);
}

/// What a part of the answer holds, the answer holds.
#[verifier::rlimit(30)]
proof fn lemma_parts_of_the_answer(name: Seq<char>, sha: Seq<char>, r: ReportModel, markdown: Seq<char>)
    ensures
        ({
            let text = answer_text(name, sha, r, markdown);
            &&& forall|p: Seq<char>| #[trigger] holds(head_members(name, sha, r), p) ==> holds(text, p)
            &&& forall|p: Seq<char>| #[trigger] holds(meta_members(r), p) ==> holds(text, p)
            &&& forall|p: Seq<char>| #[trigger] holds(dist_members(r), p) ==> holds(text, p)
            &&& forall|p: Seq<char>| #[trigger] holds(session_members(r), p) ==> holds(text, p)
            &&& forall|p: Seq<char>| #[trigger] holds(listed_chains(r), p) ==> holds(text, p)
            &&& forall|p: Seq<char>| #[trigger] holds(check_objects(r.checks), p) ==> holds(text, p)
            &&& forall|p: Seq<char>| #[trigger] holds(notice_objects(r.notices), p) ==> holds(text, p)
            &&& holds(text, ",\"trust\":"@ + json_text(TRUST_NOTE@) + ",\"chains\":["@)
            &&& holds(text, "],\"report_md\":"@ + json_text(markdown) + "}"@)
        }),
{
    let text = answer_text(name, sha, r, markdown);
    let a0 = head_members(name, sha, r);
    let a1 = a0 + meta_members(r);
    let a2 = a1 + dist_members(r);
    let a3 = a2 + session_members(r);
    let a4 = a3 + ",\"trust\":"@;
    let a5 = a4 + json_text(TRUST_NOTE@);
    let a6 = a5 + ",\"chains\":["@;
    let a7 = a6 + listed_chains(r);
    let a8 = a7 + "],\"checks\":["@;
    let a9 = a8 + check_objects(r.checks);
    let a10 = a9 + "],\"notices\":["@;
    let a11 = a10 + notice_objects(r.notices);
    let a12 = a11 + "],\"report_md\":"@;
    let a13 = a12 + json_text(markdown);
    let a14 = a13 + "}"@;
    assert(a14 == text);
    lemma_holds_in_front(a0, meta_members(r));
    lemma_holds_in_front(a1, dist_members(r));
    lemma_holds_in_front(a2, session_members(r));
    lemma_holds_in_front(a3, ",\"trust\":"@);
    lemma_holds_in_front(a4, json_text(TRUST_NOTE@));
    lemma_holds_in_front(a5, ",\"chains\":["@);
    lemma_holds_in_front(a6, listed_chains(r));
    lemma_holds_in_front(a7, "],\"checks\":["@);
    lemma_holds_in_front(a8, check_objects(r.checks));
    lemma_holds_in_front(a9, "],\"notices\":["@);
    lemma_holds_in_front(a10, notice_objects(r.notices));
    lemma_holds_in_front(a11, "],\"report_md\":"@);
    lemma_holds_in_front(a12, json_text(markdown));
    lemma_holds_in_front(a13, "}"@);
    lemma_opens_itself(a6);
    lemma_three_parts(a6, a3, ",\"trust\":"@, json_text(TRUST_NOTE@), ",\"chains\":["@);
    lemma_opens_itself(a14);
    lemma_three_parts(a14, a11, "],\"report_md\":"@, json_text(markdown), "}"@);
}

/// The chains that the answer lists.
spec fn listed_chains(r: ReportModel) -> Seq<char> {
    chain_objects(leading(ranking(r.stats.chains), LISTED_CHAINS as nat), chain_total(r.stats.chains))
}

/// The answer holds the Markdown form of the report.
pub proof fn law_answer_holds_the_report(name: Seq<char>, sha: Seq<char>, r: ReportModel, markdown: Seq<char>)
    ensures
        holds(answer_text(name, sha, r, markdown), "],\"report_md\":"@ + json_text(markdown) + "}"@),
{
    lemma_parts_of_the_answer(name, sha, r, markdown);
}

proof fn lemma_check_objects(checks: Seq<CheckModel>, i: int)
    requires
        0 <= i < checks.len(),
    ensures
        holds(check_objects(checks), check_object(checks[i])),
    decreases checks.len(),
{
    let head = check_objects(checks.drop_last());
    let all = head + comma(checks.len());
    lemma_holds_in_front(head, comma(checks.len()));
    lemma_holds_in_front(all, check_object(checks.last()));
    if i < checks.len() - 1 {
        lemma_check_objects(checks.drop_last(), i);
    }
}

proof fn lemma_notice_objects(notices: Seq<NoticeModel>, i: int)
    requires
        0 <= i < notices.len(),
    ensures
        holds(notice_objects(notices), notice_object(notices[i])),
    decreases notices.len(),
{
    let head = notice_objects(notices.drop_last());
    let all = head + comma(notices.len());
    lemma_holds_in_front(head, comma(notices.len()));
    lemma_holds_in_front(all, notice_object(notices.last()));
    if i < notices.len() - 1 {
        lemma_notice_objects(notices.drop_last(), i);
    }
}

proof fn lemma_chain_objects(chains: Seq<(Seq<char>, nat)>, total: nat, i: int)
    requires
        0 <= i < chains.len(),
    ensures
        holds(chain_objects(chains, total), chain_object(chains[i], total)),
    decreases chains.len(),
{
    let head = chain_objects(chains.drop_last(), total);
    let all = head + comma(chains.len());
    lemma_holds_in_front(head, comma(chains.len()));
    lemma_holds_in_front(all, chain_object(chains.last(), total));
    if i < chains.len() - 1 {
        lemma_chain_objects(chains.drop_last(), total, i);
    }
}

/// The answer lists every criterion with its level, its remark and its source.
pub proof fn law_answer_lists_the_criteria(
    name: Seq<char>,
    sha: Seq<char>,
    r: ReportModel,
    markdown: Seq<char>,
    i: int,
)
    requires
        0 <= i < r.checks.len(),
    ensures
        holds(
            answer_text(name, sha, r, markdown),
            "{\"level\":\""@ + (match r.checks[i].level {
                Level::Pass => "pass"@,
                Level::Warn => "warn"@,
                Level::Fail => "fail"@,
                Level::Info => "info"@,
            }) + "\",\"label\":"@ + json_text(r.checks[i].label) + ",\"detail\":"@ + json_text(r.checks[i].detail)
                + ",\"source\":"@ + json_text(source_text(r.checks[i].label)) + "}"@,
        ),
{
    lemma_parts_of_the_answer(name, sha, r, markdown);
    lemma_check_objects(r.checks, i);
}

/// The answer lists every notice with its code, its title and its text.
pub proof fn law_answer_lists_the_notices(
    name: Seq<char>,
    sha: Seq<char>,
    r: ReportModel,
    markdown: Seq<char>,
    i: int,
)
    requires
        0 <= i < r.notices.len(),
    ensures
        holds(
            answer_text(name, sha, r, markdown),
            "{\"code\":\""@ + r.notices[i].code + "\",\"title\":"@ + json_text(r.notices[i].title) + ",\"text\":"@
                + json_text(r.notices[i].text) + "}"@,
        ),
{
    lemma_parts_of_the_answer(name, sha, r, markdown);
    lemma_notice_objects(r.notices, i);
}

/// The answer lists the twenty most frequent chains, each with its count and its share
/// of all frames.
#[verifier::rlimit(30)]
pub proof fn law_answer_lists_the_chains(
    name: Seq<char>,
    sha: Seq<char>,
    r: ReportModel,
    markdown: Seq<char>,
    i: int,
)
    requires
        0 <= i < r.stats.chains.len(),
        i < 20,
        chain_total(r.stats.chains) > 0,
    ensures
        ({
            let (chain, count) = ranking(r.stats.chains)[i];
            holds(
                answer_text(name, sha, r, markdown),
                "{\"chain\":"@ + json_text(chain) + ",\"count\":"@ + decimal(count) + ",\"pct\":"@ + tenths_text(
                    fixed(percent(count, chain_total(r.stats.chains)), 10),
                ) + "}"@,
            )
        }),
{
    let all = ranking(r.stats.chains);
    assert(all.len() == r.stats.chains.len()) by {
        crate::ranking::law_chains_are_ranked(r.stats.chains);
    }
    let list = leading(all, LISTED_CHAINS as nat);
    let total = chain_total(r.stats.chains);
    assert(list[i] == all[i]);
    lemma_chain_objects(list, total, i);
    let piece = chain_object(all[i], total);
    assert(holds(listed_chains(r), piece));
    assert(holds(answer_text(name, sha, r, markdown), piece)) by {
        lemma_parts_of_the_answer(name, sha, r, markdown);
    }
}

/// The objects of a list are joined by commas: none before the first, one before each
/// other.
pub proof fn law_lists_are_joined_by_commas(
    checks: Seq<CheckModel>,
    c: CheckModel,
    notices: Seq<NoticeModel>,
    n: NoticeModel,
    chains: Seq<(Seq<char>, nat)>,
    h: (Seq<char>, nat),
    total: nat,
)
    ensures
        check_objects(seq![c]) == check_object(c),
        checks.len() > 0 ==> check_objects(checks.push(c)) == check_objects(checks) + ","@ + check_object(c),
        notice_objects(seq![n]) == notice_object(n),
        notices.len() > 0 ==> notice_objects(notices.push(n)) == notice_objects(notices) + ","@ + notice_object(n),
        chain_objects(seq![h], total) == chain_object(h, total),
        chains.len() > 0 ==> chain_objects(chains.push(h), total) == chain_objects(chains, total) + ","@ + chain_object(
            h,
            total,
        ),
{
    reveal_strlit("");
    reveal_with_fuel(check_objects, 2);
    reveal_with_fuel(notice_objects, 2);
    reveal_with_fuel(chain_objects, 2);
    assert(seq![c].drop_last() =~= Seq::<CheckModel>::empty());
    assert(check_objects(seq![c]) =~= check_object(c));
    assert(checks.push(c).drop_last() =~= checks);
    assert(seq![n].drop_last() =~= Seq::<NoticeModel>::empty());
    assert(notice_objects(seq![n]) =~= notice_object(n));
    assert(notices.push(n).drop_last() =~= notices);
    assert(seq![h].drop_last() =~= Seq::<(Seq<char>, nat)>::empty());
    assert(chain_objects(seq![h], total) =~= chain_object(h, total));
    assert(chains.push(h).drop_last() =~= chains);
}

/// Only the twenty most frequent chains are listed: what comes behind them shows in
/// nothing but the total.
pub proof fn law_only_twenty_chains_are_listed(
    name: Seq<char>,
    sha: Seq<char>,
    r: ReportModel,
    u: ReportModel,
    markdown: Seq<char>,
)
    requires
        u == (ReportModel { stats: crate::stats::Tally { chains: u.stats.chains, ..r.stats }, ..r }),
        ranking(r.stats.chains).len() > 20,
        ranking(u.stats.chains).len() > 20,
        ranking(r.stats.chains).take(20) == ranking(u.stats.chains).take(20),
        chain_total(r.stats.chains) == chain_total(u.stats.chains),
    ensures
        answer_text(name, sha, r, markdown) == answer_text(name, sha, u, markdown),
{
    assert(listed_chains(r) == listed_chains(u));
    assert(mean_length(r) == mean_length(u));
    assert(mean_bit_rate(r) == mean_bit_rate(u));
    assert(head_members(name, sha, r) == head_members(name, sha, u));
    assert(meta_members(r) == meta_members(u));
    assert(dist_members(r) == dist_members(u));
    assert(session_members(r) == session_members(u));
}

/// The rate is told where the capture has a duration, and is zero otherwise; a share of
/// nothing is zero.
pub proof fn law_mean_bit_rate(r: ReportModel, part: nat, total: nat)
    ensures
        r.has_time && r.duration.mant > 0 ==> mean_bit_rate(r) == bit_rate(r.wire_bytes as nat, r.duration),
        !r.has_time || r.duration.mant == 0 ==> mean_bit_rate(r).mant == 0,
        total > 0 ==> share(part, total) == percent(part, total),
        total == 0 ==> share(part, total).mant == 0,
{
}

} // verus!
