//! The walk over the blocks of a capture.
//!
//! `Analysis` takes one block after the other, wherever they come from, and
//! makes the report at the end. `analyze` drives it over a capture in memory.

use vstd::prelude::*;

use crate::checks::build_checks;
#[allow(unused_imports)]
use crate::checks::with_checks;
use crate::config::Config;
#[allow(unused_imports)]
use crate::config::Settings;
use crate::binary64::Binary64;
#[allow(unused_imports)]
use crate::binary64::{difference, whole};
use crate::figures::score;
#[allow(unused_imports)]
use crate::figures::score_of;
use crate::frame::{detect_format, linktype_name, magic_info, Format};
#[allow(unused_imports)]
use crate::frame::{endian_of, format_of, linktype_text, precision_of, tick_of};
use crate::moments::{enhanced_moment, record_moment, Moment};
#[allow(unused_imports)]
use crate::moments::{enhanced_time, record_time};
use crate::notices::build_notices;
#[allow(unused_imports)]
use crate::notices::{judged, law_full_conformance, law_verdict};
use crate::packet::analyze_packet;
#[allow(unused_imports)]
use crate::packet::{
    law_casts_add_up, law_packet_counts_at_most_once, law_packet_is_classified_once, law_packet_leaves_the_rest,
    law_packet_raises_little, with_packet,
};
use crate::report::{Intake, Report};
#[allow(unused_imports)]
use crate::report::ReportModel;
use crate::session::finalize_flows;
#[allow(unused_imports)]
use crate::session::{law_coverage_is_a_partition, with_sessions};
use crate::stats::{note_framelen, note_ts, Stats};
#[allow(unused_imports)]
use crate::stats::{empty_tally, with_framelen, with_ts};
use crate::text::push_decimal;
#[allow(unused_imports)]
use crate::text::decimal;

verus! {

/// A block of a capture.
pub enum Item<'a> {
    /// The header of a pcap file: snap length, link type, major and minor version.
    FileHeader(u32, i32, u16, u16),
    /// A packet of a pcap file: seconds, fraction, captured and original length, bytes.
    Record(u32, u32, u32, u32, &'a [u8]),
    /// The header of a pcapng section: major and minor version, and whether the
    /// section is big-endian.
    Section(u16, u16, bool),
    /// An interface of a pcapng section: link type and snap length.
    Interface(i32, u32),
    /// An enhanced packet: interface, upper and lower half of the timestamp,
    /// captured and original length, bytes.
    Enhanced(u32, u32, u32, u32, u32, &'a [u8]),
    /// A simple packet: original length, bytes.
    Simple(u32, &'a [u8]),
    /// Any other block.
    Otherwise,
}

/// The model of `Item`.
pub enum ItemModel {
    FileHeader(u32, i32, u16, u16),
    Record(u32, u32, u32, u32, Seq<u8>),
    Section(u16, u16, bool),
    Interface(i32, u32),
    Enhanced(u32, u32, u32, u32, u32, Seq<u8>),
    Simple(u32, Seq<u8>),
    Otherwise,
}

impl<'a> View for Item<'a> {
    type V = ItemModel;

    open spec fn view(&self) -> ItemModel {
        match *self {
            Item::FileHeader(snaplen, link, major, minor) => ItemModel::FileHeader(snaplen, link, major, minor),
            Item::Record(sec, frac, caplen, origlen, data) => ItemModel::Record(sec, frac, caplen, origlen, data@),
            Item::Section(major, minor, big) => ItemModel::Section(major, minor, big),
            Item::Interface(link, snaplen) => ItemModel::Interface(link, snaplen),
            Item::Enhanced(id, high, low, caplen, origlen, data) => ItemModel::Enhanced(
                id,
                high,
                low,
                caplen,
                origlen,
                data@,
            ),
            Item::Simple(origlen, data) => ItemModel::Simple(origlen, data@),
            Item::Otherwise => ItemModel::Otherwise,
        }
    }
}

impl ItemModel {
    /// The bytes of a packet block.
    pub open spec fn data(self) -> Seq<u8> {
        match self {
            ItemModel::Record(_, _, _, _, data) => data,
            ItemModel::Enhanced(_, _, _, _, _, data) => data,
            ItemModel::Simple(_, data) => data,
            _ => Seq::empty(),
        }
    }
}

/// Why there is no next block.
pub enum Failure {
    /// The capture ended behind a block.
    Eof,
    /// More bytes are needed.
    Incomplete,
    /// A block claims more bytes than there are.
    BufferTooSmall,
    /// The capture ended within a block.
    UnexpectedEof,
    /// The bytes are no block; the error in words.
    Other(String),
}

/// The model of `Failure`.
pub enum FailureModel {
    Eof,
    Incomplete,
    BufferTooSmall,
    UnexpectedEof,
    Other(Seq<char>),
}

impl View for Failure {
    type V = FailureModel;

    open spec fn view(&self) -> FailureModel {
        match *self {
            Failure::Eof => FailureModel::Eof,
            Failure::Incomplete => FailureModel::Incomplete,
            Failure::BufferTooSmall => FailureModel::BufferTooSmall,
            Failure::UnexpectedEof => FailureModel::UnexpectedEof,
            Failure::Other(e) => FailureModel::Other(e@),
        }
    }
}

/// The walk over a capture: the report so far, and what is needed to go on.
pub struct Analysis {
    pub report: Report,
    /// The link type of a pcap file.
    link: i32,
    /// The link types of the interfaces of the current pcapng section.
    interfaces: Vec<i32>,
    /// Whether that section is big-endian.
    big_endian: bool,
    /// The last answer was that more bytes are needed.
    waiting: bool,
    /// Nanoseconds in a tick of a pcap timestamp.
    tick: u64,
    done: bool,
}

/// The model of `Analysis`.
#[verifier::ext_equal]
pub struct Walk {
    pub report: ReportModel,
    pub link: i32,
    pub interfaces: Seq<i32>,
    pub big_endian: bool,
    pub waiting: bool,
    pub tick: u64,
    pub done: bool,
}

impl View for Analysis {
    type V = Walk;

    closed spec fn view(&self) -> Walk {
        Walk {
            report: self.report@,
            link: self.link,
            interfaces: self.interfaces@,
            big_endian: self.big_endian,
            waiting: self.waiting,
            tick: self.tick,
            done: self.done,
        }
    }
}

/// No capture holds more packets than this: none takes less than twelve bytes.
pub const MAX_PACKETS: u64 = 1_537_228_672_809_129_301;

impl Walk {
    pub open spec fn wf(self) -> bool {
        &&& self.report.wf()
        &&& self.report.stats.at_most(9 * self.report.packets)
        &&& self.report.truncated_pkts <= self.report.packets <= MAX_PACKETS
        &&& self.report.notices.len() == 0
        &&& self.report.stats.hs_complete == 0
        &&& self.report.stats.hs_syn_only == 0
        &&& self.report.stats.hs_midstream == 0
        &&& self.tick == 1 || self.tick == 1000
    }

    /// Room for one more block.
    pub open spec fn has_room(self, size: nat, item: ItemModel) -> bool {
        &&& self.report.packets < MAX_PACKETS
        &&& self.report.packets < usize::MAX
        &&& self.report.consumed + size <= usize::MAX
        &&& item.data().len() + 100 <= usize::MAX
    }
}

/// The report before the first block.
pub open spec fn fresh_report(magic: Seq<u8>, total: nat) -> ReportModel {
    ReportModel {
        format: Format::Unknown,
        linktype: "-"@,
        packets: 0,
        consumed: 0,
        total,
        score: Binary64 { mant: 0, exp: 0 },
        clean: false,
        note: Seq::empty(),
        snaplen: 0,
        truncated_pkts: 0,
        src_macs: 0,
        ip_addrs: 0,
        duration: Binary64 { mant: 0, exp: 0 },
        span: 0,
        has_time: false,
        ver: "-"@,
        endian: endian_of(magic),
        ts_prec: precision_of(magic),
        iface_count: 0,
        wire_bytes: 0,
        stats: empty_tally(),
        checks: Seq::empty(),
        notices: Seq::empty(),
        intake: Intake::Reject,
        conformance: Binary64 { mant: 0, exp: 0 },
    }
}

/// The walk before the first block of a capture in the container `format`.
pub open spec fn fresh_walk(magic: Seq<u8>, total: nat, format: Format) -> Walk {
    Walk {
        report: ReportModel { format, ..fresh_report(magic, total) },
        link: 1,
        interfaces: Seq::empty(),
        big_endian: false,
        waiting: false,
        tick: tick_of(magic),
        done: false,
    }
}

/// A version number as text.
pub open spec fn version_text(major: u16, minor: u16) -> Seq<char> {
    decimal(major as nat) + "."@ + decimal(minor as nat)
}

/// The nanoseconds of a time.
pub open spec fn nanos_of(ts: Option<Moment>) -> Option<u128> {
    match ts {
        Some(m) => Some(m.ns),
        None => None,
    }
}

/// One packet: its lengths, its time if it has one, its bytes.
pub open spec fn with_frame(
    r: ReportModel,
    origlen: u32,
    cut: bool,
    link: i32,
    ts: Option<Moment>,
    data: Seq<u8>,
    window: i128,
) -> ReportModel {
    let sized = with_framelen(r.stats, origlen);
    let timed = match ts {
        Some(t) => with_ts(sized, t),
        None => sized,
    };
    ReportModel {
        packets: r.packets + 1,
        wire_bytes: r.wire_bytes.wrapping_add(origlen as u64),
        truncated_pkts: if cut {
            r.truncated_pkts + 1
        } else {
            r.truncated_pkts
        },
        stats: with_packet(timed, data, link, nanos_of(ts), window),
        ..r
    }
}

/// The walk after the contents of a block.
pub open spec fn with_item(w: Walk, item: ItemModel, window: i128) -> Walk {
    let r = w.report;
    match item {
        ItemModel::FileHeader(snaplen, link, major, minor) => Walk {
            link,
            report: ReportModel {
                snaplen,
                linktype: linktype_text(link),
                ver: version_text(major, minor),
                iface_count: 1,
                ..r
            },
            ..w
        },
        ItemModel::Record(sec, frac, caplen, origlen, data) => Walk {
            report: with_frame(
                r,
                origlen,
                origlen > caplen,
                w.link,
                Some(record_time(sec, frac, w.tick)),
                data,
                window,
            ),
            ..w
        },
        ItemModel::Section(major, minor, big) => Walk {
            interfaces: Seq::empty(),
            big_endian: big,
            report: ReportModel { ver: version_text(major, minor), ..r },
            ..w
        },
        ItemModel::Interface(link, snaplen) => Walk {
            interfaces: w.interfaces.push(link),
            report: ReportModel {
                iface_count: w.interfaces.len() + 1,
                snaplen: if r.snaplen == 0 {
                    snaplen
                } else {
                    r.snaplen
                },
                linktype: if r.linktype == "-"@ {
                    linktype_text(link)
                } else {
                    r.linktype
                },
                ..r
            },
            ..w
        },
        ItemModel::Enhanced(id, high, low, caplen, origlen, data) => Walk {
            report: with_frame(
                r,
                origlen,
                origlen > caplen,
                if id < w.interfaces.len() {
                    w.interfaces[id as int]
                } else {
                    1
                },
                Some(enhanced_time(high, low)),
                data,
                window,
            ),
            ..w
        },
        ItemModel::Simple(origlen, data) => Walk {
            report: with_frame(
                r,
                origlen,
                false,
                if w.interfaces.len() > 0 {
                    w.interfaces[0]
                } else {
                    1
                },
                None,
                data,
                window,
            ),
            ..w
        },
        ItemModel::Otherwise => w,
    }
}

/// The walk after a block of `size` bytes.
pub open spec fn with_block(w: Walk, size: nat, item: ItemModel, window: i128) -> Walk {
    let v = with_item(w, item, window);
    Walk { waiting: false, report: ReportModel { consumed: w.report.consumed + size, ..v.report }, ..v }
}

/// The walk stopped with a note.
pub open spec fn stopped(w: Walk, note: Seq<char>) -> Walk {
    Walk { done: true, report: ReportModel { note, ..w.report }, ..w }
}

/// The walk after a failure: at the end of the capture it is clean; a block that
/// is incomplete is tried once more; anything else stops it.
pub open spec fn with_failure(w: Walk, f: FailureModel) -> Walk {
    match f {
        FailureModel::Eof => Walk { done: true, report: ReportModel { clean: true, ..w.report }, ..w },
        FailureModel::Incomplete => if w.waiting {
            stopped(w, "truncated: last block is incomplete"@)
        } else {
            Walk { waiting: true, ..w }
        },
        FailureModel::BufferTooSmall => stopped(
            w,
            "truncated/corrupt: a block after "@ + decimal(w.report.consumed)
                + " bytes claims more data than the file holds"@,
        ),
        FailureModel::UnexpectedEof => stopped(
            w,
            "truncated: file ends mid-block after "@ + decimal(w.report.consumed) + " bytes"@,
        ),
        FailureModel::Other(e) => stopped(
            w,
            "parse error after "@ + decimal(w.report.consumed) + " bytes: "@ + e,
        ),
    }
}

/// The walk when no more bytes could be had.
pub open spec fn without_refill(w: Walk) -> Walk {
    stopped(w, "truncated: unexpected end of data"@)
}

/// The report at the end of the walk, before it is judged.
pub open spec fn summed_up(r: ReportModel) -> ReportModel {
    ReportModel {
        score: score_of(r.consumed, r.total),
        note: if r.clean && r.note.len() == 0 {
            "clean: parsed to end of file"@
        } else {
            r.note
        },
        src_macs: r.stats.macs.len(),
        ip_addrs: r.stats.ips.len(),
        duration: match (r.stats.ts_first, r.stats.ts_last) {
            (Some(a), Some(b)) => difference(b, a),
            _ => r.duration,
        },
        span: match (r.stats.ns_first, r.stats.ns_last) {
            (Some(a), Some(b)) => if b > a {
                (b - a) as u128
            } else {
                0
            },
            _ => r.span,
        },
        has_time: r.has_time || (r.stats.ts_first is Some && r.stats.ts_last is Some),
        stats: with_sessions(r.stats),
        ..r
    }
}

/// The finished report.
pub open spec fn finished(w: Walk, c: Settings) -> ReportModel {
    judged(summed_up(w.report), c)
}

/// The report on a file without the magic bytes of a capture.
pub open spec fn no_capture(magic: Seq<u8>, total: nat, c: Settings) -> ReportModel {
    with_checks(
        ReportModel {
            note: "no pcap/pcapng magic bytes — not a packet capture"@,
            ..fresh_report(magic, total)
        },
        c,
    )
}

/// The report on a capture that the reader refused to open.
pub open spec fn unopened(magic: Seq<u8>, total: nat, format: Format, error: Seq<char>, c: Settings) -> ReportModel {
    with_checks(
        ReportModel { format, note: "reader init failed: "@ + error, ..fresh_report(magic, total) },
        c,
    )
}

/// The tallies of a report fit together: every packet is IPv4, IPv6, ARP or
/// other, every decoded frame is unicast, multicast or broadcast, and no more
/// packets are truncated, runt or oversize than there are, nor duplicates, gaps,
/// tagged or nested ones.
pub open spec fn adds_up(r: ReportModel) -> bool {
    let s = r.stats;
    &&& s.ipv4 + s.ipv6 + s.arp + s.l2other == r.packets
    &&& s.unicast + s.multicast + s.broadcast == s.decoded
    &&& r.truncated_pkts <= r.packets
    &&& s.runts + s.oversize <= r.packets
    &&& s.dup_tag_diff <= s.dup_frames <= r.packets
    &&& s.seq_gaps <= r.packets && s.acked_unseen <= r.packets && s.inner_trunc <= r.packets
    &&& s.qinq <= s.vlan <= r.packets && s.multi_encap <= r.packets
    &&& s.decoded <= r.packets
}

/// A packet leaves the tallies of a report fitting together.
proof fn lemma_frame_adds_up(
    r: ReportModel,
    origlen: u32,
    cut: bool,
    link: i32,
    ts: Option<Moment>,
    data: Seq<u8>,
    window: i128,
)
    requires
        adds_up(r),
    ensures
        adds_up(with_frame(r, origlen, cut, link, ts, data, window)),
{
    let sized = with_framelen(r.stats, origlen);
    let timed = match ts {
        Some(t) => with_ts(sized, t),
        None => sized,
    };
    law_casts_add_up(timed, data, link, nanos_of(ts), window);
    law_packet_is_classified_once(timed, data, link, nanos_of(ts), window);
    law_packet_leaves_the_rest(timed, data, link, nanos_of(ts), window);
    law_packet_counts_at_most_once(timed, data, link, nanos_of(ts), window);
}

/// A block of any kind leaves the tallies of a report fitting together.
pub proof fn law_block_adds_up(w: Walk, size: nat, item: ItemModel, window: i128)
    requires
        adds_up(w.report),
    ensures
        adds_up(with_block(w, size, item, window).report),
{
    match item {
        ItemModel::Record(sec, frac, caplen, origlen, data) => {
            lemma_frame_adds_up(
                w.report,
                origlen,
                origlen > caplen,
                w.link,
                Some(record_time(sec, frac, w.tick)),
                data,
                window,
            );
        },
        ItemModel::Enhanced(id, high, low, caplen, origlen, data) => {
            let link = if id < w.interfaces.len() {
                w.interfaces[id as int]
            } else {
                1
            };
            lemma_frame_adds_up(
                w.report,
                origlen,
                origlen > caplen,
                link,
                Some(enhanced_time(high, low)),
                data,
                window,
            );
        },
        ItemModel::Simple(origlen, data) => {
            let link = if w.interfaces.len() > 0 {
                w.interfaces[0]
            } else {
                1
            };
            lemma_frame_adds_up(w.report, origlen, false, link, None, data, window);
        },
        _ => {},
    }
}

fn new_report(magic: &[u8], total: usize) -> (r: Report)
    ensures
        r@ == fresh_report(magic@, total as nat),
{
    let (endian, ts_prec) = magic_info(magic);
    let r = Report {
        format: Format::Unknown,
        linktype: String::from_str("-"),
        packets: 0,
        consumed: 0,
        total,
        score: Binary64 { mant: 0, exp: 0 },
        clean: false,
        note: String::new(),
        snaplen: 0,
        truncated_pkts: 0,
        src_macs: 0,
        ip_addrs: 0,
        duration: Binary64 { mant: 0, exp: 0 },
        span: 0,
        has_time: false,
        ver: String::from_str("-"),
        endian,
        ts_prec,
        iface_count: 0,
        wire_bytes: 0,
        stats: Stats::new(),
        checks: Vec::new(),
        notices: Vec::new(),
        intake: Intake::Reject,
        conformance: Binary64 { mant: 0, exp: 0 },
    };
    assert(r@ =~= fresh_report(magic@, total as nat));
    r
}

fn version(major: u16, minor: u16) -> (r: String)
    ensures
        r@ == version_text(major, minor),
{
    let mut out = String::new();
    push_decimal(&mut out, major as u128);
    assert(out@ =~= decimal(major as nat));
    out.append(".");
    push_decimal(&mut out, minor as u128);
    out
}

/// Tallies one packet into the report.
fn take_frame(
    r: &mut Report,
    origlen: u32,
    cut: bool,
    link: i32,
    ts: Option<Moment>,
    data: &[u8],
    dup_window: i128,
)
    requires
        old(r)@.wf(),
        old(r)@.stats.at_most(9 * old(r)@.packets),
        old(r)@.truncated_pkts <= old(r)@.packets < MAX_PACKETS,
        old(r).packets < usize::MAX,
        data@.len() + 100 <= usize::MAX,
        ts is Some ==> ts->0.wf(),
    ensures
        final(r)@ == with_frame(old(r)@, origlen, cut, link, ts, data@, dup_window),
        final(r)@.wf(),
        final(r)@.stats.at_most(9 * final(r)@.packets),
        final(r)@.truncated_pkts <= final(r)@.packets <= MAX_PACKETS,
        final(r)@.stats.hs_complete == old(r)@.stats.hs_complete,
        final(r)@.stats.hs_syn_only == old(r)@.stats.hs_syn_only,
        final(r)@.stats.hs_midstream == old(r)@.stats.hs_midstream,
{
    let ghost n = r@.packets;
    r.packets = r.packets + 1;
    r.wire_bytes = r.wire_bytes.wrapping_add(origlen as u64);
    note_framelen(&mut r.stats, origlen);
    if cut {
        r.truncated_pkts = r.truncated_pkts + 1;
    }
    if let Some(t) = ts {
        note_ts(&mut r.stats, t);
    }
    let ghost timed = r.stats@;
    assert(timed.at_most(9 * n + 1));
    let ns: Option<u128> = match ts {
        Some(m) => Some(m.ns),
        None => None,
    };
    analyze_packet(data, link, ns, dup_window, &mut r.stats);
    proof {
        law_packet_raises_little(timed, data@, link, ns, dup_window, 9 * n + 1);
        law_packet_leaves_the_rest(timed, data@, link, ns, dup_window);
    }
    assert(r@ =~= with_frame(old(r)@, origlen, cut, link, ts, data@, dup_window));
}

/// The size of the reader's window: the whole of a small capture, and at most
/// 16 MiB of a large one.
pub open spec fn window_for(total: nat) -> nat {
    if total + 65_536 < 16_777_216 {
        total + 65_536
    } else {
        16_777_216
    }
}

/// The size of the reader's window for a capture of `total` bytes.
pub fn window_size(total: usize) -> (r: usize)
    requires
        total + 65_536 <= usize::MAX,
    ensures
        r == window_for(total as nat),
{
    if total + 65_536 < 16_777_216 {
        total + 65_536
    } else {
        16_777_216
    }
}

impl<'a> Item<'a> {
    /// The number of bytes of a packet block.
    pub fn data_len(&self) -> (r: usize)
        ensures
            r == self@.data().len(),
    {
        match self {
            Item::Record(_, _, _, _, data) => data.len(),
            Item::Enhanced(_, _, _, _, _, data) => data.len(),
            Item::Simple(_, data) => data.len(),
            _ => 0,
        }
    }
}

impl Analysis {
    /// Starts the walk over a file of `total` bytes that starts with `magic`; the
    /// finished report where that is no capture.
    pub fn begin(magic: &[u8], total: usize, c: &Config) -> (r: Result<Analysis, Report>)
        ensures
            match r {
                Ok(a) => format_of(magic@) is Some && a@ == fresh_walk(magic@, total as nat, format_of(magic@)->0)
                    && a@.wf(),
                Err(report) => format_of(magic@) is None && report@ == no_capture(magic@, total as nat, c@)
                    && report@.wf(),
            },
    {
        let (format, tick): (Option<Format>, u64) = detect_format(magic);
        let mut report = new_report(magic, total);
        match format {
            Some(f) => {
                report.format = f;
                assert(report@ =~= (ReportModel { format: f, ..fresh_report(magic@, total as nat) }));
                let a = Analysis {
                    report,
                    link: 1,
                    interfaces: Vec::new(),
                    big_endian: false,
                    waiting: false,
                    tick,
                    done: false,
                };
                assert(a@ =~= fresh_walk(magic@, total as nat, f));
                Ok(a)
            },
            None => {
                report.note = String::from_str("no pcap/pcapng magic bytes — not a packet capture");
                build_checks(&mut report, c);
                Err(report)
            },
        }
    }

    /// The report where the reader refused to open the capture.
    pub fn refused(self, error: &str, c: &Config) -> (r: Report)
        ensures
            r@ == with_checks(
                ReportModel { note: "reader init failed: "@ + error@, ..self@.report },
                c@,
            ),
            self@.wf() ==> r@.wf(),
    {
        let mut report = self.report;
        let mut note = String::from_str("reader init failed: ");
        note.append(error);
        report.note = note;
        build_checks(&mut report, c);
        report
    }

    /// Whether the walk is over.
    pub fn is_done(&self) -> (r: bool)
        ensures
            r == self@.done,
    {
        self.done
    }

    /// The bytes of the blocks taken so far.
    pub fn consumed(&self) -> (r: usize)
        ensures
            r == self@.report.consumed,
    {
        self.report.consumed
    }

    /// Whether the walk is in a big-endian section.
    pub fn is_big_endian(&self) -> (r: bool)
        ensures
            r == self@.big_endian,
    {
        self.big_endian
    }

    /// Whether the walk can take one more block.
    pub fn has_room(&self, size: usize, item: &Item) -> (r: bool)
        ensures
            r == self@.has_room(size as nat, item@),
    {
        (self.report.packets as u64) < MAX_PACKETS && self.report.packets < usize::MAX && self.report.consumed
            <= usize::MAX - size && item.data_len() <= usize::MAX - 100
    }

    fn take_header(&mut self, snaplen: u32, link: i32, major: u16, minor: u16)
        requires
            old(self)@.wf(),
        ensures
            final(self)@ == with_item(old(self)@, ItemModel::FileHeader(snaplen, link, major, minor), 0),
            final(self)@.wf(),
    {
        self.report.snaplen = snaplen;
        self.link = link;
        self.report.linktype = linktype_name(link);
        self.report.ver = version(major, minor);
        self.report.iface_count = 1;
        assert(self@ =~= with_item(old(self)@, ItemModel::FileHeader(snaplen, link, major, minor), 0));
    }

    fn take_section(&mut self, major: u16, minor: u16, big: bool)
        requires
            old(self)@.wf(),
        ensures
            final(self)@ == with_item(old(self)@, ItemModel::Section(major, minor, big), 0),
            final(self)@.wf(),
    {
        self.interfaces = Vec::new();
        self.big_endian = big;
        self.report.ver = version(major, minor);
        assert(self@ =~= with_item(old(self)@, ItemModel::Section(major, minor, big), 0));
    }

    fn take_interface(&mut self, link: i32, snaplen: u32)
        requires
            old(self)@.wf(),
        ensures
            final(self)@ == with_item(old(self)@, ItemModel::Interface(link, snaplen), 0),
            final(self)@.wf(),
    {
        self.interfaces.push(link);
        self.report.iface_count = self.interfaces.len();
        if self.report.snaplen == 0 {
            self.report.snaplen = snaplen;
        }
        let dash = String::from_str("-");
        if self.report.linktype == dash {
            self.report.linktype = linktype_name(link);
        }
        assert(self@ =~= with_item(old(self)@, ItemModel::Interface(link, snaplen), 0));
    }

    fn take_packet(&mut self, origlen: u32, cut: bool, link: i32, ts: Option<Moment>, data: &[u8], dup_window: i128)
        requires
            old(self)@.wf(),
            old(self)@.report.packets < MAX_PACKETS,
            old(self)@.report.packets < usize::MAX,
            data@.len() + 100 <= usize::MAX,
            ts is Some ==> ts->0.wf(),
        ensures
            final(self)@ == (Walk {
                report: with_frame(old(self)@.report, origlen, cut, link, ts, data@, dup_window),
                ..old(self)@
            }),
            final(self)@.wf(),
    {
        take_frame(&mut self.report, origlen, cut, link, ts, data, dup_window);
    }

    /// The link type of an interface; Ethernet where it was not described.
    fn link_of(&self, id: u32) -> (r: i32)
        ensures
            r == (if id < self@.interfaces.len() {
                self@.interfaces[id as int]
            } else {
                1
            }),
    {
        if (id as u64) < self.interfaces.len() as u64 {
            self.interfaces[id as usize]
        } else {
            1
        }
    }

    /// Takes the contents of one block.
    fn take_item(&mut self, item: &Item, c: &Config)
        requires
            old(self)@.wf(),
            old(self)@.has_room(0, item@),
        ensures
            final(self)@ == with_item(old(self)@, item@, c@.dup_window),
            final(self)@.wf(),
            final(self)@.report.consumed == old(self)@.report.consumed,
    {
        match item {
            Item::FileHeader(snaplen, link, major, minor) => {
                self.take_header(*snaplen, *link, *major, *minor);
            },
            Item::Record(sec, frac, caplen, origlen, data) => {
                let ts: Moment = record_moment(*sec, *frac, self.tick);
                let link: i32 = self.link;
                self.take_packet(*origlen, *origlen > *caplen, link, Some(ts), data, c.dup_window);
            },
            Item::Section(major, minor, big) => {
                self.take_section(*major, *minor, *big);
            },
            Item::Interface(link, snaplen) => {
                self.take_interface(*link, *snaplen);
            },
            Item::Enhanced(id, high, low, caplen, origlen, data) => {
                let link: i32 = self.link_of(*id);
                let ts: Moment = enhanced_moment(*high, *low);
                self.take_packet(*origlen, *origlen > *caplen, link, Some(ts), data, c.dup_window);
            },
            Item::Simple(origlen, data) => {
                let link: i32 = self.link_of(0);
                self.take_packet(*origlen, false, link, None, data, c.dup_window);
            },
            Item::Otherwise => {},
        }
    }

    /// Takes one block of `size` bytes.
    pub fn block(&mut self, size: usize, item: &Item, c: &Config)
        requires
            old(self)@.wf(),
            old(self)@.has_room(size as nat, item@),
        ensures
            final(self)@ == with_block(old(self)@, size as nat, item@, c@.dup_window),
            final(self)@.wf(),
    {
        self.take_item(item, c);
        self.waiting = false;
        self.report.consumed = self.report.consumed + size;
        assert(self@ =~= with_block(old(self)@, size as nat, item@, c@.dup_window));
    }

    fn stop(&mut self, note: String)
        ensures
            final(self)@ == stopped(old(self)@, note@),
    {
        self.report.note = note;
        self.done = true;
        assert(self@ =~= stopped(old(self)@, note@));
    }

    /// Takes the answer that there is no next block; `true` asks for more bytes
    /// and one more try.
    pub fn failure(&mut self, f: Failure) -> (more: bool)
        requires
            !old(self)@.done,
        ensures
            final(self)@ == with_failure(old(self)@, f@),
            more == !final(self)@.done,
            old(self)@.wf() ==> final(self)@.wf(),
    {
        match f {
            Failure::Eof => {
                self.report.clean = true;
                self.done = true;
                assert(self@ =~= with_failure(old(self)@, f@));
            },
            Failure::Incomplete => {
                if self.waiting {
                    self.stop(String::from_str("truncated: last block is incomplete"));
                } else {
                    self.waiting = true;
                }
            },
            Failure::BufferTooSmall => {
                let mut note = String::from_str("truncated/corrupt: a block after ");
                push_decimal(&mut note, self.report.consumed as u128);
                note.append(" bytes claims more data than the file holds");
                self.stop(note);
            },
            Failure::UnexpectedEof => {
                let mut note = String::from_str("truncated: file ends mid-block after ");
                push_decimal(&mut note, self.report.consumed as u128);
                note.append(" bytes");
                self.stop(note);
            },
            Failure::Other(e) => {
                let mut note = String::from_str("parse error after ");
                push_decimal(&mut note, self.report.consumed as u128);
                note.append(" bytes: ");
                note.append(e.as_str());
                self.stop(note);
            },
        }
        !self.done
    }

    /// Takes the answer that no more bytes could be had.
    pub fn refill_failed(&mut self)
        ensures
            final(self)@ == without_refill(old(self)@),
            old(self)@.wf() ==> final(self)@.wf(),
    {
        self.stop(String::from_str("truncated: unexpected end of data"));
    }

    /// Ends the walk and judges the capture. Its conformance is one hundred percent
    /// if and only if it is accepted and was parsed whole.
    #[verifier::rlimit(40)]
    pub fn finish(self, c: &Config) -> (r: Report)
        requires
            self@.wf(),
        ensures
            r@ == finished(self@, c@),
            r@.wf(),
            r@.conformance == whole(100) <==> r@.intake == Intake::Accept && r@.score == whole(100),
    {
        let mut r = self.report;
        let ghost r0 = r@;
        r.score = score(r.consumed, r.total);
        if r.clean && r.note.as_str().is_empty() {
            r.note = String::from_str("clean: parsed to end of file");
        }
        r.src_macs = r.stats.macs.len();
        r.ip_addrs = r.stats.ips.len();
        if let Some(a) = r.stats.ts_first {
            if let Some(b) = r.stats.ts_last {
                r.duration = b.minus(a);
                r.has_time = true;
            }
        }
        if let Some(a) = r.stats.ns_first {
            if let Some(b) = r.stats.ns_last {
                r.span = if b > a {
                    b - a
                } else {
                    0
                };
            }
        }
        proof {
            law_coverage_is_a_partition(r.stats@);
        }
        finalize_flows(&mut r.stats);
        assert(r@ =~= summed_up(r0));
        proof {
            law_full_conformance(r@, c@);
            law_verdict(r@, c@);
        }
        build_checks(&mut r, c);
        build_notices(&mut r, c);
        r
    }
}

/// A packet block counts as one packet, whatever its kind: its length on the wire
/// and its bytes in the file are added, and it is truncated if and only if fewer
/// bytes were captured than were on the wire. A simple packet has no captured length
/// and is never taken for truncated.
pub proof fn law_packet_block(w: Walk, size: nat, item: ItemModel, window: i128)
    requires
        w.report.wire_bytes <= u64::MAX - u32::MAX,
    ensures
        ({
            let r = with_block(w, size, item, window).report;
            let (is_packet, length, cut) = match item {
                ItemModel::Record(_, _, caplen, origlen, _) => (true, origlen, caplen < origlen),
                ItemModel::Enhanced(_, _, _, caplen, origlen, _) => (true, origlen, caplen < origlen),
                ItemModel::Simple(origlen, _) => (true, origlen, false),
                _ => (false, 0, false),
            };
            &&& r.consumed == w.report.consumed + size
            &&& r.packets == w.report.packets + (if is_packet {
                1int
            } else {
                0
            })
            &&& r.wire_bytes == w.report.wire_bytes + length
            &&& r.truncated_pkts == w.report.truncated_pkts + (if cut {
                1int
            } else {
                0
            })
            &&& !is_packet ==> r.stats == w.report.stats
            &&& r.stats.runts == w.report.stats.runts + (if is_packet && length < 60 {
                1int
            } else {
                0
            })
            &&& r.stats.oversize == w.report.stats.oversize + (if is_packet && length > 1518 {
                1int
            } else {
                0
            })
            &&& r.format == w.report.format && r.total == w.report.total && r.clean == w.report.clean && r.note
                == w.report.note
        }),
{
    match item {
        ItemModel::Record(sec, frac, caplen, origlen, data) => {
            lemma_frame_lengths(w.report, origlen, w.link, Some(record_time(sec, frac, w.tick)), data, window);
        },
        ItemModel::Enhanced(id, high, low, caplen, origlen, data) => {
            let link = if id < w.interfaces.len() {
                w.interfaces[id as int]
            } else {
                1
            };
            lemma_frame_lengths(w.report, origlen, link, Some(enhanced_time(high, low)), data, window);
        },
        ItemModel::Simple(origlen, data) => {
            let link = if w.interfaces.len() > 0 {
                w.interfaces[0]
            } else {
                1
            };
            lemma_frame_lengths(w.report, origlen, link, None, data, window);
        },
        _ => {},
    }
}

proof fn lemma_frame_lengths(
    r: ReportModel,
    origlen: u32,
    link: i32,
    ts: Option<Moment>,
    data: Seq<u8>,
    window: i128,
)
    ensures
        forall|cut: bool|
            {
                let u = (#[trigger] with_frame(r, origlen, cut, link, ts, data, window)).stats;
                &&& u.runts == with_framelen(r.stats, origlen).runts
                &&& u.oversize == with_framelen(r.stats, origlen).oversize
            },
{
    let sized = with_framelen(r.stats, origlen);
    let timed = match ts {
        Some(t) => with_ts(sized, t),
        None => sized,
    };
    law_packet_leaves_the_rest(timed, data, link, nanos_of(ts), window);
}

/// A packet is read by the link type of its interface: that of the file header in a
/// pcap file; in pcapng that of the interface which it names, of the first where it
/// names none, and Ethernet where there is no such interface.
pub proof fn law_link_of_a_packet(w: Walk, size: nat, id: u32, length: u32, data: Seq<u8>, window: i128)
    ensures
        ({
            let sized = with_framelen(w.report.stats, length);
            let named = if id < w.interfaces.len() {
                w.interfaces[id as int]
            } else {
                1
            };
            let first = if 0 < w.interfaces.len() {
                w.interfaces[0]
            } else {
                1
            };
            &&& with_block(w, size, ItemModel::Simple(length, data), window).report.stats == with_packet(
                sized,
                data,
                first,
                None,
                window,
            )
            &&& with_block(w, size, ItemModel::Enhanced(id, 0, 0, length, length, data), window).report.stats
                == with_packet(with_ts(sized, enhanced_time(0, 0)), data, named, Some(0), window)
            &&& with_block(w, size, ItemModel::Record(0, 0, length, length, data), window).report.stats == with_packet(
                with_ts(sized, record_time(0, 0, w.tick)),
                data,
                w.link,
                Some(0),
                window,
            )
        }),
{
    assert(0 * w.tick == 0);
}

/// The header of a pcap file and the interfaces of a pcapng section: a section starts
/// without interfaces and each interface is added behind the others; the first snap
/// length that is set and the first link type are those of the report.
pub proof fn law_headers(w: Walk, size: nat, snaplen: u32, link: i32, major: u16, minor: u16, big: bool, window: i128)
    ensures
        ({
            let v = with_block(w, size, ItemModel::FileHeader(snaplen, link, major, minor), window);
            &&& v.link == link && v.report.snaplen == snaplen && v.report.iface_count == 1
            &&& v.report.ver == decimal(major as nat) + "."@ + decimal(minor as nat)
            &&& v.report.linktype == linktype_text(link)
        }),
        ({
            let v = with_block(w, size, ItemModel::Section(major, minor, big), window);
            &&& v.interfaces.len() == 0 && v.big_endian == big
            &&& v.report.ver == decimal(major as nat) + "."@ + decimal(minor as nat)
            &&& v.report.snaplen == w.report.snaplen && v.report.linktype == w.report.linktype
        }),
        ({
            let v = with_block(w, size, ItemModel::Interface(link, snaplen), window);
            &&& v.interfaces == w.interfaces.push(link)
            &&& v.report.iface_count == v.interfaces.len()
            &&& v.report.snaplen == (if w.report.snaplen == 0 {
                snaplen
            } else {
                w.report.snaplen
            })
            &&& w.report.linktype == "-"@ ==> v.report.linktype == linktype_text(link)
            &&& w.report.linktype != "-"@ ==> v.report.linktype == w.report.linktype
        }),
{
}

/// Only the end of a capture behind a block leaves it undamaged. Whatever else stops
/// the walk leaves a note of it; a block that is incomplete is tried once more.
pub proof fn law_failures(w: Walk, f: FailureModel)
    requires
        !w.done,
        !w.report.clean,
    ensures
        ({
            let v = with_failure(w, f);
            &&& v.report.clean <==> f is Eof
            &&& v.done <==> !(f is Incomplete) || w.waiting
            &&& v.done && !(f is Eof) ==> v.report.note.len() > 0
            &&& !v.done ==> v.waiting && v.report == w.report
            &&& f is Eof ==> v.report.note == w.report.note
            &&& v.report.consumed == w.report.consumed && v.report.packets == w.report.packets && v.report.stats
                == w.report.stats
        }),
        without_refill(w).done && !without_refill(w).report.clean && without_refill(w).report.note.len() > 0,
{
    reveal_strlit("truncated: last block is incomplete");
    reveal_strlit("truncated/corrupt: a block after ");
    reveal_strlit("truncated: file ends mid-block after ");
    reveal_strlit("parse error after ");
    reveal_strlit("truncated: unexpected end of data");
}

/// The report sums up what was seen: devices and addresses are those collected, the
/// span is the time from the earliest to the latest packet, and there is a time if
/// and only if some packet carries one.
pub proof fn law_report_sums_up(w: Walk, c: Settings)
    requires
        !w.report.has_time,
        w.report.span == 0,
    ensures
        ({
            let r = finished(w, c);
            let s = w.report.stats;
            &&& r.src_macs == s.macs.len() && r.ip_addrs == s.ips.len()
            &&& r.score == score_of(w.report.consumed, w.report.total)
            &&& r.has_time <==> s.ts_first is Some && s.ts_last is Some
            &&& s.ns_first is Some && s.ns_last is Some && s.ns_first->0 <= s.ns_last->0 ==> r.span == s.ns_last->0
                - s.ns_first->0
            &&& s.ns_first is None || s.ns_last is None ==> r.span == 0
            &&& s.ts_first is Some && s.ts_last is Some ==> r.duration == difference(s.ts_last->0, s.ts_first->0)
            &&& r.packets == w.report.packets && r.truncated_pkts == w.report.truncated_pkts && r.snaplen
                == w.report.snaplen && r.total == w.report.total && r.format == w.report.format && r.wire_bytes
                == w.report.wire_bytes && r.clean == w.report.clean
            &&& !w.report.clean ==> r.note == w.report.note
        }),
{
}

/// The reader gets a window of 64 KiB more than the capture, but no more than 16 MiB.
pub proof fn law_window_of_the_reader(total: nat)
    ensures
        window_for(total) <= 16 * 1024 * 1024,
        window_for(total) <= total + 64 * 1024,
        window_for(total) == 16 * 1024 * 1024 || window_for(total) == total + 64 * 1024,
{
}

/// The report on a file of which nothing was read yet is empty, and a rejection.
pub proof fn law_nothing_read_yet(magic: Seq<u8>, total: nat)
    ensures
        ({
            let r = fresh_report(magic, total);
            &&& r.packets == 0 && r.consumed == 0 && r.total == total && r.truncated_pkts == 0 && r.wire_bytes == 0
            &&& !r.clean && !r.has_time && r.span == 0 && r.snaplen == 0
            &&& r.notices.len() == 0 && r.checks.len() == 0 && r.intake == Intake::Reject
            &&& r.stats.at_most(0)
            &&& r.stats.macs.len() == 0 && r.stats.ips.len() == 0 && r.stats.flows.len() == 0 && r.stats.seen.len() == 0
            &&& adds_up(r)
        }),
{
}

/// What is noted of a walk that was stopped: where, and by what.
pub proof fn law_notes_on_failures(w: Walk, error: Seq<char>)
    ensures
        w.waiting ==> with_failure(w, FailureModel::Incomplete).report.note == "truncated: last block is incomplete"@,
        with_failure(w, FailureModel::BufferTooSmall).report.note == "truncated/corrupt: a block after "@ + decimal(
            w.report.consumed,
        ) + " bytes claims more data than the file holds"@,
        with_failure(w, FailureModel::UnexpectedEof).report.note == "truncated: file ends mid-block after "@ + decimal(
            w.report.consumed,
        ) + " bytes"@,
        with_failure(w, FailureModel::Other(error)).report.note == "parse error after "@ + decimal(w.report.consumed)
            + " bytes: "@ + error,
        without_refill(w).report.note == "truncated: unexpected end of data"@,
{
}

} // verus!
