//! Captures in memory, read block by block with the `pcap_parser` crate.

use pcap_parser::create_reader;
use pcap_parser::traits::PcapReaderIterator;
use pcap_parser::Block::{EnhancedPacket, InterfaceDescription, SectionHeader, SimplePacket};
use pcap_parser::PcapBlockOwned::{Legacy, LegacyHeader, NG};
use vstd::prelude::*;

#[allow(unused_imports)]
use crate::binary64::{whole, zero};
use crate::bytes::rest;
#[allow(unused_imports)]
use crate::bytes::tail;
use crate::capture::Item::{Enhanced, FileHeader, Interface, Otherwise, Record, Section, Simple};
use crate::capture::{window_size, Analysis, Failure, Item};
#[allow(unused_imports)]
use crate::capture::{
    adds_up, finished, fresh_report, fresh_walk, law_block_adds_up, no_capture, unopened, window_for, with_block,
    with_failure, FailureModel, ItemModel, Walk,
};
#[allow(unused_imports)]
use crate::checks::{all_checks, has_level, integrity_check};
use crate::config::Config;
#[allow(unused_imports)]
use crate::config::Settings;
#[allow(unused_imports)]
use crate::figures::lemma_hundred;
use crate::frame::{detect_format, Format};
#[allow(unused_imports)]
use crate::frame::{endian_of, format_of, precision_of, tick_of};
#[allow(unused_imports)]
use crate::notices::has_notice;
use crate::report::Report;
#[allow(unused_imports)]
use crate::report::{Intake, Level, ReportModel};
use crate::words::{chars_of, is_word, starts_with_word};
#[allow(unused_imports)]
use crate::words::has_prefix;

verus! {

/// A reader of `pcap_parser` over a capture in memory.
#[verifier::external_body]
pub struct CaptureReader<'a> {
    inner: Box<dyn PcapReaderIterator + Send + 'a>,
}

/// How far a reader is.
pub struct Stage {
    /// The size of its buffer.
    pub window: nat,
    /// The capture.
    pub data: Seq<u8>,
    /// How often it was asked for the next block.
    pub calls: nat,
    /// The bytes of the blocks that were not consumed yet.
    pub unread: nat,
    /// Whether it is in a big-endian pcapng section.
    pub big_endian: bool,
    /// Whether its last answer is still to be acted on: a block consumed, or
    /// more bytes fetched where there was none.
    pub asked: bool,
}

/// The answer of a reader that is asked for the next block.
pub enum Reading {
    /// A block of so many bytes.
    Block(nat, ItemModel),
    /// No block; the error in words.
    Failure(Seq<char>),
}

/// How far a reader is.
pub uninterp spec fn stage(r: CaptureReader<'_>) -> Stage;

/// The error, in words, with which a reader with a buffer of `window` bytes
/// refuses to open a capture; `None` where it opens it.
pub uninterp spec fn opening(window: nat, data: Seq<u8>) -> Option<Seq<char>>;

/// The answer of a reader with a buffer of `window` bytes that is asked for the
/// next block for the `n`th time, counted from zero, if each block was consumed
/// and each error answered by a refill.
pub uninterp spec fn reading(window: nat, data: Seq<u8>, n: nat) -> Reading;

/// The start of a pcapng block of process information that claims less than the
/// twelve bytes which its type and its two lengths take. The length of its
/// contents would lie below zero.
pub open spec fn is_runt_head(b: Seq<u8>, big_endian: bool) -> bool {
    &&& b.len() >= 8
    &&& if big_endian {
        &&& b[0] == 0x80 && b[1] == 0 && b[2] == 0 && b[3] == 1
        &&& b[4] == 0 && b[5] == 0 && b[6] == 0 && 4 <= b[7] < 12
    } else {
        &&& b[0] == 1 && b[1] == 0 && b[2] == 0 && b[3] == 0x80
        &&& 4 <= b[4] < 12 && b[5] == 0 && b[6] == 0 && b[7] == 0
    }
}

/// Such a block at `at` in a pcapng capture.
pub open spec fn is_runt_block(data: Seq<u8>, at: int, big_endian: bool) -> bool {
    format_of(data) == Some(Format::PcapNg) && is_runt_head(tail(data, at), big_endian)
}

/// Whether the bytes start a pcapng block of process information that is too
/// short for its own frame. A reader must not be asked for such a block.
pub fn starts_runt_block(b: &[u8], big_endian: bool) -> (r: bool)
    ensures
        r == is_runt_head(b@, big_endian),
{
    if b.len() < 8 {
        false
    } else if big_endian {
        b[0] == 0x80 && b[1] == 0 && b[2] == 0 && b[3] == 1 && b[4] == 0 && b[5] == 0 && b[6] == 0 && b[7] >= 4 && b[7]
            < 12
    } else {
        b[0] == 1 && b[1] == 0 && b[2] == 0 && b[3] == 0x80 && b[4] >= 4 && b[4] < 12 && b[5] == 0 && b[6] == 0 && b[7]
            == 0
    }
}

fn at_runt_block(data: &[u8], at: usize, big_endian: bool) -> (r: bool)
    ensures
        r == is_runt_block(data@, at as int, big_endian),
{
    match detect_format(data).0 {
        Some(Format::PcapNg) => starts_runt_block(rest(data, at), big_endian),
        _ => false,
    }
}

/// `pcap_parser::create_reader`: probes the capture for pcapng, then for pcap,
/// and gives a reader at its start, or an error. Both follow from the capture and
/// the size of the buffer, which has to fit into memory.
#[verifier::external_body]
fn open_reader<'a>(window: usize, data: &'a [u8]) -> (r: Result<CaptureReader<'a>, String>)
    requires
        window <= 16_777_216,
    ensures
        match r {
            Ok(rd) => opening(window as nat, data@) is None && stage(rd) == (Stage {
                window: window as nat,
                data: data@,
                calls: 0,
                unread: data@.len(),
                big_endian: false,
                asked: false,
            }),
            Err(e) => opening(window as nat, data@) == Some(e@),
        },
{
    match create_reader(window, data) {
        Ok(inner) => Ok(CaptureReader { inner }),
        Err(e) => Err(format!("{e:?}")),
    }
}

/// `PcapReaderIterator::next`: the next block and its size, without consuming
/// it, or an error. A block has at least twelve bytes (pcapng; a pcap header has
/// 24, a packet at least 16), none beyond the capture, and holds the bytes of
/// its packet. The byte order is that of the last section. What is answered
/// follows from the capture, the size of the buffer and the calls so far. The
/// reader must not stand at a block that is too short for its own frame. On a
/// 32-bit target a captured length next to 2^32 is more than the reader adds up.
#[verifier::external_body]
fn next_item<'r>(r: &'r mut CaptureReader<'_>) -> (out: Result<(usize, Item<'r>), String>)
    requires
        !stage(*old(r)).asked,
        !is_runt_block(
            stage(*old(r)).data,
            stage(*old(r)).data.len() - stage(*old(r)).unread,
            stage(*old(r)).big_endian,
        ),
    ensures
        stage(*final(r)) == (Stage {
            calls: stage(*old(r)).calls + 1,
            big_endian: match out {
                Ok((_, Section(_, _, big))) => big,
                _ => stage(*old(r)).big_endian,
            },
            asked: true,
            ..stage(*old(r))
        }),
        match out {
            Ok((n, item)) => reading(stage(*old(r)).window, stage(*old(r)).data, stage(*old(r)).calls)
                == Reading::Block(n as nat, item@) && 12 <= n <= stage(*old(r)).unread && item@.data().len() <= n,
            Err(e) => reading(stage(*old(r)).window, stage(*old(r)).data, stage(*old(r)).calls) == Reading::Failure(
                e@,
            ),
        },
{
    match r.inner.next() {
        Ok((n, b)) => Ok((n, match b {
            LegacyHeader(h) => FileHeader(h.snaplen, h.network.0, h.version_major, h.version_minor),
            Legacy(p) => Record(p.ts_sec, p.ts_usec, p.caplen, p.origlen, p.data),
            NG(SectionHeader(s)) => Section(s.major_version, s.minor_version, s.big_endian()),
            NG(InterfaceDescription(i)) => Interface(i.linktype.0, i.snaplen),
            NG(EnhancedPacket(p)) => Enhanced(p.if_id, p.ts_high, p.ts_low, p.caplen, p.origlen, p.data),
            NG(SimplePacket(p)) => Simple(p.origlen, p.data),
            _ => Otherwise
        })),
        Err(e) => Err(format!("{e:?}"))
    }
}

/// `PcapReaderIterator::consume`: drops the block that was answered last.
#[verifier::external_body]
fn consume(r: &mut CaptureReader<'_>, n: usize)
    requires
        stage(*old(r)).asked,
        stage(*old(r)).calls > 0,
        n <= stage(*old(r)).unread,
        ({
            let last = (stage(*old(r)).calls - 1) as nat;
            reading(stage(*old(r)).window, stage(*old(r)).data, last) matches Reading::Block(size, _) && size == n
        }),
    ensures
        stage(*final(r)) == (Stage {
            unread: (stage(*old(r)).unread - n) as nat,
            asked: false,
            ..stage(*old(r))
        }),
{
    r.inner.consume(n)
}

/// `PcapReaderIterator::refill`: fetches more bytes of the capture into the
/// buffer; `false` where reading fails, which it never does from memory.
#[verifier::external_body]
fn refill(r: &mut CaptureReader<'_>) -> (ok: bool)
    requires
        stage(*old(r)).asked,
        stage(*old(r)).calls > 0,
        ({
            let last = (stage(*old(r)).calls - 1) as nat;
            reading(stage(*old(r)).window, stage(*old(r)).data, last) is Failure
        }),
    ensures
        stage(*final(r)) == (Stage { asked: false, ..stage(*old(r)) }),
        ok,
{
    r.inner.refill().is_ok()
}

/// What an error of the reader, in words, means for the walk.
pub open spec fn failure_of(error: Seq<char>) -> FailureModel {
    if error == "Eof"@ {
        FailureModel::Eof
    } else if has_prefix(error, "Incomplete("@) {
        FailureModel::Incomplete
    } else if error == "BufferTooSmall"@ {
        FailureModel::BufferTooSmall
    } else if error == "UnexpectedEof"@ {
        FailureModel::UnexpectedEof
    } else {
        FailureModel::Other(error)
    }
}

/// What an error of the reader, in words, means for the walk: the end of the
/// capture, an incomplete block, a block that claims too much, an end within a
/// block, or anything else.
pub fn classify(error: String) -> (r: Failure)
    ensures
        r@ == failure_of(error@),
{
    let e: Vec<char> = chars_of(error.as_str());
    let e = e.as_slice();
    if is_word(e, "Eof") {
        Failure::Eof
    } else if starts_with_word(e, "Incomplete(") {
        Failure::Incomplete
    } else if is_word(e, "BufferTooSmall") {
        Failure::BufferTooSmall
    } else if is_word(e, "UnexpectedEof") {
        Failure::UnexpectedEof
    } else {
        Failure::Other(error)
    }
}

/// The walk after the `n`th answer of the reader. Of a block that is too short for
/// its own frame the reader is not asked: it is corrupt.
pub open spec fn advanced(w: Walk, window: nat, data: Seq<u8>, n: nat, dup_window: i128) -> Walk {
    if w.done {
        w
    } else if is_runt_block(data, w.report.consumed as int, w.big_endian) {
        with_failure(w, FailureModel::BufferTooSmall)
    } else {
        match reading(window, data, n) {
            Reading::Block(size, item) => with_block(w, size, item, dup_window),
            Reading::Failure(e) => with_failure(w, failure_of(e)),
        }
    }
}

/// The walk after the first `n` answers of the reader.
pub open spec fn walked(w: Walk, window: nat, data: Seq<u8>, n: nat, dup_window: i128) -> Walk
    decreases n,
{
    if n == 0 {
        w
    } else {
        advanced(walked(w, window, data, (n - 1) as nat, dup_window), window, data, (n - 1) as nat, dup_window)
    }
}

/// The walk at its end: after the first answers that stop it.
pub open spec fn walked_out(w: Walk, window: nat, data: Seq<u8>, dup_window: i128) -> Walk {
    let n = choose|n: nat| (#[trigger] walked(w, window, data, n, dup_window)).done;
    walked(w, window, data, n, dup_window)
}

/// The report on the capture `data`, of which `magic` is the start and `total`
/// the size.
pub open spec fn analysis_of(magic: Seq<u8>, data: Seq<u8>, total: nat, c: Settings) -> ReportModel {
    match format_of(magic) {
        None => no_capture(magic, total, c),
        Some(format) => match opening(window_for(total), data) {
            Some(e) => unopened(magic, total, format, e, c),
            None => finished(
                walked_out(fresh_walk(magic, total, format), window_for(total), data, c.dup_window),
                c,
            ),
        },
    }
}

/// A walk that is over stays as it is.
proof fn lemma_over_is_over(w: Walk, window: nat, data: Seq<u8>, n: nat, m: nat, dup_window: i128)
    requires
        n <= m,
        walked(w, window, data, n, dup_window).done,
    ensures
        walked(w, window, data, m, dup_window) == walked(w, window, data, n, dup_window),
    decreases m - n,
{
    if n < m {
        lemma_over_is_over(w, window, data, n, (m - 1) as nat, dup_window);
    }
}

proof fn lemma_walked_out(w: Walk, window: nat, data: Seq<u8>, n: nat, dup_window: i128)
    requires
        walked(w, window, data, n, dup_window).done,
    ensures
        walked_out(w, window, data, dup_window) == walked(w, window, data, n, dup_window),
{
    let m = choose|m: nat| (#[trigger] walked(w, window, data, m, dup_window)).done;
    if n <= m {
        lemma_over_is_over(w, window, data, n, m, dup_window);
    } else {
        lemma_over_is_over(w, window, data, m, n, dup_window);
    }
}

/// Walks over all blocks of a reader that stands at the start of a capture.
#[verifier::rlimit(40)]
fn walk_blocks(reader: CaptureReader<'_>, data: &[u8], start: Analysis, c: &Config) -> (a: Analysis)
    requires
        stage(reader).data == data@,
        stage(reader).calls == 0,
        stage(reader).unread == stage(reader).data.len(),
        !stage(reader).big_endian,
        !stage(reader).asked,
        data@.len() + 100 <= usize::MAX,
        start@.wf(),
        !start@.done,
        !start@.waiting,
        !start@.big_endian,
        start@.report.packets == 0,
        start@.report.consumed == 0,
    ensures
        a@ == walked_out(start@, stage(reader).window, data@, c@.dup_window),
        a@.wf(),
        a@.done,
{
    let ghost window = stage(reader).window;
    let ghost w = start@;
    let mut reader = reader;
    let mut a = start;
    let ghost mut n: nat = 0;
    while !a.is_done()
        invariant
            a@.wf(),
            a@ == walked(w, window, data@, n, c@.dup_window),
            data@.len() + 100 <= usize::MAX,
            !a@.done ==> stage(reader) == (Stage {
                window,
                data: data@,
                calls: n,
                unread: (data@.len() - a@.report.consumed) as nat,
                big_endian: a@.big_endian,
                asked: false,
            }),
            12 * a@.report.packets <= a@.report.consumed <= data@.len(),
        decreases
            data@.len() - a@.report.consumed,
            (if a@.done {
                0int
            } else if a@.waiting {
                1
            } else {
                2
            }),
    {
        if at_runt_block(data, a.consumed(), a.is_big_endian()) {
            a.failure(Failure::BufferTooSmall);
        } else {
            let size: usize;
            match next_item(&mut reader) {
                Ok((len, item)) => {
                    assert(a@.has_room(len as nat, item@));
                    a.block(len, &item, c);
                    size = len;
                },
                Err(e) => {
                    if a.failure(classify(e)) {
                        if !refill(&mut reader) {
                            a.refill_failed();
                        }
                    }
                    size = 0;
                },
            }
            if size > 0 {
                consume(&mut reader, size);
            }
        }
        proof {
            n = n + 1;
        }
    }
    proof {
        lemma_walked_out(w, window, data@, n, c@.dup_window);
    }
    a
}

/// The analyzer: `magic` holds the first bytes, for the detection of the
/// container, `data` the whole capture, and `total` is the size of the file.
pub fn analyze_core(magic: &[u8], data: &[u8], total: usize, c: &Config) -> (r: Report)
    requires
        data@.len() + 100 <= usize::MAX,
        total + 65_536 <= usize::MAX,
    ensures
        r@ == analysis_of(magic@, data@, total as nat, c@),
        r@.wf(),
        r@.conformance == whole(100) <==> r@.intake == Intake::Accept && r@.score == whole(100),
{
    proof {
        lemma_hundred();
        if format_of(magic@) is None {
            law_not_a_capture_is_rejected(magic@, data@, total as nat, c@);
        } else if opening(window_for(total as nat), data@) is Some {
            law_unreadable_capture_is_rejected(magic@, data@, total as nat, c@);
        }
    }
    match Analysis::begin(magic, total, c) {
        Err(report) => report,
        Ok(start) => match open_reader(window_size(total), data) {
            Err(e) => start.refused(e.as_str(), c),
            Ok(reader) => walk_blocks(reader, data, start, c).finish(c),
        },
    }
}

/// Parses a whole capture in memory and gives the full report on it. Its
/// conformance is one hundred percent if and only if it is accepted and was
/// parsed whole.
pub fn analyze(data: &[u8], c: &Config) -> (r: Report)
    requires
        data@.len() + 65_536 <= usize::MAX,
    ensures
        r@ == analysis_of(data@, data@, data@.len(), c@),
        r@.wf(),
        r@.conformance == whole(100) <==> r@.intake == Intake::Accept && r@.score == whole(100),
{
    analyze_core(data, data, data.len(), c)
}

/// Streaming gives what reading at once gives: of the start of the file only the
/// first four bytes matter, so a report made with any start that holds them, or
/// with the whole of a shorter file, is the same.
pub proof fn law_streaming_matches_in_memory(data: Seq<u8>, start: int, c: Settings)
    requires
        4 <= start <= data.len() || start == data.len(),
    ensures
        analysis_of(data.take(start), data, data.len(), c) == analysis_of(data, data, data.len(), c),
{
    let magic = data.take(start);
    if start == data.len() {
        assert(magic =~= data);
    } else {
        assert(magic[0] == data[0] && magic[1] == data[1] && magic[2] == data[2] && magic[3] == data[3]);
    }
    assert(format_of(magic) == format_of(data));
    assert(tick_of(magic) == tick_of(data));
    assert(endian_of(magic) == endian_of(data));
    assert(precision_of(magic) == precision_of(data));
}

/// A file without the magic bytes of a capture is rejected, with no conformance
/// at all.
pub proof fn law_not_a_capture_is_rejected(magic: Seq<u8>, data: Seq<u8>, total: nat, c: Settings)
    requires
        format_of(magic) is None,
    ensures
        analysis_of(magic, data, total, c).format == Format::Unknown,
        analysis_of(magic, data, total, c).intake == Intake::Reject,
        analysis_of(magic, data, total, c).conformance == zero(),
{
    crate::notices::law_no_capture_is_rejected(
        ReportModel {
            note: "no pcap/pcapng magic bytes — not a packet capture"@,
            ..fresh_report(magic, total)
        },
        c,
    );
}

/// A capture that the reader cannot open is rejected, with no conformance at all.
pub proof fn law_unreadable_capture_is_rejected(magic: Seq<u8>, data: Seq<u8>, total: nat, c: Settings)
    requires
        format_of(magic) is Some,
        opening(window_for(total), data) is Some,
    ensures
        analysis_of(magic, data, total, c).intake == Intake::Reject,
        analysis_of(magic, data, total, c).conformance == zero(),
{
    let error = opening(window_for(total), data)->0;
    let r = ReportModel {
        format: format_of(magic)->0,
        note: "reader init failed: "@ + error,
        ..fresh_report(magic, total)
    };
    let checks = all_checks(r, c);
    assert(checks[1] == integrity_check(r));
    assert(has_level(checks, Level::Fail));
}

proof fn lemma_walk_adds_up(w: Walk, window: nat, data: Seq<u8>, n: nat, dup_window: i128)
    requires
        adds_up(w.report),
    ensures
        adds_up(walked(w, window, data, n, dup_window).report),
    decreases n,
{
    if n > 0 {
        let m = (n - 1) as nat;
        lemma_walk_adds_up(w, window, data, m, dup_window);
        if let Reading::Block(size, item) = reading(window, data, m) {
            law_block_adds_up(walked(w, window, data, m, dup_window), size, item, dup_window);
        }
    }
}

/// The tallies of every report fit together, whatever the capture holds.
pub proof fn law_report_adds_up(magic: Seq<u8>, data: Seq<u8>, total: nat, c: Settings)
    ensures
        adds_up(analysis_of(magic, data, total, c)),
{
    if let Some(format) = format_of(magic) {
        let w = fresh_walk(magic, total, format);
        let window = window_for(total);
        let n = choose|n: nat| (#[trigger] walked(w, window, data, n, c.dup_window)).done;
        lemma_walk_adds_up(w, window, data, n, c.dup_window);
    }
}

/// What the errors of the reader mean.
pub proof fn law_errors_of_the_reader(error: Seq<char>)
    ensures
        failure_of(error) is Eof <==> error == "Eof"@,
        failure_of(error) is BufferTooSmall <==> error == "BufferTooSmall"@,
        failure_of(error) is UnexpectedEof <==> error == "UnexpectedEof"@,
        failure_of(error) is Incomplete <==> has_prefix(error, "Incomplete("@),
        failure_of(error) matches FailureModel::Other(e) ==> e == error,
{
    reveal_strlit("Eof");
    reveal_strlit("Incomplete(");
    reveal_strlit("BufferTooSmall");
    reveal_strlit("UnexpectedEof");
    if has_prefix(error, "Incomplete("@) {
        assert(error.take(11)[0] == error[0]);
        assert("Incomplete("@[0] == 'I');
        assert("Eof"@[0] == 'E' && "BufferTooSmall"@[0] == 'B' && "UnexpectedEof"@[0] == 'U');
    }
    assert("BufferTooSmall"@[0] != "UnexpectedEof"@[0]);
    assert("BufferTooSmall"@[0] != "Eof"@[0]);
    assert("UnexpectedEof"@[0] != "Eof"@[0]);
}

/// A runt block is one of type `0x80000001` with a length of four to eleven bytes, both
/// read in the byte order of its section.
pub proof fn law_runt_blocks(b: Seq<u8>)
    requires
        b.len() >= 8,
    ensures
        is_runt_head(b, true) <==> {
            let kind = 0x100_0000 * b[0] + 0x1_0000 * b[1] + 0x100 * b[2] + b[3];
            let length = 0x100_0000 * b[4] + 0x1_0000 * b[5] + 0x100 * b[6] + b[7];
            kind == 0x8000_0001 && 4 <= length < 12
        },
        is_runt_head(b, false) <==> {
            let kind = 0x100_0000 * b[3] + 0x1_0000 * b[2] + 0x100 * b[1] + b[0];
            let length = 0x100_0000 * b[7] + 0x1_0000 * b[6] + 0x100 * b[5] + b[4];
            kind == 0x8000_0001 && 4 <= length < 12
        },
{
}

/// The walk raises no notice.
proof fn lemma_walk_has_no_notices(w: Walk, window: nat, data: Seq<u8>, n: nat, dup_window: i128)
    requires
        w.report.notices.len() == 0,
    ensures
        walked(w, window, data, n, dup_window).report.notices.len() == 0,
        walked(w, window, data, n, dup_window).report.format == w.report.format,
        walked(w, window, data, n, dup_window).report.total == w.report.total,
    decreases n,
{
    if n > 0 {
        lemma_walk_has_no_notices(w, window, data, (n - 1) as nat, dup_window);
    }
}

/// The report on a capture with packets is a judged one: what it was judged by, it
/// tells.
proof fn lemma_report_is_judged(magic: Seq<u8>, data: Seq<u8>, total: nat, c: Settings) -> (base: ReportModel)
    requires
        analysis_of(magic, data, total, c).packets > 0,
    ensures
        ({
            let r = analysis_of(magic, data, total, c);
            &&& r == crate::notices::judged(base, c)
            &&& base.notices.len() == 0
            &&& base.format != Format::Unknown
            &&& base == (ReportModel {
                notices: base.notices,
                checks: base.checks,
                intake: base.intake,
                conformance: base.conformance,
                ..r
            })
            &&& base.score == crate::figures::score_of(base.consumed, base.total)
            &&& adds_up(r)
        }),
{
    law_report_adds_up(magic, data, total, c);
    let format = format_of(magic)->0;
    let w = fresh_walk(magic, total, format);
    let window = window_for(total);
    let n = choose|n: nat| (#[trigger] walked(w, window, data, n, c.dup_window)).done;
    lemma_walk_has_no_notices(w, window, data, n, c.dup_window);
    let base = crate::capture::summed_up(walked(w, window, data, n, c.dup_window).report);
    base
}

/// What is found wrong with a capture, by the figures of its own report: each finding
/// is raised exactly where its share of the packets, its count or its gap says so.
#[verifier::rlimit(30)]
pub proof fn law_findings_of_a_capture(magic: Seq<u8>, data: Seq<u8>, total: nat, c: Settings)
    requires
        0 < analysis_of(magic, data, total, c).packets < 0x400_0000_0000,
    ensures
        ({
            let r = analysis_of(magic, data, total, c);
            let s = r.stats;
            let share = |part: nat| (200 * part + r.packets) / (2 * r.packets);
            &&& has_notice(r.notices, "offload_superframes"@) <==> share(s.oversize) >= 1
            &&& has_notice(r.notices, "span_double_capture"@) <==> share(s.dup_frames) >= c.dup_notice_pct
            &&& has_notice(r.notices, "inner_truncation"@) <==> share(s.inner_trunc) >= 1
            &&& has_notice(r.notices, "vxlan_legacy_port"@) <==> s.vxlan_legacy > 0
            &&& has_notice(r.notices, "vxlan_rfc7348_iflag"@) <==> s.vxlan_bad > 0
            &&& has_notice(r.notices, "mirror_no_unicast"@) <==> s.decoded >= 200 && 100 * s.unicast < 2 * s.decoded
                && 100 * (s.arp + s.broadcast + s.multicast) > 90 * s.decoded
            &&& has_notice(r.notices, "timestamps_implausible"@) <==> s.ns_maxgap > 315_360_000_000_000_000
            &&& has_notice(r.notices, "timestamps_discontinuous"@) <==> 86_400_000_000_000 < s.ns_maxgap
                <= 315_360_000_000_000_000
            &&& r.notices.len() > 0 ==> r.intake != Intake::Accept
        }),
{
    let base = lemma_report_is_judged(magic, data, total, c);
    crate::notices::law_offload_is_reported(base, c);
    crate::notices::law_double_capture_is_reported(base, c);
    crate::notices::law_inner_truncation_is_reported(base, c);
    crate::notices::law_odd_vxlan_is_reported(base, c);
    crate::notices::law_blind_mirror_is_reported(base, c);
    crate::notices::law_time_jump_is_reported(base, c);
    crate::notices::law_verdict(base, c);
}

/// The verdict on a capture with packets, by the figures of its own report. It is
/// rejected if and only if it is damaged or was parsed to less than 99.9 percent, or
/// holds truncated packets, or shows too few devices; and it is accepted only if
/// snap length, size, devices, duration and streams are all as they should be.
#[verifier::rlimit(30)]
pub proof fn law_verdict_on_a_capture(magic: Seq<u8>, data: Seq<u8>, total: nat, c: Settings)
    requires
        analysis_of(magic, data, total, c).packets > 0,
        analysis_of(magic, data, total, c).consumed <= total,
        0 < total < 0x10_0000_0000_0000,
        analysis_of(magic, data, total, c).total == total,
    ensures
        ({
            let r = analysis_of(magic, data, total, c);
            let damaged = !r.clean || 1_000_000_000_000_000 * r.consumed + r.total <= 999_000_000_000_000 * r.total;
            let whole = r.clean && 1_000_000_000_000_000 * r.consumed >= 999_000_000_000_000 * r.total + r.total;
            let failed = r.truncated_pkts > 0 || r.src_macs < c.devices_warn;
            let deviates = 0 < r.snaplen < c.full_snaplen || r.total > c.size_limit || r.total < 65_536 || r.src_macs
                < c.devices_ok || (r.has_time && r.span < c.duration_min) || (r.stats.tcp_flows > 0 && (r.stats.seq_gaps
                > 0 || r.stats.acked_unseen > 0));
            &&& damaged || failed ==> r.intake == Intake::Reject
            &&& whole && !failed ==> r.intake != Intake::Reject
            &&& deviates ==> r.intake != Intake::Accept
            &&& whole && !failed && !deviates && r.notices.len() == 0 ==> r.intake == Intake::Accept
        }),
{
    let base = lemma_report_is_judged(magic, data, total, c);
    crate::notices::law_container_integrity(base, c);
    crate::notices::law_container_format(base, c);
    crate::notices::law_full_frames(base, c);
    crate::notices::law_file_size(base, c);
    crate::notices::law_few_devices(base, c);
    crate::notices::law_time_window(base, c);
    crate::notices::law_criteria_that_apply(base, c);
    crate::notices::law_verdict(base, c);
    let k = analysis_of(magic, data, total, c).checks;
    if base.stats.tcp_flows > 0 {
        crate::notices::law_missing_segments(base, c);
    }
    lemma_levels_of_a_capture(base, c);
}

/// The levels of the criteria one by one are all that there are.
proof fn lemma_levels_of_a_capture(r: ReportModel, c: Settings)
    requires
        r.format != Format::Unknown,
    ensures
        ({
            let k = crate::notices::judged(r, c).checks;
            let d: int = if r.has_time {
                6
            } else {
                5
            };
            forall|level: Level|
                level != Level::Info ==> (#[trigger] has_level(k, level) <==> k[0].level == level || k[1].level == level
                    || k[2].level == level || k[3].level == level || k[4].level == level || (r.has_time && k[5].level
                    == level) || (r.stats.tcp_flows > 0 && k[d].level == level))
        }),
{
    let k = crate::notices::judged(r, c).checks;
    let d: int = if r.has_time {
        6
    } else {
        5
    };
    assert forall|level: Level| level != Level::Info implies (#[trigger] has_level(k, level) <==> k[0].level == level
        || k[1].level == level || k[2].level == level || k[3].level == level || k[4].level == level || (r.has_time
        && k[5].level == level) || (r.stats.tcp_flows > 0 && k[d].level == level)) by {
        if has_level(k, level) {
            let i = choose|i: int| 0 <= i < k.len() && (#[trigger] k[i]).level == level;
            assert(k[k.len() - 1].level == Level::Info);
            if r.stats.tcp_flows > 0 {
                assert(k[d + 1].level == Level::Info);
                assert(k.len() == d + 3);
            } else {
                assert(k.len() == d + 1);
            }
        }
    }
}

/// A runt block stops the walk as one that claims too much does: the capture is damaged.
pub proof fn law_runt_block_stops_the_walk(w: Walk, window: nat, data: Seq<u8>, n: nat, dup_window: i128)
    requires
        !w.done,
        !w.report.clean,
        format_of(data) == Some(Format::PcapNg),
        is_runt_head(tail(data, w.report.consumed as int), w.big_endian),
    ensures
        advanced(w, window, data, n, dup_window).done,
        !advanced(w, window, data, n, dup_window).report.clean,
        advanced(w, window, data, n, dup_window).report.note.len() > 0,
        advanced(w, window, data, n, dup_window).report.packets == w.report.packets,
{
    crate::capture::law_failures(w, FailureModel::BufferTooSmall);
}

/// What a report says of the container: that it was read to its end, or why not.
pub proof fn law_notes(magic: Seq<u8>, data: Seq<u8>, total: nat, w: Walk, c: Settings)
    ensures
        format_of(magic) is None ==> analysis_of(magic, data, total, c).note
            == "no pcap/pcapng magic bytes — not a packet capture"@,
        format_of(magic) is Some && opening(window_for(total), data) is Some ==> analysis_of(magic, data, total, c).note
            == "reader init failed: "@ + opening(window_for(total), data)->0,
        w.report.clean && w.report.note.len() == 0 ==> finished(w, c).note == "clean: parsed to end of file"@,
        !w.report.clean ==> finished(w, c).note == w.report.note,
{
}

} // verus!
