//! The result of checking one capture.

use vstd::prelude::*;

use crate::binary64::Binary64;
use crate::frame::Format;
#[allow(unused_imports)]
use crate::moments::is_span;
use crate::stats::Stats;
#[allow(unused_imports)]
use crate::stats::Tally;

verus! {

/// How a criterion came out. Information is not scored.
#[derive(Clone, Copy, Debug, PartialEq, Eq, Structural)]
pub enum Level {
    Pass,
    Warn,
    Fail,
    Info,
}

impl Level {
    pub open spec fn spec_name(self) -> Seq<char> {
        match self {
            Level::Pass => "pass"@,
            Level::Warn => "warn"@,
            Level::Fail => "fail"@,
            Level::Info => "info"@,
        }
    }

    pub fn name(self) -> (r: &'static str)
        ensures
            r@ == self.spec_name(),
    {
        match self {
            Level::Pass => "pass",
            Level::Warn => "warn",
            Level::Fail => "fail",
            Level::Info => "info",
        }
    }
}

/// The verdict on a capture.
#[derive(Clone, Copy, Debug, PartialEq, Eq, Structural)]
pub enum Intake {
    Accept,
    Review,
    Reject,
}

impl Intake {
    pub open spec fn spec_name(self) -> Seq<char> {
        match self {
            Intake::Accept => "ACCEPT"@,
            Intake::Review => "REVIEW"@,
            Intake::Reject => "REJECT"@,
        }
    }

    pub fn name(self) -> (r: &'static str)
        ensures
            r@ == self.spec_name(),
    {
        match self {
            Intake::Accept => "ACCEPT",
            Intake::Review => "REVIEW",
            Intake::Reject => "REJECT",
        }
    }
}

/// One evaluated collection criterion.
pub struct Check {
    pub level: Level,
    pub label: String,
    pub detail: String,
}

#[verifier::ext_equal]
pub struct CheckModel {
    pub level: Level,
    pub label: Seq<char>,
    pub detail: Seq<char>,
}

impl View for Check {
    type V = CheckModel;

    open spec fn view(&self) -> CheckModel {
        CheckModel { level: self.level, label: self.label@, detail: self.detail@ }
    }
}

/// A finding on the quality of the capture, beyond the criteria.
pub struct Notice {
    pub code: &'static str,
    pub title: String,
    pub text: String,
}

#[verifier::ext_equal]
pub struct NoticeModel {
    pub code: Seq<char>,
    pub title: Seq<char>,
    pub text: Seq<char>,
}

impl View for Notice {
    type V = NoticeModel;

    open spec fn view(&self) -> NoticeModel {
        NoticeModel { code: self.code@, title: self.title@, text: self.text@ }
    }
}

pub open spec fn checks_view(v: Seq<Check>) -> Seq<CheckModel> {
    Seq::new(v.len(), |i: int| v[i]@)
}

pub open spec fn notices_view(v: Seq<Notice>) -> Seq<NoticeModel> {
    Seq::new(v.len(), |i: int| v[i]@)
}

/// The full result of checking one capture.
pub struct Report {
    pub format: Format,
    pub linktype: String,
    pub packets: usize,
    pub consumed: usize,
    pub total: usize,
    /// The share of the file that was parsed, in percent.
    pub score: Binary64,
    pub clean: bool,
    pub note: String,
    pub snaplen: u32,
    pub truncated_pkts: u64,
    pub src_macs: usize,
    pub ip_addrs: usize,
    /// Seconds from the first to the last timestamp.
    pub duration: Binary64,
    /// The same in whole nanoseconds.
    pub span: u128,
    pub has_time: bool,
    pub ver: String,
    pub endian: &'static str,
    pub ts_prec: &'static str,
    pub iface_count: usize,
    pub wire_bytes: u64,
    pub stats: Stats,
    pub checks: Vec<Check>,
    pub notices: Vec<Notice>,
    pub intake: Intake,
    /// In percent: one hundred only when every criterion passes.
    pub conformance: Binary64,
}

/// The model of `Report`.
#[verifier::ext_equal]
pub struct ReportModel {
    pub format: Format,
    pub linktype: Seq<char>,
    pub packets: nat,
    pub consumed: nat,
    pub total: nat,
    pub score: Binary64,
    pub clean: bool,
    pub note: Seq<char>,
    pub snaplen: u32,
    pub truncated_pkts: nat,
    pub src_macs: nat,
    pub ip_addrs: nat,
    pub duration: Binary64,
    pub span: u128,
    pub has_time: bool,
    pub ver: Seq<char>,
    pub endian: Seq<char>,
    pub ts_prec: Seq<char>,
    pub iface_count: nat,
    pub wire_bytes: u64,
    pub stats: Tally,
    pub checks: Seq<CheckModel>,
    pub notices: Seq<NoticeModel>,
    pub intake: Intake,
    pub conformance: Binary64,
}

impl View for Report {
    type V = ReportModel;

    open spec fn view(&self) -> ReportModel {
        ReportModel {
            format: self.format,
            linktype: self.linktype@,
            packets: self.packets as nat,
            consumed: self.consumed as nat,
            total: self.total as nat,
            score: self.score,
            clean: self.clean,
            note: self.note@,
            snaplen: self.snaplen,
            truncated_pkts: self.truncated_pkts as nat,
            src_macs: self.src_macs as nat,
            ip_addrs: self.ip_addrs as nat,
            duration: self.duration,
            span: self.span,
            has_time: self.has_time,
            ver: self.ver@,
            endian: self.endian@,
            ts_prec: self.ts_prec@,
            iface_count: self.iface_count as nat,
            wire_bytes: self.wire_bytes,
            stats: self.stats@,
            checks: checks_view(self.checks@),
            notices: notices_view(self.notices@),
            intake: self.intake,
            conformance: self.conformance,
        }
    }
}

impl ReportModel {
    /// The two scores are figures of at most one hundred percent, and the duration
    /// is one in the range of its kind.
    pub open spec fn wf(self) -> bool {
        &&& self.score.wf() && self.score.exp <= 26 && (self.score.mant > 0 ==> self.score.exp >= -250)
        &&& self.conformance.wf() && self.conformance.exp <= 26
        &&& is_span(self.duration)
        &&& self.stats.wf()
    }
}

/// The words for the levels and for the verdicts.
pub proof fn law_words(level: Level, intake: Intake)
    ensures
        level.spec_name() == (match level {
            Level::Pass => "pass"@,
            Level::Warn => "warn"@,
            Level::Fail => "fail"@,
            Level::Info => "info"@,
        }),
        intake.spec_name() == (match intake {
            Intake::Accept => "ACCEPT"@,
            Intake::Review => "REVIEW"@,
            Intake::Reject => "REJECT"@,
        }),
{
}

} // verus!
