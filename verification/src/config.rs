//! The tunable parameters, and the flat `key: value` file that overrides them.

use vstd::prelude::*;

use crate::decimals::parse_nanos;
#[allow(unused_imports)]
use crate::decimals::nanos_of;
use crate::words::{chars_of, find, head_of, is_word, parse_unsigned, rest_of, strip, text_of, trim, Margin};
#[allow(unused_imports)]
use crate::text::decimal;
#[allow(unused_imports)]
use crate::words::{before, behind, is_margin, lemma_place_of, place_of, stripped, trimmed, unsigned_of};

verus! {

/// All tunable parameters.
pub struct Config {
    pub listen_addr: String,
    /// If not empty, every request must carry this token.
    pub auth_token: String,
    /// Bytes accepted by an upload.
    pub max_upload: usize,
    /// Bytes; a single file should stay below this.
    pub size_limit: usize,
    /// The snap length of full frames.
    pub full_snaplen: u32,
    /// Nanoseconds within which a recurring packet is a duplicate.
    pub dup_window: i128,
    /// Percentage of duplicates that raises the double-capture notice.
    pub dup_notice_pct: u64,
    /// From this many devices on the diversity is fine.
    pub devices_ok: usize,
    /// Below this many devices the diversity fails.
    pub devices_warn: usize,
    /// Nanoseconds; a shorter capture is a deviation.
    pub duration_min: i128,
}

/// The model of `Config`.
#[verifier::ext_equal]
pub struct Settings {
    pub listen_addr: Seq<char>,
    pub auth_token: Seq<char>,
    pub max_upload: usize,
    pub size_limit: usize,
    pub full_snaplen: u32,
    pub dup_window: i128,
    pub dup_notice_pct: u64,
    pub devices_ok: usize,
    pub devices_warn: usize,
    pub duration_min: i128,
}

impl View for Config {
    type V = Settings;

    open spec fn view(&self) -> Settings {
        Settings {
            listen_addr: self.listen_addr@,
            auth_token: self.auth_token@,
            max_upload: self.max_upload,
            size_limit: self.size_limit,
            full_snaplen: self.full_snaplen,
            dup_window: self.dup_window,
            dup_notice_pct: self.dup_notice_pct,
            devices_ok: self.devices_ok,
            devices_warn: self.devices_warn,
            duration_min: self.duration_min,
        }
    }
}

pub const MEBIBYTE: usize = 1_048_576;

/// The parameters of the collection guide.
pub open spec fn default_settings() -> Settings {
    Settings {
        listen_addr: "127.0.0.1:8088"@,
        auth_token: Seq::empty(),
        max_upload: 805_306_368,
        size_limit: 524_288_000,
        full_snaplen: 65535,
        dup_window: 5_000_000,
        dup_notice_pct: 10,
        devices_ok: 5,
        devices_warn: 2,
        duration_min: 5_000_000_000,
    }
}

impl Default for Config {
    fn default() -> (r: Config)
        ensures
            r@ == default_settings(),
    {
        Config {
            listen_addr: String::from_str("127.0.0.1:8088"),
            auth_token: String::new(),
            max_upload: 805_306_368,
            size_limit: 524_288_000,
            full_snaplen: 65535,
            dup_window: 5_000_000,
            dup_notice_pct: 10,
            devices_ok: 5,
            devices_warn: 2,
            duration_min: 5_000_000_000,
        }
    }
}

/// The value as a number of at most `max`, or else the one that was set before.
pub open spec fn number_or(v: Seq<char>, max: nat, prior: nat) -> nat {
    match unsigned_of(v, max) {
        Some(n) => n,
        None => prior,
    }
}

/// The value as a number of mebibytes, in bytes.
pub open spec fn mebibytes_or(v: Seq<char>, prior: usize) -> usize {
    match unsigned_of(v, usize::MAX as nat) {
        Some(n) => (n as usize).wrapping_mul(MEBIBYTE),
        None => prior,
    }
}

/// The value as nanoseconds, or else those that were set before.
pub open spec fn nanos_or(v: Seq<char>, unit: nat, up: bool, prior: i128) -> i128 {
    match nanos_of(v, unit, up) {
        Some(n) => n as i128,
        None => prior,
    }
}

/// The settings with `key` set to `v`. An unknown key, or a value that is no
/// number where one is asked for, changes nothing.
pub open spec fn with_setting(s: Settings, key: Seq<char>, v: Seq<char>) -> Settings {
    if key == "listen_addr"@ {
        Settings { listen_addr: v, ..s }
    } else if key == "auth_token"@ {
        Settings { auth_token: v, ..s }
    } else if key == "max_upload_mb"@ {
        Settings { max_upload: mebibytes_or(v, s.max_upload), ..s }
    } else if key == "size_limit_mb"@ {
        Settings { size_limit: mebibytes_or(v, s.size_limit), ..s }
    } else if key == "full_snaplen"@ {
        Settings { full_snaplen: number_or(v, u32::MAX as nat, s.full_snaplen as nat) as u32, ..s }
    } else if key == "dup_window_ms"@ {
        Settings { dup_window: nanos_or(v, 6, false, s.dup_window), ..s }
    } else if key == "dup_notice_pct"@ {
        Settings { dup_notice_pct: number_or(v, u64::MAX as nat, s.dup_notice_pct as nat) as u64, ..s }
    } else if key == "devices_min_ok"@ {
        Settings { devices_ok: number_or(v, usize::MAX as nat, s.devices_ok as nat) as usize, ..s }
    } else if key == "devices_min_warn"@ {
        Settings { devices_warn: number_or(v, usize::MAX as nat, s.devices_warn as nat) as usize, ..s }
    } else if key == "duration_min_s"@ {
        Settings { duration_min: nanos_or(v, 9, true, s.duration_min), ..s }
    } else {
        s
    }
}

/// The part of a line before its comment, trimmed.
pub open spec fn code_of(line: Seq<char>) -> Seq<char> {
    trimmed(before(line, '#'))
}

/// The key of a line.
pub open spec fn key_of(code: Seq<char>) -> Seq<char> {
    trimmed(before(code, ':'))
}

/// The value of a line, its quotes stripped.
pub open spec fn value_of(code: Seq<char>) -> Seq<char> {
    trimmed(stripped(trimmed(behind(code, ':')), Margin::Quotes))
}

/// The settings after one line; a line without a colon changes nothing.
pub open spec fn with_line(s: Settings, line: Seq<char>) -> Settings {
    let code = code_of(line);
    if place_of(code, ':') < code.len() {
        with_setting(s, key_of(code), value_of(code))
    } else {
        s
    }
}

/// The settings after all lines of a text.
pub open spec fn with_text(s: Settings, txt: Seq<char>) -> Settings
    decreases txt.len(),
    via with_text_ends
{
    if place_of(txt, '\n') < txt.len() {
        with_text(with_line(s, before(txt, '\n')), behind(txt, '\n'))
    } else {
        with_line(s, txt)
    }
}

#[via_fn]
proof fn with_text_ends(s: Settings, txt: Seq<char>) {
    lemma_place_of(txt, '\n');
}

fn parse_size(v: &[char]) -> (r: Option<usize>)
    ensures
        match r {
            Some(n) => unsigned_of(v@, usize::MAX as nat) == Some(n as nat),
            None => unsigned_of(v@, usize::MAX as nat) is None,
        },
{
    match parse_unsigned(v, usize::MAX as u64) {
        Some(n) => Some(n as usize),
        None => None,
    }
}

impl Config {
    fn set(&mut self, k: &[char], v: &[char])
        ensures
            final(self)@ == with_setting(old(self)@, k@, v@),
    {
        if is_word(k, "listen_addr") {
            self.listen_addr = text_of(v);
        } else if is_word(k, "auth_token") {
            self.auth_token = text_of(v);
        } else if is_word(k, "max_upload_mb") {
            if let Some(n) = parse_size(v) {
                self.max_upload = n.wrapping_mul(MEBIBYTE);
            }
        } else if is_word(k, "size_limit_mb") {
            if let Some(n) = parse_size(v) {
                self.size_limit = n.wrapping_mul(MEBIBYTE);
            }
        } else if is_word(k, "full_snaplen") {
            if let Some(n) = parse_unsigned(v, u32::MAX as u64) {
                self.full_snaplen = n as u32;
            }
        } else if is_word(k, "dup_window_ms") {
            if let Some(n) = parse_nanos(v, 6, false) {
                self.dup_window = n;
            }
        } else if is_word(k, "dup_notice_pct") {
            if let Some(n) = parse_unsigned(v, u64::MAX) {
                self.dup_notice_pct = n;
            }
        } else if is_word(k, "devices_min_ok") {
            if let Some(n) = parse_size(v) {
                self.devices_ok = n;
            }
        } else if is_word(k, "devices_min_warn") {
            if let Some(n) = parse_size(v) {
                self.devices_warn = n;
            }
        } else if is_word(k, "duration_min_s") {
            if let Some(n) = parse_nanos(v, 9, true) {
                self.duration_min = n;
            }
        }
        assert(self@ =~= with_setting(old(self)@, k@, v@));
    }

    fn apply_line(&mut self, line: &[char])
        ensures
            final(self)@ == with_line(old(self)@, line@),
    {
        let code = trim(head_of(line, '#'));
        if find(code, ':') < code.len() {
            let k = trim(head_of(code, ':'));
            let v = trim(strip(trim(rest_of(code, ':')), Margin::Quotes));
            self.set(k, v);
        }
    }

    /// Applies a flat text of `key: value` lines: what follows a `#` is a comment,
    /// quotes around a value are stripped, and what cannot be read is skipped.
    pub fn apply_yaml(&mut self, txt: &str)
        ensures
            final(self)@ == with_text(old(self)@, txt@),
    {
        let all: Vec<char> = chars_of(txt);
        let mut rest = all.as_slice();
        while find(rest, '\n') < rest.len()
            invariant
                with_text(old(self)@, txt@) == with_text(self@, rest@),
            decreases rest@.len(),
        {
            proof {
                lemma_place_of(rest@, '\n');
            }
            self.apply_line(head_of(rest, '\n'));
            rest = rest_of(rest, '\n');
        }
        self.apply_line(rest);
    }
}

/// A line that is blank, or a comment and nothing else, changes nothing.
pub proof fn law_comments_change_nothing(s: Settings, line: Seq<char>)
    requires
        trimmed(before(line, '#')).len() == 0,
    ensures
        with_line(s, line) == s,
{
}

/// The text is read line by line: what the first lines set stays set until a
/// later line sets it again.
pub proof fn law_lines_apply_in_order(s: Settings, first: Seq<char>, rest: Seq<char>)
    requires
        !first.contains('\n'),
    ensures
        with_text(s, first + seq!['\n'] + rest) == with_text(with_line(s, first), rest),
{
    let txt = first + seq!['\n'] + rest;
    assert forall|i: int| 0 <= i < first.len() implies txt[i] != '\n' by {
        assert(txt[i] == first[i]);
        assert(first.contains(first[i]));
    }
    crate::words::lemma_first_place(txt, '\n', first.len());
    assert(before(txt, '\n') =~= first);
    assert(behind(txt, '\n') =~= rest);
}

/// Every number of the configuration has its key, and a number written out sets it
/// and nothing else. Sizes are in mebibytes, the window in milliseconds and the least
/// duration in seconds.
#[verifier::rlimit(30)]
pub proof fn law_numbers_have_their_keys(s: Settings, n: nat)
    requires
        n <= 4095,
    ensures
        ({
            let v = decimal(n);
            &&& with_setting(s, "max_upload_mb"@, v) == (Settings { max_upload: (n * 1_048_576) as usize, ..s })
            &&& with_setting(s, "size_limit_mb"@, v) == (Settings { size_limit: (n * 1_048_576) as usize, ..s })
            &&& with_setting(s, "full_snaplen"@, v) == (Settings { full_snaplen: n as u32, ..s })
            &&& with_setting(s, "dup_window_ms"@, v) == (Settings { dup_window: (n * 1_000_000) as i128, ..s })
            &&& with_setting(s, "dup_notice_pct"@, v) == (Settings { dup_notice_pct: n as u64, ..s })
            &&& with_setting(s, "devices_min_ok"@, v) == (Settings { devices_ok: n as usize, ..s })
            &&& with_setting(s, "devices_min_warn"@, v) == (Settings { devices_warn: n as usize, ..s })
            &&& with_setting(s, "duration_min_s"@, v) == (Settings { duration_min: (n * 1_000_000_000) as i128, ..s })
        }),
{
    let v = decimal(n);
    crate::words::law_decimal_reads_back(n);
    assert(crate::words::is_digit(v[0]));
    assert(unsigned_of(v, u32::MAX as nat) == Some(n));
    assert(unsigned_of(v, u64::MAX as nat) == Some(n));
    assert(unsigned_of(v, usize::MAX as nat) == Some(n));
    vstd::arithmetic::div_mod::lemma_small_mod((n * 1_048_576) as nat, (usize::MAX + 1) as nat);
    assert((n as usize).wrapping_mul(1_048_576) == n * 1_048_576);
    assert(vstd::arithmetic::power::pow(10, 6) == 1_000_000 && vstd::arithmetic::power::pow(10, 9) == 1_000_000_000)
        by {
        reveal(vstd::arithmetic::power::pow);
        reveal_with_fuel(vstd::arithmetic::power::pow, 10);
    }
    crate::decimals::law_whole_units_of_time(n, 6, false);
    crate::decimals::law_whole_units_of_time(n, 9, true);
    lemma_keys_differ();
}

/// The names of the parameters, in the order in which they are looked up.
spec fn keys() -> Seq<Seq<char>> {
    seq![
        "listen_addr"@,
        "auth_token"@,
        "max_upload_mb"@,
        "size_limit_mb"@,
        "full_snaplen"@,
        "dup_window_ms"@,
        "dup_notice_pct"@,
        "devices_min_ok"@,
        "devices_min_warn"@,
        "duration_min_s"@,
    ]
}

proof fn lemma_keys_differ()
    ensures
        keys().no_duplicates(),
        keys()[0] == "listen_addr"@,
        keys()[1] == "auth_token"@,
        keys()[2] == "max_upload_mb"@,
        keys()[3] == "size_limit_mb"@,
        keys()[4] == "full_snaplen"@,
        keys()[5] == "dup_window_ms"@,
        keys()[6] == "dup_notice_pct"@,
        keys()[7] == "devices_min_ok"@,
        keys()[8] == "devices_min_warn"@,
        keys()[9] == "duration_min_s"@,
{
    reveal_strlit("listen_addr");
    reveal_strlit("auth_token");
    reveal_strlit("max_upload_mb");
    reveal_strlit("size_limit_mb");
    reveal_strlit("full_snaplen");
    reveal_strlit("dup_window_ms");
    reveal_strlit("dup_notice_pct");
    reveal_strlit("devices_min_ok");
    reveal_strlit("devices_min_warn");
    reveal_strlit("duration_min_s");
    let k = keys();
    // the length and the second character tell them apart
    let lens = seq![11nat, 10, 13, 13, 12, 13, 14, 14, 16, 14];
    let thirds = seq!['s', 't', 'x', 'z', 'l', 'p', 'p', 'v', 'v', 'r'];
    assert(forall|i: int| 0 <= i < 10 ==> (#[trigger] k[i]).len() == lens[i] && k[i][2] == thirds[i]);
}

/// Address and token are taken as they are; a key that is none of the ten changes
/// nothing, nor does a value that is no number where one is asked for.
#[verifier::rlimit(30)]
pub proof fn law_other_keys_and_values(s: Settings, key: Seq<char>, v: Seq<char>)
    ensures
        with_setting(s, "listen_addr"@, v) == (Settings { listen_addr: v, ..s }),
        with_setting(s, "auth_token"@, v) == (Settings { auth_token: v, ..s }),
        key != "listen_addr"@ && key != "auth_token"@ && key != "max_upload_mb"@ && key != "size_limit_mb"@ && key
            != "full_snaplen"@ && key != "dup_window_ms"@ && key != "dup_notice_pct"@ && key != "devices_min_ok"@ && key
            != "devices_min_warn"@ && key != "duration_min_s"@ ==> with_setting(s, key, v) == s,
        v.len() == 0 && key != "listen_addr"@ && key != "auth_token"@ ==> with_setting(s, key, v) == s,
{
    lemma_keys_differ();
    if v.len() == 0 {
        reveal_strlit("inf");
        reveal_strlit("infinity");
        reveal_strlit("nan");
        assert(crate::words::place_of(v, 'e') == 0);
        assert(crate::decimals::lowered(v) =~= v);
        assert(before(v, 'e') =~= v);
        assert(before(v, '.') =~= v);
        assert(crate::decimals::decimal_of(v) is None);
    }
}

/// A line names a parameter, a colon and its value, with white space, quotes and a
/// comment where one likes.
#[verifier::rlimit(30)]
pub proof fn law_line_sets_a_parameter(
    s: Settings,
    gap: Seq<char>,
    key: Seq<char>,
    v: Seq<char>,
    quotes: Seq<char>,
    comment: Seq<char>,
)
    requires
        is_margin(gap, Margin::Space),
        is_margin(quotes, Margin::Quotes),
        key.len() > 0,
        v.len() > 0,
        forall|i: int|
            0 <= i < key.len() ==> #[trigger] key[i] != '#' && key[i] != ':' && !Margin::Space.holds(key[i]),
        forall|i: int|
            0 <= i < v.len() ==> #[trigger] v[i] != '#' && !Margin::Space.holds(v[i]) && !Margin::Quotes.holds(v[i]),
        comment.len() > 0 ==> comment[0] == '#',
    ensures
        with_line(s, gap + key + gap + seq![':'] + gap + quotes + v + quotes + gap + comment) == with_setting(
            s,
            key,
            v,
        ),
{
    let value = quotes + v + quotes;
    let code = key + gap + seq![':'] + gap + quotes + v + quotes;
    let body = gap + code + gap;
    let line = gap + key + gap + seq![':'] + gap + quotes + v + quotes + gap + comment;
    assert(line =~= body + comment);
    assert forall|i: int| 0 <= i < body.len() implies #[trigger] body[i] != '#' by {
        let a = gap.len() as int;
        let (k, q) = (key.len() as int, quotes.len() as int);
        if i < a {
            assert(body[i] == gap[i]);
        } else if i < a + k {
            assert(body[i] == key[i - a]);
        } else if i < a + k + a {
            assert(body[i] == gap[i - a - k]);
        } else if i < a + k + a + 1 {
        } else if i < a + k + a + 1 + a {
            assert(body[i] == gap[i - a - k - a - 1]);
        } else if i < a + k + a + 1 + a + q {
            assert(body[i] == quotes[i - a - k - a - 1 - a]);
        } else if i < a + k + a + 1 + a + q + v.len() {
            assert(body[i] == v[i - a - k - a - 1 - a - q]);
        } else if i < a + k + a + 1 + a + q + v.len() + q {
            assert(body[i] == quotes[i - a - k - a - 1 - a - q - v.len()]);
        } else {
            assert(body[i] == gap[i - a - k - a - 1 - a - q - v.len() - q]);
        }
    }
    assert(forall|i: int| 0 <= i < body.len() ==> line[i] == body[i]);
    if comment.len() > 0 {
        assert(line[body.len() as int] == comment[0]);
    }
    crate::words::lemma_first_place(line, '#', body.len());
    assert(before(line, '#') =~= body);
    assert(code[0] == key[0]);
    if quotes.len() > 0 {
        assert(code.last() == quotes.last());
        assert(Margin::Quotes.holds(quotes[quotes.len() - 1]));
    } else {
        assert(code.last() == v.last());
        assert(!Margin::Space.holds(v[v.len() - 1]));
    }
    crate::words::law_strip_takes_the_margins(gap, code, gap, Margin::Space);
    assert(code_of(line) == code);
    let front = key + gap;
    assert forall|i: int| 0 <= i < front.len() implies #[trigger] code[i] != ':' by {
        if i < key.len() {
            assert(code[i] == key[i]);
        } else {
            assert(code[i] == gap[i - key.len()]);
        }
    }
    assert(code[front.len() as int] == ':');
    crate::words::lemma_first_place(code, ':', front.len());
    assert(before(code, ':') =~= Seq::<char>::empty() + key + gap);
    crate::words::law_strip_takes_the_margins(Seq::empty(), key, gap, Margin::Space);
    assert(key_of(code) == key);
    assert(behind(code, ':') =~= gap + value + Seq::<char>::empty());
    if quotes.len() > 0 {
        assert(value[0] == quotes[0]);
        assert(Margin::Quotes.holds(quotes[0]));
    } else {
        assert(value[0] == v[0]);
    }
    assert(value.last() == code.last());
    crate::words::law_strip_takes_the_margins(gap, value, Seq::empty(), Margin::Space);
    crate::words::law_strip_takes_the_margins(quotes, v, quotes, Margin::Quotes);
    assert(Seq::<char>::empty() + v + Seq::<char>::empty() =~= v);
    assert(!Margin::Space.holds(v[v.len() - 1]));
    crate::words::law_strip_takes_the_margins(Seq::empty(), v, Seq::empty(), Margin::Space);
}

/// The parameters of the collection guide: 768 MiB to upload, 500 MiB a file, snap
/// length 65535, duplicates within five milliseconds and from ten percent on, five
/// devices or at least two, five seconds; no token.
pub proof fn law_default_parameters()
    ensures
        ({
            let s = default_settings();
            &&& s.max_upload == 768 * 1024 * 1024
            &&& s.size_limit == 500 * 1024 * 1024
            &&& s.full_snaplen == 0xffff
            &&& s.dup_window == 5 * 1_000_000
            &&& s.dup_notice_pct == 10
            &&& s.devices_ok == 5
            &&& s.devices_warn == 2
            &&& s.duration_min == 5 * 1_000_000_000
            &&& s.auth_token.len() == 0
            &&& s.listen_addr == "127.0.0.1:8088"@
        }),
{
}

/// A text without a line end is one line.
pub proof fn law_last_line(s: Settings, txt: Seq<char>)
    requires
        !txt.contains('\n'),
    ensures
        with_text(s, txt) == with_line(s, txt),
{
    assert forall|i: int| 0 <= i < txt.len() implies txt[i] != '\n' by {
        assert(txt.contains(txt[i]));
    }
    crate::words::lemma_first_place(txt, '\n', txt.len());
}

} // verus!
