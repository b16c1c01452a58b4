//! Text taken apart: trimming, cutting at a character, reading numbers.

use vstd::prelude::*;
use vstd::slice::slice_subrange;

#[allow(unused_imports)]
use crate::text::{decimal, digit};

verus! {

/// The characters of Unicode's White_Space property.
pub open spec fn is_space(c: char) -> bool {
    ||| '\u{9}' <= c <= '\u{d}'
    ||| c == ' '
    ||| c == '\u{85}'
    ||| c == '\u{a0}'
    ||| c == '\u{1680}'
    ||| '\u{2000}' <= c <= '\u{200a}'
    ||| c == '\u{2028}'
    ||| c == '\u{2029}'
    ||| c == '\u{202f}'
    ||| c == '\u{205f}'
    ||| c == '\u{3000}'
}

/// Single and double quotes.
pub open spec fn is_quote(c: char) -> bool {
    c == '"' || c == '\''
}

/// What is stripped off both ends of a text.
#[derive(Clone, Copy, Debug, PartialEq, Eq, Structural)]
pub enum Margin {
    Space,
    Quotes,
}

impl Margin {
    pub open spec fn holds(self, c: char) -> bool {
        match self {
            Margin::Space => is_space(c),
            Margin::Quotes => is_quote(c),
        }
    }
}

/// `s` without the margin at its start.
pub open spec fn stripped_start(s: Seq<char>, m: Margin) -> Seq<char>
    decreases s.len(),
{
    if s.len() > 0 && m.holds(s[0]) {
        stripped_start(s.skip(1), m)
    } else {
        s
    }
}

/// `s` without the margin at its end.
pub open spec fn stripped_end(s: Seq<char>, m: Margin) -> Seq<char>
    decreases s.len(),
{
    if s.len() > 0 && m.holds(s.last()) {
        stripped_end(s.drop_last(), m)
    } else {
        s
    }
}

/// `s` without the margins at both ends.
pub open spec fn stripped(s: Seq<char>, m: Margin) -> Seq<char> {
    stripped_end(stripped_start(s, m), m)
}

/// `s` without white space at both ends.
pub open spec fn trimmed(s: Seq<char>) -> Seq<char> {
    stripped(s, Margin::Space)
}

/// The place of the first `c` in `s`, or the length of `s`.
pub open spec fn place_of(s: Seq<char>, c: char) -> nat
    decreases s.len(),
{
    if s.len() == 0 || s[0] == c {
        0
    } else {
        1 + place_of(s.skip(1), c)
    }
}

/// `s` up to its first `c`.
pub open spec fn before(s: Seq<char>, c: char) -> Seq<char> {
    s.take(place_of(s, c) as int)
}

/// `s` behind its first `c`; nothing where it has none.
pub open spec fn behind(s: Seq<char>, c: char) -> Seq<char> {
    if place_of(s, c) < s.len() {
        s.skip(place_of(s, c) as int + 1)
    } else {
        Seq::empty()
    }
}

/// `place_of` is the least place that holds `c`.
pub proof fn lemma_place_of(s: Seq<char>, c: char)
    ensures
        place_of(s, c) <= s.len(),
        place_of(s, c) < s.len() ==> s[place_of(s, c) as int] == c,
        forall|i: int| 0 <= i < place_of(s, c) ==> s[i] != c,
    decreases s.len(),
{
    if s.len() > 0 && s[0] != c {
        lemma_place_of(s.skip(1), c);
        let k = place_of(s.skip(1), c);
        assert(s.skip(1)[k as int] == s[k as int + 1] || k >= s.skip(1).len());
        assert forall|i: int| 0 <= i < place_of(s, c) implies s[i] != c by {
            if i > 0 {
                assert(s.skip(1)[i - 1] == s[i]);
            }
        }
    }
}

/// The first place that holds `c` is `place_of`.
pub proof fn lemma_first_place(s: Seq<char>, c: char, n: nat)
    requires
        n <= s.len(),
        n < s.len() ==> s[n as int] == c,
        forall|i: int| 0 <= i < n ==> s[i] != c,
    ensures
        place_of(s, c) == n,
{
    lemma_place_of(s, c);
    let k = place_of(s, c);
    if k < n {
        assert(s[k as int] == c);
    }
}

/// The characters of a string.
pub fn chars_of(s: &str) -> (r: Vec<char>)
    ensures
        r@ == s@,
{
    let mut out: Vec<char> = Vec::new();
    for c in it: s.chars()
        invariant
            it.seq() == s@,
            out@ == s@.take(it.index() as int),
    {
        out.push(c);
        assert(out@ =~= s@.take(it.index() as int + 1));
    }
    assert(s@.take(s@.len() as int) =~= s@);
    out
}

/// The string of some characters.
pub fn text_of(s: &[char]) -> (r: String)
    ensures
        r@ == s@,
{
    let mut out = String::new();
    let n: usize = s.len();
    let mut i: usize = 0;
    while i < n
        invariant
            i <= n,
            n == s@.len(),
            out@ == s@.take(i as int),
        decreases n - i,
    {
        out.push(s[i]);
        i = i + 1;
        assert(out@ =~= s@.take(i as int));
    }
    assert(s@.take(n as int) =~= s@);
    out
}

fn in_margin(c: char, m: Margin) -> (r: bool)
    ensures
        r == m.holds(c),
{
    match m {
        Margin::Space => ('\u{9}' <= c && c <= '\u{d}') || c == ' ' || c == '\u{85}' || c == '\u{a0}' || c == '\u{1680}'
            || ('\u{2000}' <= c && c <= '\u{200a}') || c == '\u{2028}' || c == '\u{2029}' || c == '\u{202f}' || c
            == '\u{205f}' || c == '\u{3000}',
        Margin::Quotes => c == '"' || c == '\'',
    }
}

/// Strips the margins off both ends.
pub fn strip<'a>(s: &'a [char], m: Margin) -> (r: &'a [char])
    ensures
        r@ == stripped(s@, m),
        r@.len() <= s@.len(),
{
    let mut from: usize = 0;
    let mut to: usize = s.len();
    assert(s@.skip(0) =~= s@);
    while from < to && in_margin(s[from], m)
        invariant
            from <= to == s@.len(),
            stripped_start(s@, m) == stripped_start(s@.skip(from as int), m),
        decreases to - from,
    {
        assert(s@.skip(from as int).skip(1) =~= s@.skip(from + 1));
        from = from + 1;
    }
    assert(stripped_start(s@, m) =~= s@.subrange(from as int, to as int));
    while from < to && in_margin(s[to - 1], m)
        invariant
            from <= to <= s@.len(),
            stripped(s@, m) == stripped_end(s@.subrange(from as int, to as int), m),
        decreases to,
    {
        assert(s@.subrange(from as int, to as int).drop_last() =~= s@.subrange(from as int, to - 1));
        to = to - 1;
    }
    slice_subrange(s, from, to)
}

/// Strips white space off both ends.
pub fn trim<'a>(s: &'a [char]) -> (r: &'a [char])
    ensures
        r@ == trimmed(s@),
        r@.len() <= s@.len(),
{
    strip(s, Margin::Space)
}

/// The place of the first `c`, or the length.
pub fn find(s: &[char], c: char) -> (r: usize)
    ensures
        r == place_of(s@, c),
        r <= s@.len(),
        r < s@.len() ==> s@[r as int] == c,
{
    let n: usize = s.len();
    let mut i: usize = 0;
    while i < n && s[i] != c
        invariant
            i <= n,
            n == s@.len(),
            forall|j: int| 0 <= j < i ==> s@[j] != c,
        decreases n - i,
    {
        i = i + 1;
    }
    proof {
        lemma_first_place(s@, c, i as nat);
    }
    i
}

/// The text up to the first `c`.
pub fn head_of<'a>(s: &'a [char], c: char) -> (r: &'a [char])
    ensures
        r@ == before(s@, c),
{
    let i: usize = find(s, c);
    let r = slice_subrange(s, 0, i);
    assert(r@ =~= before(s@, c));
    r
}

/// The text behind the first `c`; nothing where there is none.
pub fn rest_of<'a>(s: &'a [char], c: char) -> (r: &'a [char])
    ensures
        r@ == behind(s@, c),
{
    let i: usize = find(s, c);
    let n: usize = s.len();
    if i < n {
        let r = slice_subrange(s, i + 1, n);
        assert(r@ =~= behind(s@, c));
        r
    } else {
        let r = slice_subrange(s, n, n);
        assert(r@ =~= behind(s@, c));
        r
    }
}

/// Whether the characters are those of `w`.
pub fn is_word(s: &[char], w: &str) -> (r: bool)
    ensures
        r == (s@ == w@),
{
    let w: Vec<char> = chars_of(w);
    same_chars(s, w.as_slice())
}

/// Whether two texts are the same.
pub fn same_chars(s: &[char], w: &[char]) -> (r: bool)
    ensures
        r == (s@ == w@),
{
    let n: usize = s.len();
    if n != w.len() {
        return false;
    }
    let mut i: usize = 0;
    while i < n
        invariant
            i <= n,
            n == s@.len(),
            n == w@.len(),
            forall|j: int| 0 <= j < i ==> s@[j] == w@[j],
        decreases n - i,
    {
        if s[i] != w[i] {
            assert(s@[i as int] != w@[i as int]);
            return false;
        }
        i = i + 1;
    }
    assert(s@ =~= w@);
    true
}

/// Whether a text starts with another.
pub open spec fn has_prefix(s: Seq<char>, p: Seq<char>) -> bool {
    s.len() >= p.len() && s.take(p.len() as int) == p
}

/// Whether the characters start with those of `p`.
pub fn starts_with_word(s: &[char], p: &str) -> (r: bool)
    ensures
        r == has_prefix(s@, p@),
{
    let p: Vec<char> = chars_of(p);
    let k: usize = p.len();
    if s.len() < k {
        return false;
    }
    let head = slice_subrange(s, 0, k);
    assert(head@ =~= s@.take(k as int));
    same_chars(head, p.as_slice())
}

/// A decimal digit.
pub open spec fn is_digit(c: char) -> bool {
    '0' <= c <= '9'
}

/// The number that a text of digits stands for.
pub open spec fn numeral(s: Seq<char>) -> nat
    decreases s.len(),
{
    if s.len() == 0 {
        0
    } else {
        10 * numeral(s.drop_last()) + (s.last() as nat - '0' as nat) as nat
    }
}

/// Whether a text is made of digits, and of at least one.
pub open spec fn is_numeral(s: Seq<char>) -> bool {
    s.len() > 0 && forall|i: int| 0 <= i < s.len() ==> is_digit(#[trigger] s[i])
}

/// The digits of an unsigned number: all of it, but for a plus sign in front.
pub open spec fn unsigned_digits(s: Seq<char>) -> Seq<char> {
    if s.len() > 0 && s[0] == '+' {
        s.skip(1)
    } else {
        s
    }
}

/// The unsigned number that a text stands for, where it is one of at most `max`.
pub open spec fn unsigned_of(s: Seq<char>, max: nat) -> Option<nat> {
    let d = unsigned_digits(s);
    if is_numeral(d) && numeral(d) <= max {
        Some(numeral(d))
    } else {
        None
    }
}

proof fn lemma_numeral_grows(s: Seq<char>, k: int)
    requires
        0 <= k <= s.len(),
    ensures
        numeral(s.take(k)) <= numeral(s),
    decreases s.len(),
{
    if k == s.len() {
        assert(s.take(k) =~= s);
    } else {
        lemma_numeral_grows(s.drop_last(), k);
        assert(s.drop_last().take(k) =~= s.take(k));
    }
}

/// Reads an unsigned number of at most `max`.
pub fn parse_unsigned(s: &[char], max: u64) -> (r: Option<u64>)
    ensures
        match r {
            Some(n) => unsigned_of(s@, max as nat) == Some(n as nat),
            None => unsigned_of(s@, max as nat) is None,
        },
{
    let n: usize = s.len();
    let from: usize = if n > 0 && s[0] == '+' {
        1
    } else {
        0
    };
    let d = slice_subrange(s, from, n);
    assert(d@ =~= unsigned_digits(s@));
    let k: usize = d.len();
    if k == 0 {
        return None;
    }
    let mut acc: u64 = 0;
    let mut i: usize = 0;
    while i < k
        invariant
            i <= k,
            k == d@.len(),
            d@ == unsigned_digits(s@),
            forall|j: int| 0 <= j < i ==> is_digit(#[trigger] d@[j]),
            acc == numeral(d@.take(i as int)),
            acc <= max,
        decreases k - i,
    {
        let c: char = d[i];
        if !(c >= '0' && c <= '9') {
            assert(!is_digit(d@[i as int]));
            return None;
        }
        let v: u64 = (c as u32 - 48) as u64;
        assert(d@.take(i + 1).drop_last() =~= d@.take(i as int));
        assert(numeral(d@.take(i + 1)) == 10 * acc + v);
        if acc as u128 * 10 + v as u128 > max as u128 {
            proof {
                lemma_numeral_grows(d@, i + 1);
            }
            return None;
        }
        acc = acc * 10 + v;
        i = i + 1;
    }
    assert(d@.take(k as int) =~= d@);
    Some(acc)
}

/// A number written out in decimal reads back: digits only, no leading zero, and the
/// same number.
pub proof fn law_decimal_reads_back(n: nat)
    ensures
        is_numeral(decimal(n)),
        numeral(decimal(n)) == n,
        n > 0 ==> decimal(n)[0] != '0',
    decreases n,
{
    let last = digit(n % 10);
    assert(last as nat == 48 + n % 10);
    if n >= 10 {
        law_decimal_reads_back(n / 10);
        let head = decimal(n / 10);
        assert(decimal(n).drop_last() =~= head);
        assert forall|i: int| 0 <= i < decimal(n).len() implies is_digit(#[trigger] decimal(n)[i]) by {
            if i < head.len() {
                assert(decimal(n)[i] == head[i]);
            }
        }
    } else {
        assert(decimal(n).drop_last() =~= Seq::<char>::empty());
        reveal_with_fuel(numeral, 2);
    }
}

proof fn lemma_stripped_start(s: Seq<char>, m: Margin, k: nat)
    requires
        k <= s.len(),
        forall|i: int| 0 <= i < k ==> m.holds(#[trigger] s[i]),
        k < s.len() ==> !m.holds(s[k as int]),
    ensures
        stripped_start(s, m) == s.skip(k as int),
    decreases k,
{
    if k > 0 {
        let t = s.skip(1);
        assert forall|i: int| 0 <= i < k - 1 implies m.holds(#[trigger] t[i]) by {
            assert(t[i] == s[i + 1]);
        }
        lemma_stripped_start(t, m, (k - 1) as nat);
        assert(t.skip(k - 1) =~= s.skip(k as int));
        assert(m.holds(s[0]));
    } else {
        assert(s.skip(0) =~= s);
    }
}

proof fn lemma_stripped_end(s: Seq<char>, m: Margin, k: nat)
    requires
        k <= s.len(),
        forall|i: int| s.len() - k <= i < s.len() ==> m.holds(#[trigger] s[i]),
        k < s.len() ==> !m.holds(s[s.len() - k - 1]),
    ensures
        stripped_end(s, m) == s.take(s.len() - k),
    decreases k,
{
    if k > 0 {
        let t = s.drop_last();
        assert forall|i: int| t.len() - (k - 1) <= i < t.len() implies m.holds(#[trigger] t[i]) by {
            assert(t[i] == s[i]);
        }
        if k < s.len() {
            assert(t[t.len() - (k - 1) - 1] == s[s.len() - k - 1]);
        }
        lemma_stripped_end(t, m, (k - 1) as nat);
        assert(t.take(t.len() - (k - 1)) =~= s.take(s.len() - k));
        assert(m.holds(s[s.len() - 1]));
    } else {
        assert(s.take(s.len() as int) =~= s);
    }
}

/// Whether all of a text is margin.
pub open spec fn is_margin(s: Seq<char>, m: Margin) -> bool {
    forall|i: int| 0 <= i < s.len() ==> m.holds(#[trigger] s[i])
}

/// Stripping takes off what is margin at both ends, all of it, and nothing else.
pub proof fn law_strip_takes_the_margins(a: Seq<char>, s: Seq<char>, b: Seq<char>, m: Margin)
    requires
        is_margin(a, m),
        is_margin(b, m),
        s.len() > 0 ==> !m.holds(s[0]) && !m.holds(s.last()),
    ensures
        stripped(a + s + b, m) == s,
{
    let all = a + s + b;
    if s.len() == 0 {
        assert forall|i: int| 0 <= i < all.len() implies m.holds(#[trigger] all[i]) by {
            if i < a.len() {
                assert(all[i] == a[i]);
            } else {
                assert(all[i] == b[i - a.len()]);
            }
        }
        lemma_stripped_start(all, m, all.len());
        assert(all.skip(all.len() as int) =~= s);
        lemma_stripped_end(s, m, 0);
    } else {
        assert forall|i: int| 0 <= i < a.len() implies m.holds(#[trigger] all[i]) by {
            assert(all[i] == a[i]);
        }
        assert(all[a.len() as int] == s[0]);
        lemma_stripped_start(all, m, a.len());
        let rest = all.skip(a.len() as int);
        assert(rest =~= s + b);
        assert forall|i: int| rest.len() - b.len() <= i < rest.len() implies m.holds(#[trigger] rest[i]) by {
            assert(rest[i] == b[i - s.len()]);
        }
        assert(rest[rest.len() - b.len() - 1] == s.last());
        lemma_stripped_end(rest, m, b.len());
        assert((s + b).take(s.len() as int) =~= s);
    }
}

/// What counts as white space among the characters of a plain text file, and what
/// as a quote.
pub proof fn law_margins(c: char)
    ensures
        (c as u32) < 0x80 ==> (Margin::Space.holds(c) <==> c == ' ' || 9 <= c as u32 <= 13),
        Margin::Quotes.holds(c) <==> c as u32 == 34 || c as u32 == 39,
{
}

/// A number is read if and only if it is at most the greatest allowed, with a plus
/// sign or without; a text with anything but digits behind the sign is none.
pub proof fn law_numbers_up_to_a_limit(n: nat, max: nat, s: Seq<char>, i: int)
    ensures
        n <= max ==> unsigned_of(decimal(n), max) == Some(n),
        n > max ==> unsigned_of(decimal(n), max) is None,
        n <= max ==> unsigned_of(seq!['+'] + decimal(n), max) == Some(n),
        1 <= i < s.len() && !is_digit(s[i]) ==> unsigned_of(s, max) is None,
        s.len() == 0 ==> unsigned_of(s, max) is None,
{
    law_decimal_reads_back(n);
    let d = decimal(n);
    assert(is_digit(d[0]));
    assert(unsigned_digits(d) == d);
    let t = seq!['+'] + d;
    assert(t[0] == '+');
    assert(t.skip(1) =~= d);
    if 1 <= i < s.len() && !is_digit(s[i]) {
        let u = unsigned_digits(s);
        if s[0] == '+' {
            assert(u[i - 1] == s[i]);
        } else {
            assert(u[i] == s[i]);
        }
    }
}

} // verus!
