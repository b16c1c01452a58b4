//! Building blocks of the reports: numbers as text, padding, and the escapes of
//! JSON and Markdown.

#[allow(unused_imports)]
use vstd::arithmetic::power2::pow2;
use vstd::prelude::*;

verus! {

/// `String::push` of std appends one character.
pub assume_specification[ String::push ](s: &mut String, c: char)
    ensures
        final(s)@ == old(s)@.push(c),
;

/// The decimal digit `d`.
pub open spec fn digit(d: nat) -> char {
    ('0' as nat + d) as char
}

/// `n` in decimal, without leading zeros.
pub open spec fn decimal(n: nat) -> Seq<char>
    decreases n,
{
    if n < 10 {
        seq![digit(n)]
    } else {
        decimal(n / 10).push(digit(n % 10))
    }
}

/// `n` times the character `c`.
pub open spec fn repeated(c: char, n: nat) -> Seq<char> {
    Seq::new(n, |i: int| c)
}

/// `s` with `c` in front until it has `width` characters.
pub open spec fn padded_left(s: Seq<char>, c: char, width: nat) -> Seq<char> {
    if s.len() < width {
        repeated(c, (width - s.len()) as nat) + s
    } else {
        s
    }
}

/// `s` with spaces behind until it has `width` characters.
pub open spec fn padded_right(s: Seq<char>, width: nat) -> Seq<char> {
    if s.len() < width {
        s + repeated(' ', (width - s.len()) as nat)
    } else {
        s
    }
}

/// `n` in decimal with a dot before every group of three digits.
pub open spec fn grouped(n: nat) -> Seq<char>
    decreases n,
{
    if n < 1000 {
        decimal(n)
    } else {
        grouped(n / 1000).push('.') + padded_left(decimal(n % 1000), '0', 3)
    }
}

/// A quotient held as `parts` tenths.
pub open spec fn tenths_text(parts: nat) -> Seq<char> {
    decimal(parts / 10).push('.').push(digit(parts % 10))
}

/// A quotient held as `parts` hundredths.
pub open spec fn hundredths_text(parts: nat) -> Seq<char> {
    decimal(parts / 100).push('.') + padded_left(decimal(parts % 100), '0', 2)
}

/// `true` or `false`.
pub open spec fn bool_text(b: bool) -> Seq<char> {
    if b {
        "true"@
    } else {
        "false"@
    }
}

fn digit_char(d: u8) -> (c: char)
    requires
        d < 10,
    ensures
        c == digit(d as nat),
{
    (48 + d) as char
}

/// Appends `n` in decimal.
pub fn push_decimal(out: &mut String, n: u128)
    ensures
        final(out)@ == old(out)@ + decimal(n as nat),
    decreases n,
{
    if n >= 10 {
        push_decimal(out, n / 10);
    }
    out.push(digit_char((n % 10) as u8));
    assert(out@ =~= old(out)@ + decimal(n as nat));
}

/// `n` in decimal.
pub fn decimal_text(n: u128) -> (r: String)
    ensures
        r@ == decimal(n as nat),
{
    let mut out = String::new();
    push_decimal(&mut out, n);
    assert(out@ =~= decimal(n as nat));
    out
}

/// Appends `n` times the character `c`.
pub fn push_repeated(out: &mut String, c: char, n: usize)
    ensures
        final(out)@ == old(out)@ + repeated(c, n as nat),
{
    let mut i: usize = 0;
    while i < n
        invariant
            i <= n,
            out@ == old(out)@ + repeated(c, i as nat),
        decreases n - i,
    {
        out.push(c);
        i = i + 1;
        assert(out@ =~= old(out)@ + repeated(c, i as nat));
    }
    assert(out@ =~= old(out)@ + repeated(c, n as nat));
}

/// Appends `s`, with `c` in front of it up to `width` characters.
pub fn push_padded_left(out: &mut String, s: &str, c: char, width: usize)
    ensures
        final(out)@ == old(out)@ + padded_left(s@, c, width as nat),
{
    let n: usize = s.unicode_len();
    if n < width {
        push_repeated(out, c, width - n);
    }
    out.append(s);
    assert(out@ =~= old(out)@ + padded_left(s@, c, width as nat));
}

/// Appends `s`, with spaces behind it up to `width` characters.
pub fn push_padded_right(out: &mut String, s: &str, width: usize)
    ensures
        final(out)@ == old(out)@ + padded_right(s@, width as nat),
{
    let n: usize = s.unicode_len();
    out.append(s);
    if n < width {
        push_repeated(out, ' ', width - n);
    }
    assert(out@ =~= old(out)@ + padded_right(s@, width as nat));
}

/// Appends `n` in decimal with at least `width` digits.
pub fn push_digits(out: &mut String, n: u128, width: usize)
    ensures
        final(out)@ == old(out)@ + padded_left(decimal(n as nat), '0', width as nat),
{
    let s = decimal_text(n);
    push_padded_left(out, s.as_str(), '0', width);
}

/// A power of ten.
spec fn ten_to(k: nat) -> nat
    decreases k,
{
    if k == 0 {
        1
    } else {
        10 * ten_to((k - 1) as nat)
    }
}

proof fn lemma_padding_by_digit(r: nat, k: nat)
    requires
        k >= 2,
    ensures
        padded_left(decimal(r), '0', k) == padded_left(decimal(r / 10), '0', (k - 1) as nat).push(digit(r % 10)),
{
    assert(padded_left(decimal(r), '0', k) =~= padded_left(decimal(r / 10), '0', (k - 1) as nat).push(digit(r % 10)));
}

/// The last `k` digits of a number stand behind the digits of the rest.
proof fn lemma_decimal_split(n: nat, k: nat)
    requires
        k >= 1,
        n >= ten_to(k),
    ensures
        ten_to(k) > 0,
        decimal(n) == decimal(n / ten_to(k)) + padded_left(decimal(n % ten_to(k)), '0', k),
    decreases k,
{
    if k == 1 {
        assert(ten_to(1) == 10 * ten_to(0));
        assert(decimal(n) =~= decimal(n / 10) + padded_left(decimal(n % 10), '0', 1));
    } else {
        let p = ten_to((k - 1) as nat);
        assert(ten_to(k) == 10 * p);
        lemma_decimal_split(n / 10, (k - 1) as nat);
        let r = n % (10 * p);
        vstd::arithmetic::div_mod::lemma_div_denominator(n as int, 10, p as int);
        vstd::arithmetic::div_mod::lemma_fundamental_div_mod(n as int, (10 * p) as int);
        let q = n / (10 * p);
        assert(r / 10 == (n / 10) % p && r % 10 == n % 10) by {
            assert(n == 10 * (p * q) + r) by (nonlinear_arith)
                requires
                    n == (10 * p) * q + r,
            ;
            vstd::arithmetic::div_mod::lemma_fundamental_div_mod_converse(
                (n / 10) as int,
                p as int,
                q as int,
                (r / 10) as int,
            );
        }
        lemma_padding_by_digit(r, k);
        let head = decimal(n / ten_to(k));
        let rest = padded_left(decimal(r / 10), '0', (k - 1) as nat);
        assert(decimal(n) =~= (head + rest).push(digit(n % 10)));
        assert((head + rest).push(digit(n % 10)) =~= head + rest.push(digit(n % 10)));
    }
}

/// Appends `m * 2^k` in decimal, also where it is more than a machine integer holds.
pub fn push_doubled(out: &mut String, m: u64, k: u32)
    requires
        k <= 100,
    ensures
        final(out)@ == old(out)@ + decimal(m as nat * pow2(k as nat)),
{
    // the number is high * 10^18 + low
    let mut high: u128 = m as u128 / 1_000_000_000_000_000_000;
    let mut low: u128 = m as u128 % 1_000_000_000_000_000_000;
    let mut i: u32 = 0;
    proof {
        vstd::arithmetic::power2::lemma2_to64();
        assert(m * pow2(0) == m) by (nonlinear_arith)
            requires
                pow2(0) == 1,
        ;
    }
    while i < k
        invariant
            i <= k <= 100,
            low < 1_000_000_000_000_000_000,
            high < 19 * pow2(i as nat),
            high * 1_000_000_000_000_000_000 + low == m * pow2(i as nat),
        decreases k - i,
    {
        proof {
            vstd::arithmetic::power2::lemma_pow2_unfold((i + 1) as nat);
            lemma_pow2_of_100();
            if i < 100 {
                vstd::arithmetic::power2::lemma_pow2_strictly_increases(i as nat, 100);
            }
            assert(m * pow2((i + 1) as nat) == 2 * (m * pow2(i as nat))) by (nonlinear_arith)
                requires
                    pow2((i + 1) as nat) == 2 * pow2(i as nat),
            ;
        }
        low = 2 * low;
        high = 2 * high;
        if low >= 1_000_000_000_000_000_000 {
            low = low - 1_000_000_000_000_000_000;
            high = high + 1;
        }
        i = i + 1;
    }
    let ghost n = m as nat * pow2(k as nat);
    if high == 0 {
        push_decimal(out, low);
    } else {
        proof {
            reveal_with_fuel(ten_to, 19);
            assert(ten_to(18) == 1_000_000_000_000_000_000);
            lemma_decimal_split(n, 18);
        }
        push_decimal(out, high);
        push_digits(out, low, 18);
        assert(out@ =~= old(out)@ + decimal(n));
    }
}

proof fn lemma_pow2_of_100()
    ensures
        pow2(100) == 0x10_0000_0000_0000_0000_0000_0000,
{
    vstd::arithmetic::power2::lemma2_to64();
    vstd::arithmetic::power2::lemma2_to64_rest();
    vstd::arithmetic::power2::lemma_pow2_adds(50, 50);
}

/// A count with a dot before every group of three digits.
pub fn grp(n: u64) -> (r: String)
    ensures
        r@ == grouped(n as nat),
    decreases n,
{
    if n < 1000 {
        decimal_text(n as u128)
    } else {
        let mut out = grp(n / 1000);
        out.push('.');
        push_digits(&mut out, (n % 1000) as u128, 3);
        out
    }
}

/// Appends `parts` tenths as a decimal fraction.
pub fn push_tenths(out: &mut String, parts: u128)
    ensures
        final(out)@ == old(out)@ + tenths_text(parts as nat),
{
    push_decimal(out, parts / 10);
    out.push('.');
    out.push(digit_char((parts % 10) as u8));
    assert(out@ =~= old(out)@ + tenths_text(parts as nat));
}

/// Appends `parts` hundredths as a decimal fraction.
pub fn push_hundredths(out: &mut String, parts: u128)
    ensures
        final(out)@ == old(out)@ + hundredths_text(parts as nat),
{
    push_decimal(out, parts / 100);
    out.push('.');
    push_digits(out, parts % 100, 2);
    assert(out@ =~= old(out)@ + hundredths_text(parts as nat));
}

/// Appends `true` or `false`.
pub fn push_bool(out: &mut String, b: bool)
    ensures
        final(out)@ == old(out)@ + bool_text(b),
{
    if b {
        out.append("true");
    } else {
        out.append("false");
    }
}

/// `s` without any `c`.
pub open spec fn without(s: Seq<char>, c: char) -> Seq<char>
    decreases s.len(),
{
    if s.len() == 0 {
        s
    } else if s.last() == c {
        without(s.drop_last(), c)
    } else {
        without(s.drop_last(), c).push(s.last())
    }
}

/// A cell of a Markdown table: the column separator escaped, the line kept whole.
pub open spec fn md_escape(c: char) -> Seq<char> {
    if c == '|' {
        seq!['\\', '|']
    } else if c == '\n' {
        seq![' ']
    } else {
        seq![c]
    }
}

/// The characters of `s`, each escaped for a Markdown table.
pub open spec fn md_text(s: Seq<char>) -> Seq<char>
    decreases s.len(),
{
    if s.len() == 0 {
        Seq::empty()
    } else {
        md_text(s.drop_last()) + md_escape(s.last())
    }
}

/// Escapes text for a cell of a Markdown table.
pub fn md_esc(s: &str) -> (r: String)
    ensures
        r@ == md_text(s@),
{
    let mut out = String::new();
    for c in it: s.chars()
        invariant
            it.seq() == s@,
            out@ == md_text(s@.take(it.index() as int)),
    {
        proof {
            assert(s@.take(it.index() as int + 1).drop_last() =~= s@.take(it.index() as int));
        }
        if c == '|' {
            out.push('\\');
            out.push('|');
        } else if c == '\n' {
            out.push(' ');
        } else {
            out.push(c);
        }
        assert(out@ =~= md_text(s@.take(it.index() as int + 1)));
    }
    assert(s@.take(s@.len() as int) =~= s@);
    out
}

/// The lower-case hexadecimal digit `d`.
pub open spec fn hex_digit(d: nat) -> char {
    if d < 10 {
        digit(d)
    } else {
        ('a' as nat + d - 10) as char
    }
}

/// A byte as two hexadecimal digits.
pub open spec fn hex_byte(b: u8) -> Seq<char> {
    seq![hex_digit(b as nat / 16), hex_digit(b as nat % 16)]
}

/// Bytes in hexadecimal.
pub open spec fn hex_text(b: Seq<u8>) -> Seq<char>
    decreases b.len(),
{
    if b.len() == 0 {
        Seq::empty()
    } else {
        hex_text(b.drop_last()) + hex_byte(b.last())
    }
}

fn hex_char(d: u8) -> (c: char)
    requires
        d < 16,
    ensures
        c == hex_digit(d as nat),
{
    if d < 10 {
        digit_char(d)
    } else {
        (97 + (d - 10)) as char
    }
}

/// Appends a byte as two hexadecimal digits.
pub fn push_hex(out: &mut String, b: u8)
    ensures
        final(out)@ == old(out)@ + hex_byte(b),
{
    out.push(hex_char(b / 16));
    out.push(hex_char(b % 16));
    assert(out@ =~= old(out)@ + hex_byte(b));
}

/// Bytes in lower-case hexadecimal.
pub fn hex(b: &[u8]) -> (r: String)
    ensures
        r@ == hex_text(b@),
{
    let mut out = String::new();
    let n: usize = b.len();
    let mut i: usize = 0;
    while i < n
        invariant
            i <= n,
            n == b@.len(),
            out@ == hex_text(b@.take(i as int)),
        decreases n - i,
    {
        assert(b@.take(i + 1).drop_last() =~= b@.take(i as int));
        push_hex(&mut out, b[i]);
        i = i + 1;
    }
    assert(b@.take(n as int) =~= b@);
    out
}

/// A character inside a JSON string.
pub open spec fn json_escape(c: char) -> Seq<char> {
    if c == '"' {
        seq!['\\', '"']
    } else if c == '\\' {
        seq!['\\', '\\']
    } else if c == '\n' {
        seq!['\\', 'n']
    } else if c == '\r' {
        seq!['\\', 'r']
    } else if c == '\t' {
        seq!['\\', 't']
    } else if (c as u32) < 0x20 {
        seq!['\\', 'u', '0', '0'] + hex_byte(c as u8)
    } else {
        seq![c]
    }
}

/// The characters of `s`, each escaped for a JSON string.
pub open spec fn json_body(s: Seq<char>) -> Seq<char>
    decreases s.len(),
{
    if s.len() == 0 {
        Seq::empty()
    } else {
        json_body(s.drop_last()) + json_escape(s.last())
    }
}

/// `s` as a JSON string.
pub open spec fn json_text(s: Seq<char>) -> Seq<char> {
    seq!['"'] + json_body(s) + seq!['"']
}

fn push_json_char(out: &mut String, c: char)
    ensures
        final(out)@ == old(out)@ + json_escape(c),
{
    if c == '"' {
        out.push('\\');
        out.push('"');
    } else if c == '\\' {
        out.push('\\');
        out.push('\\');
    } else if c == '\n' {
        out.push('\\');
        out.push('n');
    } else if c == '\r' {
        out.push('\\');
        out.push('r');
    } else if c == '\t' {
        out.push('\\');
        out.push('t');
    } else if (c as u32) < 0x20 {
        out.push('\\');
        out.push('u');
        out.push('0');
        out.push('0');
        push_hex(out, c as u32 as u8);
    } else {
        out.push(c);
    }
    assert(out@ =~= old(out)@ + json_escape(c));
}

/// Text as a JSON string, quotes included.
pub fn json_str(s: &str) -> (r: String)
    ensures
        r@ == json_text(s@),
{
    let mut out = String::new();
    out.push('"');
    assert(out@ =~= seq!['"'] + json_body(s@.take(0)));
    for c in it: s.chars()
        invariant
            it.seq() == s@,
            out@ == seq!['"'] + json_body(s@.take(it.index() as int)),
    {
        proof {
            assert(s@.take(it.index() as int + 1).drop_last() =~= s@.take(it.index() as int));
        }
        push_json_char(&mut out, c);
        assert(out@ =~= seq!['"'] + json_body(s@.take(it.index() as int + 1)));
    }
    assert(s@.take(s@.len() as int) =~= s@);
    out.push('"');
    assert(out@ =~= json_text(s@));
    out
}

/// The decimal digits of `n` are those of `n / 1000`, then three more.
proof fn lemma_decimal_by_thousands(n: nat)
    requires
        n >= 1000,
    ensures
        decimal(n) == decimal(n / 1000) + padded_left(decimal(n % 1000), '0', 3),
{
    reveal_with_fuel(decimal, 4);
    let k = n % 1000;
    assert(n / 10 / 10 / 10 == n / 1000);
    assert(n % 10 == k % 10 && (n / 10) % 10 == (k / 10) % 10 && (n / 10 / 10) % 10 == k / 100);
    assert(k / 10 / 10 == k / 100);
    assert(decimal(n) =~= decimal(n / 1000) + seq![digit(k / 100), digit((k / 10) % 10), digit(k % 10)]);
    assert(padded_left(decimal(k), '0', 3) =~= seq![digit(k / 100), digit((k / 10) % 10), digit(k % 10)]);
}

proof fn lemma_no_dot_in_decimal(n: nat)
    ensures
        forall|i: int| 0 <= i < decimal(n).len() ==> decimal(n)[i] != '.',
    decreases n,
{
    let last = digit(n % 10);
    assert(last as nat == 48 + n % 10);
    if n >= 10 {
        lemma_no_dot_in_decimal(n / 10);
        let head = decimal(n / 10);
        assert forall|i: int| 0 <= i < decimal(n).len() implies decimal(n)[i] != '.' by {
            if i < head.len() {
                assert(decimal(n)[i] == head[i]);
            }
        }
    }
}

/// Nothing is taken out of a text that does not hold the character.
pub proof fn lemma_without_nothing(s: Seq<char>, c: char)
    requires
        forall|i: int| 0 <= i < s.len() ==> s[i] != c,
    ensures
        without(s, c) == s,
    decreases s.len(),
{
    if s.len() > 0 {
        lemma_without_nothing(s.drop_last(), c);
        assert(s =~= s.drop_last().push(s.last()));
    }
}

/// A character is taken out of the parts of a text one by one.
pub proof fn lemma_without_joined(s: Seq<char>, t: Seq<char>, c: char)
    ensures
        without(s + t, c) == without(s, c) + without(t, c),
    decreases t.len(),
{
    if t.len() == 0 {
        assert(s + t =~= s);
        assert(without(s, c) + without(t, c) =~= without(s, c));
    } else {
        lemma_without_joined(s, t.drop_last(), c);
        assert((s + t).drop_last() =~= s + t.drop_last());
        assert(without(s + t, c) =~= without(s, c) + without(t, c));
    }
}

/// Grouping only adds dots: without them the number is read as it was.
pub proof fn law_grouping_adds_only_dots(n: nat)
    ensures
        without(grouped(n), '.') == decimal(n),
    decreases n,
{
    lemma_no_dot_in_decimal(n);
    if n < 1000 {
        lemma_without_nothing(decimal(n), '.');
    } else {
        law_grouping_adds_only_dots(n / 1000);
        lemma_decimal_by_thousands(n);
        lemma_no_dot_in_decimal(n % 1000);
        let head = grouped(n / 1000);
        let last = padded_left(decimal(n % 1000), '0', 3);
        lemma_without_nothing(last, '.');
        lemma_without_joined(head.push('.'), last, '.');
        assert(head.push('.').drop_last() =~= head);
    }
}

/// An escaped cell stays one line of a table, and none of its characters ends
/// the cell: every column separator in it stands behind a backslash.
pub proof fn law_md_cell_is_whole(s: Seq<char>)
    ensures
        forall|i: int| 0 <= i < md_text(s).len() ==> md_text(s)[i] != '\n',
        forall|i: int|
            0 <= i < md_text(s).len() && #[trigger] md_text(s)[i] == '|' ==> i > 0 && md_text(s)[i - 1] == '\\',
    decreases s.len(),
{
    if s.len() > 0 {
        law_md_cell_is_whole(s.drop_last());
        let head = md_text(s.drop_last());
        let last = md_escape(s.last());
        assert forall|i: int|
            0 <= i < md_text(s).len() && #[trigger] md_text(s)[i] == '|' implies i > 0 && md_text(s)[i - 1] == '\\' by {
            if i < head.len() {
                assert(head[i] == '|');
            } else {
                assert(last[i - head.len()] == '|');
                assert(last == seq!['\\', '|']);
            }
        }
    }
}

/// What a hexadecimal digit stands for.
pub open spec fn hex_value(c: char) -> Option<nat> {
    if '0' <= c <= '9' {
        Some((c as nat - '0' as nat) as nat)
    } else if 'a' <= c <= 'f' {
        Some((c as nat - 'a' as nat + 10) as nat)
    } else {
        None
    }
}

/// The text that the body of a JSON string stands for; `None` where it is not
/// the body of one.
pub open spec fn json_read(t: Seq<char>) -> Option<Seq<char>>
    decreases t.len(),
{
    if t.len() == 0 {
        Some(Seq::empty())
    } else if t[0] == '\\' {
        if t.len() < 2 {
            None
        } else if t[1] == 'u' {
            if t.len() < 6 {
                None
            } else {
                match (hex_value(t[2]), hex_value(t[3]), hex_value(t[4]), hex_value(t[5]), json_read(t.skip(6))) {
                    (Some(a), Some(b), Some(c), Some(d), Some(rest)) => Some(
                        seq![(a * 4096 + b * 256 + c * 16 + d) as char] + rest,
                    ),
                    _ => None,
                }
            }
        } else {
            let c = if t[1] == '"' || t[1] == '\\' {
                Some(t[1])
            } else if t[1] == 'n' {
                Some('\n')
            } else if t[1] == 'r' {
                Some('\r')
            } else if t[1] == 't' {
                Some('\t')
            } else {
                None
            };
            match (c, json_read(t.skip(2))) {
                (Some(c), Some(rest)) => Some(seq![c] + rest),
                _ => None,
            }
        }
    } else if t[0] == '"' || (t[0] as u32) < 0x20 {
        None
    } else {
        match json_read(t.skip(1)) {
            Some(rest) => Some(seq![t[0]] + rest),
            None => None,
        }
    }
}

proof fn lemma_json_body_first(s: Seq<char>)
    requires
        s.len() > 0,
    ensures
        json_body(s) == json_escape(s[0]) + json_body(s.skip(1)),
    decreases s.len(),
{
    if s.len() == 1 {
        assert(s.drop_last() =~= Seq::<char>::empty());
        assert(s.skip(1) =~= Seq::<char>::empty());
        assert(json_body(s) =~= json_escape(s[0]) + json_body(s.skip(1)));
    } else {
        lemma_json_body_first(s.drop_last());
        assert(s.drop_last().skip(1) =~= s.skip(1).drop_last());
        assert(json_body(s) =~= json_escape(s[0]) + json_body(s.skip(1)));
    }
}

proof fn lemma_json_escape_reads(c: char, rest: Seq<char>, x: Seq<char>)
    requires
        json_read(rest) == Some(x),
    ensures
        json_read(json_escape(c) + rest) == Some(seq![c] + x),
{
    let e = json_escape(c);
    let t = e + rest;
    assert(t.skip(e.len() as int) =~= rest);
    assert(t[0] == e[0]);
    if c == '"' || c == '\\' || c == '\n' || c == '\r' || c == '\t' {
        assert(e.len() == 2 && t[1] == e[1]);
    } else if (c as u32) < 0x20 {
        let b = c as u8;
        assert(b as u32 == c as u32);
        assert(e.len() == 6);
        assert(t[1] == 'u' && t[2] == '0' && t[3] == '0' && t[4] == e[4] && t[5] == e[5]);
        assert(hex_value(t[4]) == Some(b as nat / 16));
        assert(hex_value(t[5]) == Some(b as nat % 16));
        assert((b as nat / 16) * 16 + b as nat % 16 == b as nat);
    }
}

/// Text survives JSON: what the body of the string stands for is the text, so
/// nothing in it can end the string early or smuggle in a control character.
pub proof fn law_json_reads_back(s: Seq<char>)
    ensures
        json_read(json_body(s)) == Some(s),
    decreases s.len(),
{
    if s.len() > 0 {
        lemma_json_body_first(s);
        law_json_reads_back(s.skip(1));
        lemma_json_escape_reads(s[0], json_body(s.skip(1)), s.skip(1));
        assert(s =~= seq![s[0]] + s.skip(1));
    }
}

/// Counted from the end, every fourth character of a grouped number is a dot, and no
/// other is; it does not start with one.
pub proof fn law_groups_have_three_digits(n: nat)
    ensures
        grouped(n).len() > 0,
        grouped(n)[0] != '.',
        forall|k: int|
            0 <= k < grouped(n).len() ==> (#[trigger] grouped(n)[grouped(n).len() - 1 - k] == '.' <==> k % 4 == 3),
    decreases n,
{
    let g = grouped(n);
    if n < 1000 {
        reveal_with_fuel(decimal, 4);
        lemma_no_dot_in_decimal(n);
        assert(g.len() <= 3);
    } else {
        law_groups_have_three_digits(n / 1000);
        let head = grouped(n / 1000);
        let last = padded_left(decimal(n % 1000), '0', 3);
        reveal_with_fuel(decimal, 4);
        lemma_no_dot_in_decimal(n % 1000);
        assert(last.len() == 3);
        assert(g == head.push('.') + last);
        assert(g[0] == head[0]);
        assert forall|k: int| 0 <= k < g.len() implies (#[trigger] g[g.len() - 1 - k] == '.' <==> k % 4 == 3) by {
            if k < 3 {
                assert(g[g.len() - 1 - k] == last[2 - k]);
            } else if k > 3 {
                assert(g[g.len() - 1 - k] == head[head.len() - 1 - (k - 4)]);
            }
        }
    }
}

/// A figure in tenths has its last digit behind a point, one in hundredths its last
/// two.
pub proof fn law_decimal_points(a: nat, b: nat)
    ensures
        b < 10 ==> tenths_text(10 * a + b) == decimal(a) + seq!['.', digit(b)],
        b < 100 ==> hundredths_text(100 * a + b) == decimal(a) + seq!['.', digit(b / 10), digit(b % 10)],
{
    if b < 10 {
        assert((10 * a + b) / 10 == a && (10 * a + b) % 10 == b);
        assert(tenths_text(10 * a + b) =~= decimal(a) + seq!['.', digit(b)]);
    }
    if b < 100 {
        assert((100 * a + b) / 100 == a && (100 * a + b) % 100 == b);
        reveal_with_fuel(decimal, 3);
        assert(padded_left(decimal(b), '0', 2) =~= seq![digit(b / 10), digit(b % 10)]);
        assert(hundredths_text(100 * a + b) =~= decimal(a) + seq!['.', digit(b / 10), digit(b % 10)]);
    }
}

/// Bytes in hexadecimal read back: two digits in lower case for each, the greater
/// first.
pub proof fn law_hex_reads_back(b: Seq<u8>)
    ensures
        hex_text(b).len() == 2 * b.len(),
        forall|i: int|
            #![trigger b[i]]
            0 <= i < b.len() ==> 16 * hex_value(hex_text(b)[2 * i])->0 + hex_value(hex_text(b)[2 * i + 1])->0 == b[i],
        forall|i: int|
            0 <= i < hex_text(b).len() ==> ('0' <= #[trigger] hex_text(b)[i] <= '9' || 'a' <= hex_text(b)[i] <= 'f'),
    decreases b.len(),
{
    if b.len() > 0 {
        let head = b.drop_last();
        law_hex_reads_back(head);
        let h = hex_text(head);
        let t = hex_text(b);
        let last = b.last();
        assert(t == h + hex_byte(last));
        lemma_hex_digit(last as nat / 16);
        lemma_hex_digit(last as nat % 16);
        assert forall|i: int|
            #![trigger b[i]]
            0 <= i < b.len() implies 16 * hex_value(t[2 * i])->0 + hex_value(t[2 * i + 1])->0 == b[i] by {
            if i < head.len() {
                assert(head[i] == b[i]);
                assert(t[2 * i] == h[2 * i] && t[2 * i + 1] == h[2 * i + 1]);
            }
        }
        assert forall|i: int| 0 <= i < t.len() implies ('0' <= #[trigger] t[i] <= '9' || 'a' <= t[i] <= 'f') by {
            if i < h.len() {
                assert(t[i] == h[i]);
            }
        }
    }
}

proof fn lemma_hex_digit(d: nat)
    requires
        d < 16,
    ensures
        hex_value(hex_digit(d)) == Some(d),
        '0' <= hex_digit(d) <= '9' || 'a' <= hex_digit(d) <= 'f',
{
    if d < 10 {
        assert(hex_digit(d) as nat == 48 + d);
    } else {
        assert(hex_digit(d) as nat == 97 + d - 10);
    }
}

/// Padding fills a text up to a width, in front or behind, and never cuts it.
pub proof fn law_padding(s: Seq<char>, c: char, width: nat)
    ensures
        padded_left(s, c, width).len() == (if s.len() < width {
            width
        } else {
            s.len()
        }),
        padded_left(s, c, width).skip(padded_left(s, c, width).len() - s.len()) == s,
        forall|i: int| 0 <= i < padded_left(s, c, width).len() - s.len() ==> #[trigger] padded_left(s, c, width)[i] == c,
        padded_right(s, width).len() == padded_left(s, c, width).len(),
        padded_right(s, width).take(s.len() as int) == s,
        forall|i: int| s.len() <= i < padded_right(s, width).len() ==> #[trigger] padded_right(s, width)[i] == ' ',
{
    assert(padded_left(s, c, width).skip(padded_left(s, c, width).len() - s.len()) =~= s);
    assert(padded_right(s, width).take(s.len() as int) =~= s);
}

/// The text of a cell is that of its parts, one behind the other: a column separator
/// is escaped, the end of a line becomes a space, and any other character stays.
pub proof fn law_md_cell_by_its_characters(a: Seq<char>, b: Seq<char>, c: char)
    ensures
        md_text(a + b) == md_text(a) + md_text(b),
        md_text(seq!['|']) == seq!['\\', '|'],
        md_text(seq!['\n']) == seq![' '],
        c != '|' && c != '\n' ==> md_text(seq![c]) == seq![c],
        md_text(Seq::empty()) == Seq::<char>::empty(),
    decreases b.len(),
{
    lemma_md_one('|');
    lemma_md_one('\n');
    lemma_md_one(c);
    if b.len() == 0 {
        assert(a + b =~= a);
        assert(md_text(a) + md_text(b) =~= md_text(a));
    } else {
        law_md_cell_by_its_characters(a, b.drop_last(), c);
        assert((a + b).drop_last() =~= a + b.drop_last());
        assert(md_text(a + b) =~= md_text(a) + md_text(b));
    }
}

proof fn lemma_md_one(c: char)
    ensures
        md_text(seq![c]) == md_escape(c),
{
    assert(seq![c].drop_last() =~= Seq::<char>::empty());
    reveal_with_fuel(md_text, 2);
    assert(md_text(seq![c]) =~= md_escape(c));
}

/// The words for a truth value, and a character repeated.
pub proof fn law_words_for_truth(b: bool, c: char, n: nat)
    ensures
        bool_text(b) == (if b {
            "true"@
        } else {
            "false"@
        }),
        repeated(c, n).len() == n,
        forall|i: int| 0 <= i < n ==> #[trigger] repeated(c, n)[i] == c,
{
}

} // verus!
