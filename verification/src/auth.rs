//! The token that a request must carry.

use vstd::prelude::*;
use vstd::slice::slice_subrange;
#[allow(unused_imports)]
use vstd::utf8::{decode_utf8, encode_utf8, encode_utf8_decode_utf8, valid_utf8};

use crate::words::{chars_of, rest_of, starts_with_word, text_of, trim};
#[allow(unused_imports)]
use crate::words::{behind, has_prefix, trimmed};

verus! {

/// The value of a character of the base64 alphabet.
pub open spec fn sextet(c: char) -> Option<u8> {
    if 'A' <= c <= 'Z' {
        Some((c as u32 - 'A' as u32) as u8)
    } else if 'a' <= c <= 'z' {
        Some((c as u32 - 'a' as u32 + 26) as u8)
    } else if '0' <= c <= '9' {
        Some((c as u32 - '0' as u32 + 52) as u8)
    } else if c == '+' {
        Some(62)
    } else if c == '/' {
        Some(63)
    } else {
        None
    }
}

/// Padding and line ends, which stand for nothing.
pub open spec fn is_filler(c: char) -> bool {
    c == '=' || c == '\n' || c == '\r'
}

/// The values of the characters of a text, fillers aside; `None` where one of
/// them is not in the alphabet.
pub open spec fn sextets(s: Seq<char>) -> Option<Seq<u8>>
    decreases s.len(),
{
    if s.len() == 0 {
        Some(Seq::empty())
    } else {
        match sextets(s.drop_last()) {
            None => None,
            Some(v) => if is_filler(s.last()) {
                Some(v)
            } else {
                match sextet(s.last()) {
                    Some(x) => Some(v.push(x)),
                    None => None,
                }
            },
        }
    }
}

/// The bytes that groups of four six-bit values stand for: three for a whole
/// group, one or two for the beginning of one; bits left over are dropped.
pub open spec fn octets(v: Seq<u8>) -> Seq<u8>
    decreases v.len(),
{
    if v.len() >= 4 {
        seq![
            (v[0] * 4 + v[1] / 16) as u8,
            ((v[1] % 16) * 16 + v[2] / 4) as u8,
            ((v[2] % 4) * 64 + v[3]) as u8,
        ] + octets(v.skip(4))
    } else if v.len() == 3 {
        seq![(v[0] * 4 + v[1] / 16) as u8, ((v[1] % 16) * 16 + v[2] / 4) as u8]
    } else if v.len() == 2 {
        seq![(v[0] * 4 + v[1] / 16) as u8]
    } else {
        Seq::empty()
    }
}

/// The bytes that a base64 text stands for.
pub open spec fn base64_bytes(s: Seq<char>) -> Option<Seq<u8>> {
    match sextets(trimmed(s)) {
        Some(v) => Some(octets(v)),
        None => None,
    }
}

fn sextet_of(c: char) -> (r: Option<u8>)
    ensures
        r == sextet(c),
        r is Some ==> r->0 < 64,
{
    if c >= 'A' && c <= 'Z' {
        Some((c as u32 - 65) as u8)
    } else if c >= 'a' && c <= 'z' {
        Some((c as u32 - 97 + 26) as u8)
    } else if c >= '0' && c <= '9' {
        Some((c as u32 - 48 + 52) as u8)
    } else if c == '+' {
        Some(62)
    } else if c == '/' {
        Some(63)
    } else {
        None
    }
}

proof fn lemma_bad_character(s: Seq<char>, k: int)
    requires
        0 <= k <= s.len(),
        sextets(s.take(k)) is None,
    ensures
        sextets(s) is None,
    decreases s.len(),
{
    if k == s.len() {
        assert(s.take(k) =~= s);
    } else {
        assert(s.drop_last().take(k) =~= s.take(k));
        lemma_bad_character(s.drop_last(), k);
    }
}

fn read_sextets(s: &[char]) -> (r: Option<Vec<u8>>)
    ensures
        match r {
            Some(v) => sextets(s@) == Some(v@) && forall|i: int| 0 <= i < v@.len() ==> #[trigger] v@[i] < 64,
            None => sextets(s@) is None,
        },
{
    let mut v: Vec<u8> = Vec::new();
    let n: usize = s.len();
    let mut i: usize = 0;
    while i < n
        invariant
            i <= n,
            n == s@.len(),
            sextets(s@.take(i as int)) == Some(v@),
            forall|j: int| 0 <= j < v@.len() ==> #[trigger] v@[j] < 64,
        decreases n - i,
    {
        assert(s@.take(i + 1).drop_last() =~= s@.take(i as int));
        let c: char = s[i];
        if !(c == '=' || c == '\n' || c == '\r') {
            match sextet_of(c) {
                Some(x) => {
                    v.push(x);
                },
                None => {
                    proof {
                        lemma_bad_character(s@, i + 1);
                    }
                    return None;
                },
            }
        }
        i = i + 1;
    }
    assert(s@.take(n as int) =~= s@);
    Some(v)
}

fn join_octets(v: &Vec<u8>) -> (r: Vec<u8>)
    requires
        forall|i: int| 0 <= i < v@.len() ==> #[trigger] v@[i] < 64,
    ensures
        r@ == octets(v@),
{
    let n: usize = v.len();
    let mut out: Vec<u8> = Vec::new();
    let mut i: usize = 0;
    assert(v@.skip(0) =~= v@);
    while n - i >= 4
        invariant
            i <= n,
            n == v@.len(),
            forall|j: int| 0 <= j < v@.len() ==> #[trigger] v@[j] < 64,
            octets(v@) == out@ + octets(v@.skip(i as int)),
        decreases n - i,
    {
        let ghost here = v@.skip(i as int);
        let a: u8 = v[i];
        let b: u8 = v[i + 1];
        let c: u8 = v[i + 2];
        let d: u8 = v[i + 3];
        assert(here[0] == a && here[1] == b && here[2] == c && here[3] == d);
        out.push(a * 4 + b / 16);
        out.push((b % 16) * 16 + c / 4);
        out.push((c % 4) * 64 + d);
        assert(here.skip(4) =~= v@.skip(i + 4));
        i = i + 4;
        assert(octets(v@) =~= out@ + octets(v@.skip(i as int)));
    }
    let ghost last = v@.skip(i as int);
    if n - i == 3 {
        let a: u8 = v[i];
        let b: u8 = v[i + 1];
        let c: u8 = v[i + 2];
        assert(last[0] == a && last[1] == b && last[2] == c);
        out.push(a * 4 + b / 16);
        out.push((b % 16) * 16 + c / 4);
    } else if n - i == 2 {
        let a: u8 = v[i];
        let b: u8 = v[i + 1];
        assert(last[0] == a && last[1] == b);
        out.push(a * 4 + b / 16);
    }
    assert(out@ =~= octets(v@));
    out
}

fn base64_of(s: &[char]) -> (r: Option<Vec<u8>>)
    ensures
        match r {
            Some(b) => base64_bytes(s@) == Some(b@),
            None => base64_bytes(s@) is None,
        },
{
    match read_sextets(trim(s)) {
        Some(v) => Some(join_octets(&v)),
        None => None,
    }
}

/// Decodes standard base64; white space around it, padding and line ends do not
/// count. `None` where a character is not in the alphabet.
pub fn b64_decode(s: &str) -> (r: Option<Vec<u8>>)
    ensures
        match r {
            Some(b) => base64_bytes(s@) == Some(b@),
            None => base64_bytes(s@) is None,
        },
{
    let chars: Vec<char> = chars_of(s);
    base64_of(chars.as_slice())
}

/// Whether two texts are equal, in a time that depends on their lengths alone.
pub fn ct_eq(a: &str, b: &str) -> (r: bool)
    ensures
        r == (a@ == b@),
{
    let x = a.as_bytes();
    let y = b.as_bytes();
    proof {
        encode_utf8_decode_utf8(a@);
        encode_utf8_decode_utf8(b@);
    }
    let n: usize = x.len();
    if n != y.len() {
        return false;
    }
    let mut diff: u8 = 0;
    let mut i: usize = 0;
    while i < n
        invariant
            i <= n,
            n == x@.len(),
            n == y@.len(),
            diff == 0 <==> forall|j: int| 0 <= j < i ==> x@[j] == y@[j],
        decreases n - i,
    {
        let p: u8 = x[i];
        let q: u8 = y[i];
        let d: u8 = diff;
        assert((d | (p ^ q)) == 0 <==> d == 0 && p == q) by (bit_vector);
        diff = d | (p ^ q);
        i = i + 1;
    }
    assert(diff == 0 ==> x@ =~= y@);
    diff == 0
}

/// `String::from_utf8` of std: the text that the bytes encode, where they are
/// valid UTF-8.
#[verifier::external_body]
fn utf8_text(b: Vec<u8>) -> (r: Option<String>)
    ensures
        match r {
            Some(s) => valid_utf8(b@) && s@ == decode_utf8(b@),
            None => !valid_utf8(b@),
        },
{
    String::from_utf8(b).ok()
}

/// Whether the decoded credentials of a Basic header carry the token: as their
/// password, or as a whole.
pub open spec fn credentials_match(s: Seq<char>, token: Seq<char>) -> bool {
    behind(s, ':') == token || s == token
}

/// Whether an Authorization header carries the token.
pub open spec fn header_matches(h: Seq<char>, token: Seq<char>) -> bool {
    if has_prefix(h, "Bearer "@) {
        trimmed(h.skip(7)) == token
    } else if has_prefix(h, "Basic "@) {
        match base64_bytes(h.skip(6)) {
            Some(b) => valid_utf8(b) && credentials_match(decode_utf8(b), token),
            None => false,
        }
    } else {
        false
    }
}

/// Whether a request is let in: without a token everyone is, with one only
/// those that carry it.
pub open spec fn is_authorized(token: Seq<char>, header: Option<Seq<char>>) -> bool {
    token.len() == 0 || (header is Some && header_matches(header->0, token))
}

/// Whether a request with this Authorization header is let in, the token being
/// carried as a Bearer token or as the password of Basic credentials.
pub fn authorized(token: &str, header: Option<&str>) -> (r: bool)
    ensures
        r == is_authorized(
            token@,
            match header {
                Some(h) => Some(h@),
                None => None,
            },
        ),
{
    if token.is_empty() {
        return true;
    }
    let h: &str = match header {
        Some(h) => h,
        None => return false,
    };
    proof {
        reveal_strlit("Bearer ");
        reveal_strlit("Basic ");
    }
    let all: Vec<char> = chars_of(h);
    let h = all.as_slice();
    let n: usize = h.len();
    if starts_with_word(h, "Bearer ") {
        let given = slice_subrange(h, 7, n);
        assert(given@ =~= h@.skip(7));
        return ct_eq(text_of(trim(given)).as_str(), token);
    }
    if starts_with_word(h, "Basic ") {
        let given = slice_subrange(h, 6, n);
        assert(given@ =~= h@.skip(6));
        if let Some(b) = base64_of(given) {
            if let Some(s) = utf8_text(b) {
                let chars: Vec<char> = chars_of(s.as_str());
                let pw = text_of(rest_of(chars.as_slice(), ':'));
                let by_password: bool = ct_eq(pw.as_str(), token);
                return by_password || ct_eq(s.as_str(), token);
            }
        }
    }
    false
}

/// The character of a six-bit value.
pub open spec fn letter(x: u8) -> char {
    if x < 26 {
        ('A' as u32 + x) as char
    } else if x < 52 {
        ('a' as u32 + x - 26) as char
    } else if x < 62 {
        ('0' as u32 + x - 52) as char
    } else if x == 62 {
        '+'
    } else {
        '/'
    }
}

/// Bytes in standard base64, padded.
pub open spec fn base64_text(b: Seq<u8>) -> Seq<char>
    decreases b.len(),
{
    if b.len() >= 3 {
        seq![
            letter(b[0] / 4),
            letter(((b[0] % 4) * 16 + b[1] / 16) as u8),
            letter(((b[1] % 16) * 4 + b[2] / 64) as u8),
            letter(b[2] % 64),
        ] + base64_text(b.skip(3))
    } else if b.len() == 2 {
        seq![
            letter(b[0] / 4),
            letter(((b[0] % 4) * 16 + b[1] / 16) as u8),
            letter(((b[1] % 16) * 4) as u8),
            '=',
        ]
    } else if b.len() == 1 {
        seq![letter(b[0] / 4), letter(((b[0] % 4) * 16) as u8), '=', '=']
    } else {
        Seq::empty()
    }
}

proof fn lemma_letter(x: u8)
    requires
        x < 64,
    ensures
        sextet(letter(x)) == Some(x),
        !is_filler(letter(x)),
        !crate::words::is_space(letter(x)),
{
}

proof fn lemma_sextets_joined(a: Seq<char>, b: Seq<char>)
    requires
        sextets(a) is Some,
        sextets(b) is Some,
    ensures
        sextets(a + b) == Some(sextets(a)->0 + sextets(b)->0),
    decreases b.len(),
{
    if b.len() == 0 {
        assert(a + b =~= a);
        assert(sextets(a)->0 + sextets(b)->0 =~= sextets(a)->0);
    } else {
        assert((a + b).drop_last() =~= a + b.drop_last());
        lemma_sextets_joined(a, b.drop_last());
        if !is_filler(b.last()) {
            let x = sextet(b.last())->0;
            assert(sextets(a)->0 + sextets(b.drop_last())->0.push(x) =~= (sextets(a)->0 + sextets(
                b.drop_last(),
            )->0).push(x));
        }
    }
}

/// The sextets of a group of four characters that are letters or, from some
/// place on, fillers.
proof fn lemma_group(g: Seq<char>, x: Seq<u8>)
    requires
        g.len() == 4,
        x.len() <= 4,
        forall|i: int| 0 <= i < x.len() ==> #[trigger] x[i] < 64 && g[i] == letter(x[i]),
        forall|i: int| x.len() <= i < 4 ==> is_filler(#[trigger] g[i]),
    ensures
        sextets(g) == Some(x),
{
    reveal_with_fuel(sextets, 6);
    assert forall|i: int| 0 <= i < x.len() implies sextet(#[trigger] g[i]) == Some(x[i]) && !is_filler(g[i]) by {
        lemma_letter(x[i]);
    }
    let g3 = g.drop_last();
    let g2 = g3.drop_last();
    let g1 = g2.drop_last();
    let g0 = g1.drop_last();
    assert(g0 =~= Seq::<char>::empty());
    assert(g1.last() == g[0] && g2.last() == g[1] && g3.last() == g[2] && g.last() == g[3]);
    let k = x.len();
    assert(sextets(g1) == Some(x.take(if k < 1 {
        k as int
    } else {
        1
    }))) by {
        assert(k >= 1 ==> Seq::<u8>::empty().push(x[0]) =~= x.take(1));
        assert(k < 1 ==> x.take(0) =~= Seq::<u8>::empty());
    }
    assert(sextets(g2) == Some(x.take(if k < 2 {
        k as int
    } else {
        2
    }))) by {
        assert(k >= 2 ==> x.take(1).push(x[1]) =~= x.take(2));
        assert(k == 1 ==> x.take(1) =~= x);
    }
    assert(sextets(g3) == Some(x.take(if k < 3 {
        k as int
    } else {
        3
    }))) by {
        assert(k >= 3 ==> x.take(2).push(x[2]) =~= x.take(3));
    }
    assert(k >= 4 ==> x.take(3).push(x[3]) =~= x);
    assert(x.take(k as int) =~= x);
}

/// Base64 carries every text of bytes: what is decoded is what was encoded.
pub proof fn law_base64_reads_back(b: Seq<u8>)
    ensures
        sextets(base64_text(b)) is Some,
        octets(sextets(base64_text(b))->0) == b,
    decreases b.len(),
{
    if b.len() >= 3 {
        let rest = b.skip(3);
        law_base64_reads_back(rest);
        let x = seq![
            b[0] / 4,
            ((b[0] % 4) * 16 + b[1] / 16) as u8,
            ((b[1] % 16) * 4 + b[2] / 64) as u8,
            b[2] % 64,
        ];
        let g = seq![letter(x[0]), letter(x[1]), letter(x[2]), letter(x[3])];
        lemma_group(g, x);
        lemma_sextets_joined(g, base64_text(rest));
        let v = sextets(base64_text(rest))->0;
        assert(base64_text(b) =~= g + base64_text(rest));
        assert((x + v).skip(4) =~= v);
        assert(octets(x + v) =~= b) by {
            assert(b =~= seq![b[0], b[1], b[2]] + rest);
            assert(octets(x + v) =~= seq![b[0], b[1], b[2]] + octets(v));
        }
    } else if b.len() == 2 {
        let x = seq![b[0] / 4, ((b[0] % 4) * 16 + b[1] / 16) as u8, ((b[1] % 16) * 4) as u8];
        lemma_group(base64_text(b), x);
        assert(octets(x) =~= b);
    } else if b.len() == 1 {
        let x = seq![b[0] / 4, ((b[0] % 4) * 16) as u8];
        lemma_group(base64_text(b), x);
        assert(octets(x) =~= b);
    } else {
        assert(octets(Seq::<u8>::empty()) =~= b);
    }
}

proof fn lemma_base64_has_no_space(b: Seq<u8>)
    ensures
        forall|i: int| 0 <= i < base64_text(b).len() ==> !crate::words::is_space(#[trigger] base64_text(b)[i]),
    decreases b.len(),
{
    if b.len() >= 3 {
        lemma_base64_has_no_space(b.skip(3));
        lemma_letter(b[0] / 4);
        lemma_letter(((b[0] % 4) * 16 + b[1] / 16) as u8);
        lemma_letter(((b[1] % 16) * 4 + b[2] / 64) as u8);
        lemma_letter(b[2] % 64);
        let tail = base64_text(b.skip(3));
        assert forall|i: int| 0 <= i < base64_text(b).len() implies !crate::words::is_space(
            #[trigger] base64_text(b)[i],
        ) by {
            if i >= 4 {
                assert(base64_text(b)[i] == tail[i - 4]);
            }
        }
    } else if b.len() == 2 {
        lemma_letter(b[0] / 4);
        lemma_letter(((b[0] % 4) * 16 + b[1] / 16) as u8);
        lemma_letter(((b[1] % 16) * 4) as u8);
    } else if b.len() == 1 {
        lemma_letter(b[0] / 4);
        lemma_letter(((b[0] % 4) * 16) as u8);
    }
}

/// Without a token every request is let in; with one, a request without the
/// header is not.
pub proof fn law_token_switches_authorization(token: Seq<char>, header: Option<Seq<char>>)
    ensures
        token.len() == 0 ==> is_authorized(token, header),
        token.len() > 0 && header is None ==> !is_authorized(token, header),
{
}

/// The token as a Bearer token is let in, and no other one is.
pub proof fn law_bearer_token(token: Seq<char>, given: Seq<char>)
    requires
        token.len() > 0,
    ensures
        is_authorized(token, Some("Bearer "@ + given)) <==> trimmed(given) == token,
{
    reveal_strlit("Bearer ");
    let h = "Bearer "@ + given;
    assert(h.take(7) =~= "Bearer "@);
    assert(h.skip(7) =~= given);
}

/// Basic credentials are let in if and only if their password is the token, whoever
/// the user, or the credentials as a whole are.
pub proof fn law_basic_credentials(token: Seq<char>, user: Seq<char>, given: Seq<char>)
    requires
        token.len() > 0,
        !user.contains(':'),
    ensures
        is_authorized(token, Some("Basic "@ + base64_text(encode_utf8(user + seq![':'] + given)))) <==> given == token
            || user + seq![':'] + given == token,
{
    let s = user + seq![':'] + given;
    lemma_basic_text(token, s);
    assert forall|i: int| 0 <= i < user.len() implies s[i] != ':' by {
        assert(s[i] == user[i]);
        assert(user.contains(user[i]));
    }
    crate::words::lemma_first_place(s, ':', user.len());
    assert(behind(s, ':') =~= given);
}

/// Basic credentials with the token as password are let in, whoever the user.
pub proof fn law_basic_password(token: Seq<char>, user: Seq<char>)
    requires
        !user.contains(':'),
    ensures
        is_authorized(token, Some("Basic "@ + base64_text(encode_utf8(user + seq![':'] + token)))),
{
    if token.len() > 0 {
        law_basic_credentials(token, user, token);
    }
}

/// Basic credentials without a colon are let in if and only if they are the token.
pub proof fn law_basic_token(token: Seq<char>, given: Seq<char>)
    requires
        token.len() > 0,
        !given.contains(':'),
    ensures
        is_authorized(token, Some("Basic "@ + base64_text(encode_utf8(given)))) <==> given == token,
{
    lemma_basic_text(token, given);
    assert forall|i: int| 0 <= i < given.len() implies given[i] != ':' by {
        assert(given.contains(given[i]));
    }
    crate::words::lemma_first_place(given, ':', given.len());
    assert(behind(given, ':') =~= Seq::<char>::empty());
}

/// What counts of Basic credentials is the text that they encode.
proof fn lemma_basic_text(token: Seq<char>, s: Seq<char>)
    requires
        token.len() > 0,
    ensures
        is_authorized(token, Some("Basic "@ + base64_text(encode_utf8(s)))) == credentials_match(s, token),
{
    reveal_strlit("Bearer ");
    reveal_strlit("Basic ");
    let b = encode_utf8(s);
    let t = base64_text(b);
    let h = "Basic "@ + t;
    assert(h[1] == 'a');
    assert("Bearer "@[1] == 'e');
    if h.len() >= 7 {
        assert(h.take(7)[1] == 'a');
    }
    assert(!has_prefix(h, "Bearer "@));
    assert(h.take(6) =~= "Basic "@);
    assert(h.skip(6) =~= t);
    lemma_base64_has_no_space(b);
    assert(trimmed(t) == t);
    law_base64_reads_back(b);
    vstd::utf8::encode_utf8_valid_utf8(s);
    encode_utf8_decode_utf8(s);
}

/// A header of any other kind, or one that is no base64 where it should be, lets
/// nobody in.
pub proof fn law_other_credentials(token: Seq<char>, header: Seq<char>)
    requires
        token.len() > 0,
    ensures
        !has_prefix(header, "Bearer "@) && !has_prefix(header, "Basic "@) ==> !is_authorized(token, Some(header)),
        header.contains('*') && has_prefix(header, "Basic "@) ==> !is_authorized(token, Some(header)),
{
    reveal_strlit("Bearer ");
    reveal_strlit("Basic ");
    if header.contains('*') && has_prefix(header, "Basic "@) {
        assert("Bearer "@[1] == 'e');
        assert("Basic "@[1] == 'a');
        assert(header.take(6) == "Basic "@);
        assert(header.take(6)[1] == header[1]);
        if has_prefix(header, "Bearer "@) {
            assert(header.take(7)[1] == header[1]);
        }
        let i = choose|i: int| 0 <= i < header.len() && header[i] == '*';
        if i < 6 {
            assert(header.take(6)[i] == header[i]);
        }
        let t = header.skip(6);
        assert(t[i - 6] == '*');
        lemma_trim_keeps(t, i - 6);
        let k = choose|k: int| 0 <= k < trimmed(t).len() && #[trigger] trimmed(t)[k] == '*';
        lemma_no_letter(trimmed(t), k);
    }
}

/// What is no white space outlives trimming.
proof fn lemma_trim_keeps(s: Seq<char>, i: int)
    requires
        0 <= i < s.len(),
        s[i] == '*',
    ensures
        exists|k: int| 0 <= k < trimmed(s).len() && #[trigger] trimmed(s)[k] == '*',
{
    let a = crate::words::stripped_start(s, crate::words::Margin::Space);
    lemma_start_keeps(s, i);
    let k = choose|k: int| 0 <= k < a.len() && #[trigger] a[k] == '*';
    lemma_end_keeps(a, k);
    let b = crate::words::stripped_end(a, crate::words::Margin::Space);
    let j = choose|j: int| 0 <= j < b.len() && #[trigger] b[j] == '*';
    assert(trimmed(s)[j] == '*');
}

proof fn lemma_start_keeps(s: Seq<char>, i: int)
    requires
        0 <= i < s.len(),
        s[i] == '*',
    ensures
        exists|k: int|
            0 <= k < crate::words::stripped_start(s, crate::words::Margin::Space).len()
                && #[trigger] crate::words::stripped_start(s, crate::words::Margin::Space)[k] == '*',
    decreases s.len(),
{
    if crate::words::Margin::Space.holds(s[0]) {
        assert(s.skip(1)[i - 1] == s[i]);
        lemma_start_keeps(s.skip(1), i - 1);
        let t = crate::words::stripped_start(s.skip(1), crate::words::Margin::Space);
        let k = choose|k: int| 0 <= k < t.len() && #[trigger] t[k] == '*';
        assert(crate::words::stripped_start(s, crate::words::Margin::Space)[k] == '*');
    } else {
        assert(crate::words::stripped_start(s, crate::words::Margin::Space)[i] == '*');
    }
}

proof fn lemma_end_keeps(s: Seq<char>, i: int)
    requires
        0 <= i < s.len(),
        s[i] == '*',
    ensures
        exists|k: int|
            0 <= k < crate::words::stripped_end(s, crate::words::Margin::Space).len()
                && #[trigger] crate::words::stripped_end(s, crate::words::Margin::Space)[k] == '*',
    decreases s.len(),
{
    if crate::words::Margin::Space.holds(s.last()) {
        assert(s.drop_last()[i] == s[i]);
        lemma_end_keeps(s.drop_last(), i);
        let t = crate::words::stripped_end(s.drop_last(), crate::words::Margin::Space);
        let k = choose|k: int| 0 <= k < t.len() && #[trigger] t[k] == '*';
        assert(crate::words::stripped_end(s, crate::words::Margin::Space)[k] == '*');
    } else {
        assert(crate::words::stripped_end(s, crate::words::Margin::Space)[i] == '*');
    }
}

/// A character outside of the alphabet spoils the text.
proof fn lemma_no_letter(s: Seq<char>, k: int)
    requires
        0 <= k < s.len(),
        s[k] == '*',
    ensures
        sextets(s) is None,
    decreases s.len(),
{
    if k < s.len() - 1 {
        assert(s.drop_last()[k] == s[k]);
        lemma_no_letter(s.drop_last(), k);
    }
}

/// Padding and line ends within a base64 text stand for nothing, wherever they are.
pub proof fn law_fillers_stand_for_nothing(a: Seq<char>, b: Seq<char>, c: char)
    requires
        c == '=' || c == '\n' || c == '\r',
        sextets(a) is Some,
        sextets(b) is Some,
    ensures
        sextets(a + seq![c] + b) == Some(sextets(a)->0 + sextets(b)->0),
        sextets(a + b) == Some(sextets(a)->0 + sextets(b)->0),
{
    let s = seq![c];
    assert(s.drop_last() =~= Seq::<char>::empty());
    reveal_with_fuel(sextets, 2);
    assert(sextets(s) == Some(Seq::<u8>::empty()));
    lemma_sextets_joined(a, s);
    lemma_sextets_joined(a + s, b);
    lemma_sextets_joined(a, b);
    assert(sextets(a)->0 + Seq::<u8>::empty() =~= sextets(a)->0);
}

} // verus!
