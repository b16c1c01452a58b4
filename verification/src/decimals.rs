//! Decimal numbers in a configuration, read as whole nanoseconds.
//!
//! A number is written as a floating-point number is: a sign, digits with at
//! most one point, an exponent; or `inf`, `infinity`, `nan` in any case. Its
//! exact value is taken, not its nearest binary fraction.

use vstd::arithmetic::power::{lemma_pow_positive, pow};
use vstd::prelude::*;
use vstd::slice::slice_subrange;

#[allow(unused_imports)]
use crate::text::{decimal, digit};
use crate::words::{find, head_of, is_word, rest_of};
#[allow(unused_imports)]
use crate::words::{before, behind, is_digit, is_numeral, lemma_place_of, numeral, place_of};

verus! {

/// A decimal number.
pub enum Decimal {
    Nan,
    Infinite { negative: bool },
    /// The number `digits` with the decimal point behind the first `point` of
    /// them; digits missing there are zeros.
    Finite { negative: bool, digits: Seq<char>, point: int },
}

/// A letter of the Latin alphabet in lower case.
pub open spec fn lower(c: char) -> char {
    if 'A' <= c <= 'Z' {
        (c as u32 + 32) as char
    } else {
        c
    }
}

/// A text with its Latin letters in lower case.
pub open spec fn lowered(s: Seq<char>) -> Seq<char> {
    s.map_values(|c: char| lower(c))
}

/// Whether a text is made of digits alone.
pub open spec fn all_digits(s: Seq<char>) -> bool {
    forall|i: int| 0 <= i < s.len() ==> is_digit(#[trigger] s[i])
}

pub open spec fn has_sign(s: Seq<char>) -> bool {
    s.len() > 0 && (s[0] == '+' || s[0] == '-')
}

/// A text without its sign.
pub open spec fn unsigned(s: Seq<char>) -> Seq<char> {
    if has_sign(s) {
        s.skip(1)
    } else {
        s
    }
}

pub open spec fn is_negative(s: Seq<char>) -> bool {
    s.len() > 0 && s[0] == '-'
}

/// The exponent that a text stands for.
pub open spec fn exponent_of(x: Seq<char>) -> Option<int> {
    let d = unsigned(x);
    if !is_numeral(d) {
        None
    } else if is_negative(x) {
        Some(-(numeral(d) as int))
    } else {
        Some(numeral(d) as int)
    }
}

/// The digits and the place of the point that an unsigned text stands for.
pub open spec fn finite_of(b: Seq<char>) -> Option<(Seq<char>, int)> {
    let m = before(b, 'e');
    let i = before(m, '.');
    let f = behind(m, '.');
    if !all_digits(i) || !all_digits(f) || i.len() + f.len() == 0 {
        None
    } else if place_of(b, 'e') == b.len() {
        Some((i + f, i.len() as int))
    } else {
        match exponent_of(behind(b, 'e')) {
            Some(e) => Some((i + f, i.len() + e)),
            None => None,
        }
    }
}

/// The number that a text stands for, where it is one.
pub open spec fn decimal_of(s: Seq<char>) -> Option<Decimal> {
    let negative = is_negative(s);
    let b = lowered(unsigned(s));
    if b == "inf"@ || b == "infinity"@ {
        Some(Decimal::Infinite { negative })
    } else if b == "nan"@ {
        Some(Decimal::Nan)
    } else {
        match finite_of(b) {
            Some((digits, point)) => Some(Decimal::Finite { negative, digits, point }),
            None => None,
        }
    }
}

/// The digits with the point behind the first `n` of them, the fraction cut off.
pub open spec fn floor_at(digits: Seq<char>, n: int) -> nat {
    if n <= 0 {
        0
    } else if n <= digits.len() {
        numeral(digits.take(n))
    } else {
        (numeral(digits) * pow(10, (n - digits.len()) as nat)) as nat
    }
}

/// Whether there is more than zeros behind the point.
pub open spec fn fraction_at(digits: Seq<char>, n: int) -> bool {
    exists|i: int| n <= i && 0 <= i < digits.len() && #[trigger] digits[i] != '0'
}

/// The digits with the point behind the first `n` of them, rounded up.
pub open spec fn ceil_at(digits: Seq<char>, n: int) -> nat {
    floor_at(digits, n) + (if fraction_at(digits, n) {
        1nat
    } else {
        0
    })
}

/// A magnitude cut off at the greatest `i128`.
pub open spec fn capped(x: nat) -> int {
    if x > i128::MAX {
        i128::MAX as int
    } else {
        x as int
    }
}

/// A number of units of `10^unit` nanoseconds as whole nanoseconds: the greatest
/// below it, or the least above it if `up`. What is not a number is `-1`.
pub open spec fn nanos(d: Decimal, unit: nat, up: bool) -> int {
    match d {
        Decimal::Nan => -1,
        Decimal::Infinite { negative } => if negative {
            -(i128::MAX as int)
        } else {
            i128::MAX as int
        },
        Decimal::Finite { negative, digits, point } => if negative {
            -capped(
                if up {
                    floor_at(digits, point + unit)
                } else {
                    ceil_at(digits, point + unit)
                },
            )
        } else {
            capped(
                if up {
                    ceil_at(digits, point + unit)
                } else {
                    floor_at(digits, point + unit)
                },
            )
        },
    }
}

/// The nanoseconds that a text stands for, where it is a number.
pub open spec fn nanos_of(s: Seq<char>, unit: nat, up: bool) -> Option<int> {
    match decimal_of(s) {
        Some(d) => Some(nanos(d, unit, up)),
        None => None,
    }
}

/// No text is longer than this, nor is an exponent that is farther out told apart.
pub const FAR: i128 = 0x10_0000_0000_0000_0000_0000;

fn to_lower(s: &[char]) -> (r: Vec<char>)
    ensures
        r@ == lowered(s@),
{
    let mut out: Vec<char> = Vec::new();
    let n: usize = s.len();
    let mut i: usize = 0;
    while i < n
        invariant
            i <= n,
            n == s@.len(),
            out@ == lowered(s@.take(i as int)),
        decreases n - i,
    {
        let c: char = s[i];
        if c >= 'A' && c <= 'Z' {
            out.push((c as u32 as u8 + 32) as char);
        } else {
            out.push(c);
        }
        i = i + 1;
        assert(out@ =~= lowered(s@.take(i as int)));
    }
    assert(s@.take(n as int) =~= s@);
    out
}

fn are_digits(s: &[char]) -> (r: bool)
    ensures
        r == all_digits(s@),
{
    let n: usize = s.len();
    let mut i: usize = 0;
    while i < n
        invariant
            i <= n,
            n == s@.len(),
            forall|j: int| 0 <= j < i ==> is_digit(#[trigger] s@[j]),
        decreases n - i,
    {
        let c: char = s[i];
        if !(c >= '0' && c <= '9') {
            assert(!is_digit(s@[i as int]));
            return false;
        }
        i = i + 1;
    }
    true
}

/// A number, or the bound where it is greater.
pub open spec fn bounded(x: nat, bound: int) -> int {
    if x > bound {
        bound
    } else {
        x as int
    }
}

/// Reads digits, up to a bound.
fn read_digits(s: &[char], bound: i128) -> (r: i128)
    requires
        all_digits(s@),
        0 < bound,
    ensures
        r == bounded(numeral(s@), bound as int),
{
    let n: usize = s.len();
    let mut acc: u128 = 0;
    let mut i: usize = 0;
    while i < n
        invariant
            i <= n,
            n == s@.len(),
            all_digits(s@),
            0 < bound,
            acc == bounded(numeral(s@.take(i as int)), bound as int),
        decreases n - i,
    {
        assert(is_digit(s@[i as int]));
        let v: u128 = (s[i] as u32 - 48) as u128;
        assert(s@.take(i + 1).drop_last() =~= s@.take(i as int));
        if acc > bound as u128 / 10 || acc * 10 + v > bound as u128 {
            acc = bound as u128;
        } else {
            acc = acc * 10 + v;
        }
        i = i + 1;
    }
    assert(s@.take(n as int) =~= s@);
    acc as i128
}

proof fn lemma_numeral_with_zeros(x: nat, zeros: nat)
    requires
        x > 0,
        zeros >= 39,
    ensures
        x * pow(10, zeros) > i128::MAX,
{
    reveal(pow);
    let low = pow(10, 39);
    assert(low > i128::MAX) by {
        reveal_with_fuel(pow, 14);
        assert(pow(10, 13) == 10_000_000_000_000);
        vstd::arithmetic::power::lemma_pow_adds(10, 13, 13);
        vstd::arithmetic::power::lemma_pow_adds(10, 26, 13);
        assert(pow(10, 26) == 10_000_000_000_000 * 10_000_000_000_000);
        assert(pow(10, 39) == pow(10, 26) * 10_000_000_000_000);
    }
    vstd::arithmetic::power::lemma_pow_increases(10, 39, zeros);
    assert(x * pow(10, zeros) >= pow(10, zeros)) by (nonlinear_arith)
        requires
            x > 0,
            pow(10, zeros) > 0,
    ;
}

/// The digits with the point behind the first `n` of them, cut off at the
/// greatest `i128`.
fn floor_digits(digits: &[char], n: i128) -> (r: i128)
    requires
        all_digits(digits@),
    ensures
        r == capped(floor_at(digits@, n as int)),
{
    let k: usize = digits.len();
    if n <= 0 {
        0
    } else if n <= k as i128 {
        let head = slice_subrange(digits, 0, n as usize);
        assert(head@ =~= digits@.take(n as int));
        read_digits(head, i128::MAX)
    } else {
        let mut acc: i128 = read_digits(digits, i128::MAX);
        let ghost x = numeral(digits@);
        let zeros: i128 = n - k as i128;
        if acc == 0 {
            assert(0 * pow(10, zeros as nat) == 0) by (nonlinear_arith);
            return 0;
        }
        if zeros >= 39 {
            proof {
                lemma_numeral_with_zeros(x, zeros as nat);
            }
            return i128::MAX;
        }
        let mut i: i128 = 0;
        assert(x * pow(10, 0) == x) by {
            reveal(pow);
            assert(x * 1 == x) by (nonlinear_arith);
        }
        while i < zeros
            invariant
                0 <= i <= zeros < 39,
                x > 0,
                0 < acc,
                acc == capped((x * pow(10, i as nat)) as nat),
            decreases zeros - i,
        {
            proof {
                reveal(pow);
                lemma_pow_positive(10, i as nat);
                assert(x * pow(10, (i + 1) as nat) == 10 * (x * pow(10, i as nat))) by (nonlinear_arith)
                    requires
                        pow(10, (i + 1) as nat) == 10 * pow(10, i as nat),
                ;
                assert(x * pow(10, i as nat) > 0) by (nonlinear_arith)
                    requires
                        x > 0,
                        pow(10, i as nat) > 0,
                ;
            }
            if acc > i128::MAX / 10 {
                acc = i128::MAX;
            } else {
                acc = acc * 10;
            }
            i = i + 1;
        }
        acc
    }
}

fn is_fraction(digits: &[char], n: i128) -> (r: bool)
    ensures
        r == fraction_at(digits@, n as int),
{
    let k: usize = digits.len();
    let mut i: usize = 0;
    while i < k
        invariant
            i <= k,
            k == digits@.len(),
            forall|j: int| n <= j && 0 <= j < i ==> #[trigger] digits@[j] == '0',
        decreases k - i,
    {
        if i as i128 >= n && digits[i] != '0' {
            assert(digits@[i as int] != '0');
            return true;
        }
        i = i + 1;
    }
    false
}

/// Reads the exponent, up to a bound that no length of text reaches.
fn read_exponent(x: &[char]) -> (r: Option<i128>)
    ensures
        match (r, exponent_of(x@)) {
            (Some(e), Some(v)) => -FAR <= e <= FAR && (e == v || (e == FAR && v > FAR) || (e == -FAR && v < -FAR)),
            (None, None) => true,
            _ => false,
        },
{
    let n: usize = x.len();
    let signed: bool = n > 0 && (x[0] == '+' || x[0] == '-');
    let d = slice_subrange(
        x,
        if signed {
            1
        } else {
            0
        },
        n,
    );
    assert(d@ =~= unsigned(x@));
    if d.len() == 0 || !are_digits(d) {
        return None;
    }
    let e: i128 = read_digits(d, FAR);
    if x[0] == '-' {
        Some(-e)
    } else {
        Some(e)
    }
}

/// Far out, the exponent does not change the nanoseconds.
proof fn lemma_far(digits: Seq<char>, n: int, m: int)
    requires
        digits.len() < 0x1_0000_0000_0000_0000,
        (n >= FAR && m >= FAR) || (n <= 0 && m <= 0) || n == m,
    ensures
        capped(floor_at(digits, n)) == capped(floor_at(digits, m)),
        fraction_at(digits, n) == fraction_at(digits, m),
{
    if n >= FAR && m >= FAR && n != m {
        let x = numeral(digits);
        if x > 0 {
            lemma_numeral_with_zeros(x, (n - digits.len()) as nat);
            lemma_numeral_with_zeros(x, (m - digits.len()) as nat);
        } else {
            assert(0 * pow(10, (n - digits.len()) as nat) == 0) by (nonlinear_arith);
            assert(0 * pow(10, (m - digits.len()) as nat) == 0) by (nonlinear_arith);
        }
    }
}

/// Reads the digits of an unsigned text and the place of its point.
fn read_finite(b: &[char]) -> (r: Option<(Vec<char>, i128)>)
    ensures
        match (r, finite_of(b@)) {
            (Some(x), Some(v)) => {
                &&& x.0@ == v.0
                &&& all_digits(v.0)
                &&& -FAR <= x.1 <= FAR + b@.len()
                &&& x.1 == v.1 || (x.1 >= FAR && v.1 > FAR) || (x.1 <= b@.len() - FAR && v.1 < b@.len() - FAR)
            },
            (None, None) => true,
            _ => false,
        },
{
    let m = head_of(b, 'e');
    let i = head_of(m, '.');
    let f = rest_of(m, '.');
    if !are_digits(i) || !are_digits(f) || (i.len() == 0 && f.len() == 0) {
        return None;
    }
    proof {
        lemma_place_of(b@, 'e');
        lemma_place_of(m@, '.');
    }
    let k: usize = i.len();
    let mut digits: Vec<char> = Vec::new();
    digits.extend_from_slice(i);
    digits.extend_from_slice(f);
    assert(digits@ =~= i@ + f@);
    assert(all_digits(digits@));
    if find(b, 'e') == b.len() {
        Some((digits, k as i128))
    } else {
        match read_exponent(rest_of(b, 'e')) {
            Some(e) => Some((digits, k as i128 + e)),
            None => None,
        }
    }
}

/// Reads a decimal number of units of `10^unit` nanoseconds as whole
/// nanoseconds, rounded down, or up if `up`.
pub fn parse_nanos(s: &[char], unit: u32, up: bool) -> (r: Option<i128>)
    requires
        unit <= 9,
    ensures
        match (r, nanos_of(s@, unit as nat, up)) {
            (Some(a), Some(b)) => a == b,
            (None, None) => true,
            _ => false,
        },
{
    let n: usize = s.len();
    let signed: bool = n > 0 && (s[0] == '+' || s[0] == '-');
    let negative: bool = n > 0 && s[0] == '-';
    let body = slice_subrange(
        s,
        if signed {
            1
        } else {
            0
        },
        n,
    );
    assert(body@ =~= unsigned(s@));
    let b: Vec<char> = to_lower(body);
    let b = b.as_slice();
    if is_word(b, "inf") || is_word(b, "infinity") {
        return Some(
            if negative {
                -i128::MAX
            } else {
                i128::MAX
            },
        );
    }
    if is_word(b, "nan") {
        return Some(-1);
    }
    let (digits, point): (Vec<char>, i128) = match read_finite(b) {
        Some(x) => x,
        None => return None,
    };
    let at: i128 = point + unit as i128;
    let ghost found = finite_of(b@)->0;
    let ghost exact = found.1 + unit;
    proof {
        assert(digits@.len() == digits.len());
        lemma_far(digits@, at as int, exact);
    }
    let low: i128 = floor_digits(digits.as_slice(), at);
    let high: i128 = if low < i128::MAX && is_fraction(digits.as_slice(), at) {
        low + 1
    } else {
        low
    };
    assert(high == capped(ceil_at(digits@, exact)));
    Some(
        if negative {
            -(if up {
                low
            } else {
                high
            })
        } else {
            if up {
                high
            } else {
                low
            }
        },
    )
}

proof fn lemma_digits_are_lower(s: Seq<char>)
    requires
        all_digits(s),
    ensures
        lowered(s) == s,
{
    assert(lowered(s) =~= s);
}

/// A whole number of units is that many units of nanoseconds, however it is rounded.
pub proof fn law_whole_units_of_time(n: nat, unit: nat, up: bool)
    requires
        n * pow(10, unit) <= i128::MAX,
    ensures
        nanos_of(decimal(n), unit, up) == Some((n * pow(10, unit)) as int),
{
    let s = decimal(n);
    crate::words::law_decimal_reads_back(n);
    assert(is_digit(s[0]));
    lemma_digits_are_lower(s);
    reveal_strlit("inf");
    reveal_strlit("infinity");
    reveal_strlit("nan");
    assert("inf"@[0] == 'i' && "infinity"@[0] == 'i' && "nan"@[0] == 'n');
    assert forall|i: int| 0 <= i < s.len() implies s[i] != 'e' && s[i] != '.' by {
        assert(is_digit(s[i]));
    }
    crate::words::lemma_first_place(s, 'e', s.len());
    assert(before(s, 'e') =~= s);
    crate::words::lemma_first_place(s, '.', s.len());
    assert(before(s, '.') =~= s);
    assert(s + Seq::<char>::empty() =~= s);
    assert(finite_of(s) == Some((s, s.len() as int)));
    let at = s.len() as int + unit;
    assert(!fraction_at(s, at));
    if unit == 0 {
        assert(s.take(at) =~= s);
        reveal(pow);
        assert(pow(10, 0) == 1);
        assert(n * 1 == n);
    }
    assert(floor_at(s, at) == n * pow(10, unit)) by {
        assert(numeral(s) == n);
        reveal(pow);
        lemma_nonnegative(n, unit);
    }
}

proof fn lemma_nonnegative(n: nat, unit: nat)
    ensures
        n * pow(10, unit) >= 0,
        pow(10, unit) > 0,
{
    lemma_pow_positive(10, unit);
    assert(n * pow(10, unit) >= 0) by (nonlinear_arith)
        requires
            n >= 0,
            pow(10, unit) > 0,
    ;
}

/// A number of units with one decimal, from units of ten nanoseconds on.
pub proof fn law_tenths_of_units_of_time(a: nat, b: nat, unit: nat, up: bool)
    requires
        b < 10,
        unit >= 1,
        (10 * a + b) * pow(10, (unit - 1) as nat) <= i128::MAX,
    ensures
        nanos_of(decimal(a) + seq!['.', digit(b)], unit, up) == Some(((10 * a + b) * pow(10, (unit - 1) as nat)) as int),
{
    let i = decimal(a);
    let f = seq![digit(b)];
    let s = decimal(a) + seq!['.', digit(b)];
    crate::words::law_decimal_reads_back(a);
    assert(digit(b) as nat == 48 + b);
    assert(is_digit(i[0]));
    assert(s[0] == i[0]);
    assert forall|k: int| 0 <= k < s.len() implies s[k] != 'e' && lower(s[k]) == s[k] by {
        if k < i.len() {
            assert(s[k] == i[k]);
            assert(is_digit(i[k]));
        }
    }
    assert(lowered(s) =~= s);
    reveal_strlit("inf");
    reveal_strlit("infinity");
    reveal_strlit("nan");
    assert("inf"@[0] == 'i' && "infinity"@[0] == 'i' && "nan"@[0] == 'n');
    crate::words::lemma_first_place(s, 'e', s.len());
    assert(before(s, 'e') =~= s);
    assert forall|k: int| 0 <= k < i.len() implies s[k] != '.' by {
        assert(s[k] == i[k]);
        assert(is_digit(i[k]));
    }
    assert(s[i.len() as int] == '.');
    crate::words::lemma_first_place(s, '.', i.len());
    assert(before(s, '.') =~= i);
    assert(behind(s, '.') =~= f);
    let digits = i + f;
    assert(digits =~= i.push(digit(b)));
    assert(digits.drop_last() =~= i);
    assert(numeral(digits) == 10 * a + b);
    assert(finite_of(s) == Some((digits, i.len() as int)));
    let at = i.len() as int + unit;
    assert(!fraction_at(digits, at));
    lemma_nonnegative(10 * a + b, (unit - 1) as nat);
    if unit == 1 {
        assert(digits.take(at) =~= digits);
        reveal(pow);
        assert(pow(10, 0) == 1);
        assert((10 * a + b) * 1 == 10 * a + b);
    }
}

/// What lies between two nanoseconds goes down or up as asked for; a minus sign makes
/// it negative.
pub proof fn law_rounding_to_nanoseconds(digits: Seq<char>, point: int, unit: nat)
    ensures
        nanos(Decimal::Finite { negative: false, digits, point }, unit, false) <= nanos(
            Decimal::Finite { negative: false, digits, point },
            unit,
            true,
        ) <= nanos(Decimal::Finite { negative: false, digits, point }, unit, false) + 1,
        nanos(Decimal::Finite { negative: true, digits, point }, unit, false) == -nanos(
            Decimal::Finite { negative: false, digits, point },
            unit,
            true,
        ),
        nanos(Decimal::Finite { negative: true, digits, point }, unit, true) == -nanos(
            Decimal::Finite { negative: false, digits, point },
            unit,
            false,
        ),
{
}

/// What is not a number is less than any span of time, and infinity is more, or less,
/// than any.
pub proof fn law_no_number_of_units(unit: nat, up: bool)
    ensures
        nanos(Decimal::Nan, unit, up) == -1,
        nanos(Decimal::Infinite { negative: false }, unit, up) == i128::MAX,
        nanos(Decimal::Infinite { negative: true }, unit, up) == -(i128::MAX as int),
{
}

/// Asked to go up, a positive number goes up by one if and only if a digit other than
/// zero lies behind the last whole nanosecond.
pub proof fn law_rounding_up(digits: Seq<char>, point: int, unit: nat)
    requires
        floor_at(digits, point + unit) < i128::MAX,
    ensures
        nanos(Decimal::Finite { negative: false, digits, point }, unit, true) - nanos(
            Decimal::Finite { negative: false, digits, point },
            unit,
            false,
        ) == (if exists|i: int| point + unit <= i && 0 <= i < digits.len() && #[trigger] digits[i] != '0' {
            1int
        } else {
            0
        }),
{
}

/// What is beyond the greatest number of nanoseconds is that number.
pub proof fn law_greatest_span(digits: Seq<char>, point: int, unit: nat, up: bool)
    requires
        floor_at(digits, point + unit) >= i128::MAX,
    ensures
        nanos(Decimal::Finite { negative: false, digits, point }, unit, up) == i128::MAX,
        nanos(Decimal::Finite { negative: true, digits, point }, unit, up) == -(i128::MAX as int),
{
}

/// A sign in front is taken for what it is.
pub proof fn law_signs(n: nat, unit: nat, up: bool)
    requires
        n * pow(10, unit) <= i128::MAX,
    ensures
        nanos_of(seq!['+'] + decimal(n), unit, up) == Some((n * pow(10, unit)) as int),
        nanos_of(seq!['-'] + decimal(n), unit, up) == Some(-(n * pow(10, unit)) as int),
{
    let d = decimal(n);
    let (p, m) = (seq!['+'] + d, seq!['-'] + d);
    crate::words::law_decimal_reads_back(n);
    assert(is_digit(d[0]));
    assert(p.skip(1) =~= d && m.skip(1) =~= d);
    assert(p[0] == '+' && m[0] == '-');
    law_whole_units_of_time(n, unit, up);
    law_whole_units_of_time(n, unit, !up);
    assert(unsigned(p) == d && unsigned(m) == d && unsigned(d) == d);
    let b = lowered(d);
    lemma_digits_are_lower(d);
    reveal_strlit("inf");
    reveal_strlit("infinity");
    reveal_strlit("nan");
    assert("inf"@[0] == 'i' && "infinity"@[0] == 'i' && "nan"@[0] == 'n');
    assert(finite_of(b) is Some);
    let (digits, point) = finite_of(b)->0;
    assert(decimal_of(d) == Some(Decimal::Finite { negative: false, digits, point }));
    assert(decimal_of(p) == Some(Decimal::Finite { negative: false, digits, point }));
    assert(decimal_of(m) == Some(Decimal::Finite { negative: true, digits, point }));
    law_rounding_to_nanoseconds(digits, point, unit);
}

/// A number with an exponent of ten is that many times ten times as much.
pub proof fn law_exponents(n: nat, k: nat, unit: nat, up: bool)
    requires
        n * pow(10, unit + k) <= i128::MAX,
    ensures
        nanos_of(decimal(n) + seq!['e'] + decimal(k), unit, up) == Some((n * pow(10, unit + k)) as int),
        nanos_of(decimal(n) + seq!['E'] + decimal(k), unit, up) == Some((n * pow(10, unit + k)) as int),
{
    let (d, x) = (decimal(n), decimal(k));
    let s = d + seq!['e'] + x;
    let t = d + seq!['E'] + x;
    crate::words::law_decimal_reads_back(n);
    crate::words::law_decimal_reads_back(k);
    assert(is_digit(d[0]) && is_digit(x[0]));
    assert(s[0] == d[0] && t[0] == d[0]);
    assert forall|i: int| 0 <= i < s.len() implies lower(s[i]) == s[i] && lower(t[i]) == s[i] by {
        if i < d.len() {
            assert(s[i] == d[i] && t[i] == d[i]);
            assert(is_digit(d[i]));
        } else if i > d.len() {
            assert(s[i] == x[i - d.len() - 1] && t[i] == x[i - d.len() - 1]);
            assert(is_digit(x[i - d.len() - 1]));
        }
    }
    assert(lowered(s) =~= s);
    assert(lowered(t) =~= s);
    reveal_strlit("inf");
    reveal_strlit("infinity");
    reveal_strlit("nan");
    assert("inf"@[0] == 'i' && "infinity"@[0] == 'i' && "nan"@[0] == 'n');
    assert forall|i: int| 0 <= i < d.len() implies s[i] != 'e' && d[i] != '.' by {
        assert(s[i] == d[i]);
        assert(is_digit(d[i]));
    }
    assert(s[d.len() as int] == 'e');
    crate::words::lemma_first_place(s, 'e', d.len());
    assert(before(s, 'e') =~= d);
    assert(behind(s, 'e') =~= x);
    crate::words::lemma_first_place(d, '.', d.len());
    assert(before(d, '.') =~= d);
    assert(d + Seq::<char>::empty() =~= d);
    assert(exponent_of(x) == Some(k as int));
    assert(finite_of(s) == Some((d, d.len() + k as int)));
    let at = d.len() + k + unit as int;
    assert(!fraction_at(d, at));
    lemma_nonnegative(n, unit + k);
    if unit + k == 0 {
        assert(d.take(at) =~= d);
        reveal(pow);
        assert(pow(10, 0) == 1);
        assert(n * 1 == n);
    }
    assert((at - d.len()) as nat == unit + k);
}

/// A number with a negative exponent of ten is that many times ten times less.
pub proof fn law_negative_exponents(n: nat, k: nat, unit: nat, up: bool)
    requires
        k <= unit,
        n * pow(10, (unit - k) as nat) <= i128::MAX,
    ensures
        nanos_of(decimal(n) + seq!['e', '-'] + decimal(k), unit, up) == Some((n * pow(10, (unit - k) as nat)) as int),
{
    let (d, x) = (decimal(n), decimal(k));
    let s = d + seq!['e', '-'] + x;
    let y = seq!['-'] + x;
    crate::words::law_decimal_reads_back(n);
    crate::words::law_decimal_reads_back(k);
    assert(is_digit(d[0]) && is_digit(x[0]));
    assert(s[0] == d[0]);
    assert forall|i: int| 0 <= i < s.len() implies lower(s[i]) == s[i] by {
        if i < d.len() {
            assert(s[i] == d[i]);
            assert(is_digit(d[i]));
        } else if i > d.len() + 1 {
            assert(s[i] == x[i - d.len() - 2]);
            assert(is_digit(x[i - d.len() - 2]));
        }
    }
    assert(lowered(s) =~= s);
    reveal_strlit("inf");
    reveal_strlit("infinity");
    reveal_strlit("nan");
    assert("inf"@[0] == 'i' && "infinity"@[0] == 'i' && "nan"@[0] == 'n');
    assert forall|i: int| 0 <= i < d.len() implies s[i] != 'e' && d[i] != '.' by {
        assert(s[i] == d[i]);
        assert(is_digit(d[i]));
    }
    assert(s[d.len() as int] == 'e');
    crate::words::lemma_first_place(s, 'e', d.len());
    assert(before(s, 'e') =~= d);
    assert(behind(s, 'e') =~= y);
    crate::words::lemma_first_place(d, '.', d.len());
    assert(before(d, '.') =~= d);
    assert(d + Seq::<char>::empty() =~= d);
    assert(y[0] == '-');
    assert(y.skip(1) =~= x);
    assert(exponent_of(y) == Some(-(k as int)));
    assert(finite_of(s) == Some((d, d.len() - k)));
    let at = d.len() - k + unit;
    assert(!fraction_at(d, at));
    lemma_nonnegative(n, (unit - k) as nat);
    if unit == k {
        assert(d.take(at) =~= d);
        reveal(pow);
        assert(pow(10, 0) == 1);
        assert(n * 1 == n);
    }
    assert((at - d.len()) as nat == (unit - k) as nat);
}

} // verus!
