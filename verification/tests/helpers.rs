use picocap::binary64::Binary64;
use picocap::bytes::{be128, be16, be32, flow_hash, fnv1a, fnv1a_masked, rest};
use picocap::digest::sha256_hex;
use picocap::figures::{
    bar_beside, bar_of_share, bits_per_second, conformance, human_bytes, megabits_per_second,
    percent_of, push_hundredths_of, push_whole_figure, score, units_in,
};
use picocap::frame::{l2, layer, linktype_name, magic_info, proto_name, Format};
use picocap::moments::{enhanced_moment, record_moment};
use picocap::ranking::{ranked, total_of};
use picocap::text::{
    decimal_text, grp, hex, json_str, md_esc, push_bool, push_digits, push_hundredths,
    push_doubled, push_padded_left, push_padded_right, push_tenths,
};
use picocap::time::{fmt_utc, human_dur};
use picocap::words::{chars_of, parse_unsigned, starts_with_word, strip, text_of, trim, Margin};

fn whole(n: u128) -> Binary64 {
    Binary64::whole(n)
}

fn float(b: Binary64) -> f64 {
    b.mant as f64 * 2f64.powi(b.exp)
}

fn tenths(b: Binary64) -> String {
    let mut s = String::new();
    push_tenths(&mut s, b.fixed(10));
    s
}

fn hundredths(b: Binary64) -> String {
    let mut s = String::new();
    push_hundredths(&mut s, b.fixed(100));
    s
}

// a plain congruential sequence of test values
fn values(n: usize) -> Vec<u64> {
    let mut x: u64 = 88172645463325252;
    let mut out = Vec::new();
    for i in 0..n {
        x = x
            .wrapping_mul(6364136223846793005)
            .wrapping_add(1442695040888963407);
        out.push((x >> 11) >> (i % 50));
    }
    out
}

#[test]
fn helpers_format_numbers() {
    assert_eq!(grp(197531), "197.531");
    assert_eq!(grp(5), "5");
    assert_eq!(human_bytes(1536), "1.5 KB");
    assert_eq!(human_bytes(500), "500 B");
    assert!(fmt_utc(whole(0)).starts_with('-') || fmt_utc(whole(0)) == "-");
    assert_eq!(fmt_utc(whole(1_000_000_000)), "2001-09-09 01:46:40 UTC");
}

#[test]
fn grouping_sets_dots_every_three_digits() {
    assert_eq!(grp(0), "0");
    assert_eq!(grp(999), "999");
    assert_eq!(grp(1000), "1.000");
    assert_eq!(grp(1234567), "1.234.567");
    assert_eq!(grp(u64::MAX), "18.446.744.073.709.551.615");
    assert_eq!(grp(u64::MAX).replace('.', ""), u64::MAX.to_string());
}

#[test]
fn sizes_in_units() {
    assert_eq!(human_bytes(0), "0 B");
    assert_eq!(human_bytes(1023), "1023 B");
    assert_eq!(human_bytes(1024), "1.0 KB");
    assert_eq!(human_bytes(1048575), "1024.0 KB");
    assert_eq!(human_bytes(1048576), "1.0 MB");
    assert_eq!(human_bytes(768 * 1024 * 1024), "768.0 MB");
    assert_eq!(human_bytes(3 << 30), "3.0 GB");
    assert_eq!(human_bytes(5 << 40), "5.0 TB");
    for v in values(200) {
        let mut x = v as f64;
        let mut i = 0;
        while x >= 1024.0 && i < 4 {
            x /= 1024.0;
            i += 1;
        }
        let unit = ["B", "KB", "MB", "GB", "TB"][i];
        let want = if i == 0 {
            format!("{v} B")
        } else {
            format!("{x:.1} {unit}")
        };
        assert_eq!(human_bytes(v as usize), want);
    }
}

#[test]
fn moments_and_durations() {
    assert_eq!(fmt_utc(whole(1).over(whole(1000))), "1970-01-01 00:00:00 UTC");
    assert_eq!(fmt_utc(whole(951_827_696)), "2000-02-29 12:34:56 UTC");
    assert_eq!(fmt_utc(whole(951_868_800)), "2000-03-01 00:00:00 UTC");
    assert_eq!(fmt_utc(whole(4_107_542_399)), "2100-02-28 23:59:59 UTC");
    assert_eq!(fmt_utc(whole(4_107_542_400)), "2100-03-01 00:00:00 UTC");
    assert_eq!(
        fmt_utc(whole(1_700_000_000_999).over(whole(1000))),
        "2023-11-14 22:13:20 UTC"
    );
    assert_eq!(human_dur(whole(0)), "0s");
    assert_eq!(human_dur(whole(59)), "59s");
    assert_eq!(human_dur(whole(60)), "1m 0s");
    assert_eq!(human_dur(whole(3599)), "59m 59s");
    assert_eq!(human_dur(whole(3600)), "1h 0m");
    assert_eq!(human_dur(whole(90_061)), "25h 1m");
}

#[test]
fn figures_compute_as_binary64() {
    let vs = values(300);
    for i in 0..vs.len() - 1 {
        let (a, b) = (vs[i], vs[i + 1]);
        let (x, y) = (Binary64::whole(a as u128), Binary64::whole(b as u128));
        assert_eq!(float(x), a as f64);
        assert_eq!(float(x.times(y)), a as f64 * b as f64);
        assert_eq!(float(x.plus(y)), a as f64 + b as f64);
        assert_eq!(x.is_less(y), (a as f64) < b as f64);
        assert_eq!(float(x.min(y)), (a as f64).min(b as f64));
        if b > 0 {
            let q = x.over(y);
            let f = a as f64 / b as f64;
            assert_eq!(float(q), f);
            if q.exp <= 0 {
                assert_eq!(tenths(q), format!("{f:.1}"));
                assert_eq!(hundredths(q), format!("{f:.2}"));
                assert_eq!(q.rounded(), f.round() as u128);
            }
        }
    }
}

#[test]
fn wholes_round_to_even() {
    for n in [
        0u128,
        1,
        (1 << 53) - 1,
        1 << 53,
        (1 << 53) + 1,
        (1 << 53) + 3,
        (1 << 54) + 2,
        (1 << 54) + 6,
        u64::MAX as u128,
        u128::MAX,
    ] {
        assert_eq!(float(Binary64::whole(n)), n as f64);
    }
    let third = Binary64::whole(1).over(Binary64::whole(3));
    assert_eq!(float(third), 1.0 / 3.0);
    let ten = Binary64::whole(10);
    assert_eq!(ten.over(ten), Binary64::whole(1));
    assert!(Binary64::whole(9).over(ten).is_less(Binary64::whole(1)));
}

#[test]
fn figures_round_as_they_are_printed() {
    // ties go to the even digit, except in `rounded`, where they go up
    let half = |n: u128| Binary64::whole(n).over(Binary64::whole(2));
    assert_eq!(half(5).fixed(1), 2);
    assert_eq!(half(7).fixed(1), 4);
    assert_eq!(half(5).rounded(), 3);
    let quarter = Binary64::whole(1).over(Binary64::whole(4));
    assert_eq!(tenths(quarter), format!("{:.1}", 0.25));
    assert_eq!(tenths(Binary64::whole(0)), "0.0");
    assert_eq!(hundredths(Binary64::whole(7)), "7.00");
}

#[test]
fn shares_and_scores() {
    assert_eq!(tenths(percent_of(1, 3)), "33.3");
    assert_eq!(tenths(percent_of(2, 3)), "66.7");
    assert_eq!(percent_of(5, 5), Binary64::whole(100));
    assert_eq!(score(0, 0), Binary64::whole(0));
    assert_eq!(score(77, 77), Binary64::whole(100));
    assert_eq!(score(80, 77), Binary64::whole(100), "never above 100");
    assert_eq!(float(score(24, 150)), 24.0 / 150.0 * 100.0);
    let vs = values(200);
    for i in 0..vs.len() - 1 {
        let (a, b) = (vs[i], vs[i + 1] + 1);
        assert_eq!(
            float(percent_of(a as u128, b as u128)),
            a as f64 * 100.0 / b as f64
        );
        assert_eq!(
            float(score(a as usize, b as usize)),
            (a as f64 / b as f64 * 100.0).min(100.0)
        );
    }
}

#[test]
fn rates() {
    assert_eq!(bits_per_second(1000, whole(2)).fixed(1), 4000);
    assert_eq!(hundredths(megabits_per_second(1_250_000, whole(2))), "5.00");
    assert_eq!(hundredths(megabits_per_second(1_000_000, whole(3))), "2.67");
    assert_eq!(units_in(whole(200_000), 86_400), 2);
    assert_eq!(units_in(whole(999_999_000), 31_536_000), 32);
}

#[test]
fn bars() {
    let pct = |n: u128| Binary64::whole(n);
    assert_eq!(bar_of_share(pct(100), 28), 28);
    assert_eq!(bar_of_share(pct(50), 28), 14);
    assert_eq!(bar_of_share(pct(0), 28), 0);
    assert_eq!(bar_of_share(pct(10), 24), 2);
    assert_eq!(bar_beside(pct(50), pct(50)), 20);
    assert_eq!(bar_beside(pct(25), pct(50)), 10);
    assert_eq!(bar_beside(pct(0), pct(50)), 1, "at least one block");
}

#[test]
fn conformance_is_a_weighted_mean() {
    let full = Binary64::whole(100);
    assert_eq!(conformance(8, 0, 8, 0, full), full);
    assert_eq!(conformance(0, 0, 0, 0, full), Binary64::whole(0));
    assert_eq!(conformance(8, 0, 8, 0, Binary64::whole(40)), Binary64::whole(40));
    assert_eq!(
        float(conformance(2_000_000_000, 0, 4_294_967_295, 0, full)),
        2_000_000_000.0 / 4_294_967_295.0 * 100.0
    );
    assert_eq!(conformance(u64::MAX, 0, u64::MAX, 3, full), full, "three are lost among so many");
    let mut sum = 3.0f64;
    for _ in 0..5000 {
        sum += 0.3;
    }
    assert_eq!(float(conformance(3, 0, 9, 5000, full)), sum / 5009.0 * 100.0);
    for passes in 0..9u64 {
        for warns in 0..(9 - passes) {
            for findings in 0..8u64 {
                let mut sum = 0.0f64;
                for _ in 0..passes {
                    sum += 1.0;
                }
                for _ in 0..warns {
                    sum += 0.5;
                }
                for _ in 0..findings {
                    sum += 0.3;
                }
                let mean = sum / (8.0 + findings as f64);
                let got = conformance(passes, warns, 8, findings, full);
                assert_eq!(float(got), (mean * 100.0).min(100.0));
                assert_eq!(got == full, passes == 8 && findings == 0);
            }
        }
    }
}

#[test]
fn table_cells_and_padding() {
    assert_eq!(md_esc("a|b\nc"), "a\\|b c");
    assert_eq!(md_esc("plain"), "plain");
    let mut s = String::new();
    push_padded_left(&mut s, "7", ' ', 3);
    push_padded_right(&mut s, "ab", 4);
    push_digits(&mut s, 5, 2);
    push_bool(&mut s, true);
    push_bool(&mut s, false);
    assert_eq!(s, "  7ab  05truefalse");
    assert_eq!(decimal_text(u128::MAX), u128::MAX.to_string());
}

#[test]
fn json_strings_are_quoted() {
    assert_eq!(json_str(""), "\"\"");
    assert_eq!(
        json_str("a\"b\\c\nd\re\tf\u{1}g\u{1f}ü"),
        "\"a\\\"b\\\\c\\nd\\re\\tf\\u0001g\\u001fü\""
    );
}

#[test]
fn digests_are_in_hex() {
    assert_eq!(
        sha256_hex(b"abc"),
        "ba7816bf8f01cfea414140de5dae2223b00361a396177a9cb410ff61f20015ad"
    );
    assert_eq!(
        sha256_hex(b""),
        "e3b0c44298fc1c149afbf4c8996fb92427ae41e4649b934ca495991b7852b855"
    );
    assert_eq!(hex(&[0, 1, 0xab, 0xff]), "0001abff");
}

#[test]
fn big_endian_fields() {
    let b = [0x12, 0x34, 0x56, 0x78, 0x9a];
    assert_eq!(be16(&b, 0), Some(0x1234));
    assert_eq!(be16(&b, 3), Some(0x789a));
    assert_eq!(be16(&b, 4), None);
    assert_eq!(be16(&b, usize::MAX - 1), None);
    assert_eq!(be32(&b, 1), 0x3456789a);
    let mut a = [0u8; 16];
    a[0] = 0x20;
    a[15] = 1;
    assert_eq!(be128(&a, 0), 0x20000000000000000000000000000001);
    assert_eq!(rest(&b, 3), &[0x78, 0x9a]);
    assert_eq!(rest(&b, 9).len(), 0);
}

#[test]
fn hashes() {
    assert_eq!(fnv1a(b""), 0xcbf29ce484222325);
    assert_eq!(fnv1a(b"a"), 0xaf63dc4c8601ec8c);
    assert_eq!(fnv1a(b"foobar"), 0x85944171f73967e8);
    let mut ip = [7u8; 40];
    let before = fnv1a_masked(&ip, false);
    ip[1] = 1; // ToS
    ip[8] = 2; // TTL
    ip[10] = 3; // checksum
    ip[11] = 4;
    assert_eq!(fnv1a_masked(&ip, false), before);
    assert_ne!(fnv1a_masked(&ip, true), before);
    ip[4] ^= 1; // a new identification: a retransmission
    let again = fnv1a_masked(&ip, false);
    assert_ne!(again, before);
    ip[5] = ip[5].wrapping_add(3);
    assert_ne!(fnv1a_masked(&ip, false), before);
    assert_ne!(fnv1a_masked(&ip, false), again);
    ip[12] = 5; // address
    assert_ne!(fnv1a_masked(&ip, false), before);
    assert_ne!(
        flow_hash((1, 2), (3, 4)),
        flow_hash((1, 4), (3, 2)),
        "ports belong to their address"
    );
}

#[test]
fn names() {
    assert_eq!(magic_info(&[0xa1, 0xb2, 0x3c, 0x4d]), ("big-endian", "ns"));
    assert_eq!(magic_info(&[0xd4, 0xc3, 0xb2, 0xa1]), ("little-endian", "µs"));
    assert_eq!(magic_info(&[0xd4, 0xc3]), ("-", "µs"));
    assert_eq!(linktype_name(0), "Null/Loopback");
    assert_eq!(linktype_name(127), "802.11 radiotap");
    assert_eq!(linktype_name(228), "LINKTYPE_228");
    assert_eq!(linktype_name(-7), "LINKTYPE_-7");
    assert_eq!(linktype_name(i32::MIN), "LINKTYPE_-2147483648");
    assert_eq!(proto_name(6), "TCP");
    assert_eq!(proto_name(17), "UDP");
    assert_eq!(Format::PcapNg.upper_name(), "PCAPNG");
    assert!(!Format::Unknown.is_known());
}

#[test]
fn ethertypes_are_found_behind_tags() {
    let mut f = vec![0u8; 12];
    f.extend([0x88, 0xa8, 0, 1, 0x81, 0x00, 0, 2, 0x08, 0x00, 9]);
    assert_eq!(l2(&f, 1), Some((0x0800, 22)));
    assert_eq!(l2(&f[..20], 1), None);
    assert_eq!(l2(&f, 101), Some((0x0800, 0)));
    assert_eq!(l2(&[0x60], 101), Some((0x86dd, 0)));
    assert_eq!(l2(&[], 101), None);
    assert_eq!(l2(&[0u8; 16], 113), Some((0, 16)));
    assert_eq!(l2(&f, 105), None);
    assert!(!layer(&f, 1).gre);
}

#[test]
fn chains_are_ranked_by_count_then_name() {
    let c = |n: &str, k: u64| (String::from(n), k);
    let chains = vec![c("b", 2), c("a", 2), c("Z", 2), c("x", 9), c("ab", 2)];
    let r = ranked(&chains);
    let names: Vec<&str> = r.iter().map(|x| x.0.as_str()).collect();
    assert_eq!(names, vec!["x", "Z", "a", "ab", "b"]);
    assert_eq!(total_of(&chains), 17);
    assert_eq!(total_of(&vec![c("a", u64::MAX), c("b", 1)]), 1 << 64);
}

#[test]
fn words_are_cut() {
    let t = |s: &str| text_of(trim(&chars_of(s)));
    assert_eq!(t(" \t a b\u{3000}\n"), "a b");
    assert_eq!(t("   "), "");
    let q = |s: &str| text_of(strip(&chars_of(s), Margin::Quotes));
    assert_eq!(q("'\"x'y\"'"), "x'y");
    assert!(starts_with_word(&chars_of("Bearer x"), "Bearer "));
    assert!(!starts_with_word(&chars_of("Bear"), "Bearer "));
    let p = |s: &str, max: u64| parse_unsigned(&chars_of(s), max);
    assert_eq!(p("0", 9), Some(0));
    assert_eq!(p("+7", 9), Some(7));
    assert_eq!(p("007", 9), Some(7));
    assert_eq!(p("10", 9), None);
    assert_eq!(p("-1", 9), None);
    assert_eq!(p("", 9), None);
    assert_eq!(p("+", 9), None);
    assert_eq!(p("18446744073709551615", u64::MAX), Some(u64::MAX));
    assert_eq!(p("18446744073709551616", u64::MAX), None);
}

#[test]
fn durations_are_cut_to_whole_seconds() {
    assert_eq!(human_dur(whole(599).over(whole(10))), "59s");
    assert_eq!(human_dur(whole(u128::MAX)), format!("{}h {}m", u64::MAX / 3600, u64::MAX % 3600 / 60));
    assert_eq!(whole(7).over(whole(2)).floor_to(u64::MAX), 3);
    assert_eq!(whole(7).over(whole(2)).floor_to(2), 2);
    assert_eq!(whole(1 << 63).floor_to(u64::MAX), 1 << 63);
    assert_eq!(whole(0).floor_to(9), 0);
}

#[test]
fn differences_compute_as_binary64() {
    let vs = values(400);
    for i in 0..vs.len() - 2 {
        let (a, b, c) = (vs[i] | 1, vs[i + 1] | 1, vs[i + 2] | 1);
        let (x, y) = (whole(a as u128).over(whole(c as u128)), whole(b as u128));
        let (f, g) = (a as f64 / c as f64, b as f64);
        assert_eq!(float(x.minus(y)), (f - g).max(0.0));
        assert_eq!(float(y.minus(x)), (g - f).max(0.0));
        assert_eq!(float(x.plus(y)), f + g);
        assert_eq!(x.floor_to(u64::MAX), f as u64);
    }
    // far apart, the lesser one is lost
    let far = (whole(1 << 100), whole(3));
    assert_eq!(far.0.plus(far.1), far.0);
    assert_eq!(far.1.plus(far.0), far.0);
    assert_eq!(far.0.minus(far.1), far.0);
    assert_eq!(far.1.minus(far.0), whole(0));
    assert_eq!(whole(5).minus(whole(0)), whole(5));
    assert_eq!(whole(5).minus(whole(5)), whole(0));
}

#[test]
fn large_figures_are_written_out() {
    let show = |x: Binary64| {
        let mut s = String::new();
        push_whole_figure(&mut s, x);
        s.push(' ');
        push_hundredths_of(&mut s, x);
        s
    };
    let want = |f: f64| format!("{f:.0} {f:.2}");
    for e in 0..150 {
        let f = 1.7f64 * 2f64.powi(e);
        let x = whole(17).over(whole(10));
        let x = Binary64 { mant: x.mant, exp: x.exp + e };
        assert_eq!(show(x), want(f));
    }
    let mut s = String::new();
    push_doubled(&mut s, 999_999_999_999_999_999, 0);
    s.push(' ');
    push_doubled(&mut s, 500_000_000_000_000_000, 1);
    s.push(' ');
    push_doubled(&mut s, u64::MAX, 64);
    assert_eq!(
        s,
        "999999999999999999 1000000000000000000 340282366920938463444927863358058659840"
    );
}

#[test]
fn moments_compute_as_binary64() {
    for v in values(200) {
        let (sec, frac) = ((v >> 7) as u32, v as u32);
        let m = record_moment(sec, frac, 1000);
        assert_eq!(float(m.seconds), sec as f64 + frac as f64 * 1e-6);
        assert_eq!(m.ns, sec as u128 * 1_000_000_000 + frac as u128 * 1000);
        let m = record_moment(sec, frac, 1);
        assert_eq!(float(m.seconds), sec as f64 + frac as f64 * 1e-9);
        assert_eq!(m.ns, sec as u128 * 1_000_000_000 + frac as u128);
        let m = enhanced_moment(sec, frac);
        let us = ((sec as u64) << 32) | frac as u64;
        assert_eq!(float(m.seconds), us as f64 * 1e-6);
        assert_eq!(m.ns, us as u128 * 1000);
    }
}
