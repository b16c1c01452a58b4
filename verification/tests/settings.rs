use picocap::auth::{authorized, b64_decode, ct_eq};
use picocap::config::Config;
use picocap::decimals::parse_nanos;
use picocap::words::chars_of;

fn apply(txt: &str) -> Config {
    let mut c = Config::default();
    c.apply_yaml(txt);
    c
}

#[test]
fn defaults() {
    let c = Config::default();
    assert_eq!(c.listen_addr, "127.0.0.1:8088");
    assert_eq!(c.auth_token, "");
    assert_eq!(c.max_upload, 768 * 1024 * 1024);
    assert_eq!(c.size_limit, 500 * 1024 * 1024);
    assert_eq!(c.full_snaplen, 65535);
    assert_eq!(c.dup_window, 5_000_000);
    assert_eq!(c.dup_notice_pct, 10);
    assert_eq!(c.devices_ok, 5);
    assert_eq!(c.devices_warn, 2);
    assert_eq!(c.duration_min, 5_000_000_000);
}

#[test]
fn every_key_is_read() {
    let c = apply(
        "# settings\n\
         listen_addr: \"0.0.0.0:9000\"  # all\n\
         auth_token: 's:e c'\r\n\
         max_upload_mb: 3\n\
         size_limit_mb: 4\n\
         full_snaplen: 262144\n\
         dup_window_ms: 2.5\n\
         dup_notice_pct: 11\n\
         devices_min_ok: 12\n\
         devices_min_warn: 13\n\
         duration_min_s: 1e2\n\
         other: 1\n\
         no value here\n",
    );
    assert_eq!(c.listen_addr, "0.0.0.0:9000");
    assert_eq!(c.auth_token, "s:e c");
    assert_eq!(c.max_upload, 3 * 1024 * 1024);
    assert_eq!(c.size_limit, 4 * 1024 * 1024);
    assert_eq!(c.full_snaplen, 262144);
    assert_eq!(c.dup_window, 2_500_000);
    assert_eq!(c.dup_notice_pct, 11);
    assert_eq!(c.devices_ok, 12);
    assert_eq!(c.devices_warn, 13);
    assert_eq!(c.duration_min, 100_000_000_000);
}

#[test]
fn values_that_are_no_numbers_change_nothing() {
    let c = apply(
        "max_upload_mb: many\nfull_snaplen: -1\nfull_snaplen: 4294967296\n\
         dup_window_ms: 5ms\nduration_min_s:\ndevices_min_ok: 1.5",
    );
    let d = Config::default();
    assert_eq!(c.max_upload, d.max_upload);
    assert_eq!(c.full_snaplen, d.full_snaplen);
    assert_eq!(c.dup_window, d.dup_window);
    assert_eq!(c.duration_min, d.duration_min);
    assert_eq!(c.devices_ok, d.devices_ok);
}

#[test]
fn comments_and_order() {
    let c = apply("# devices_min_ok: 1\n   #\n\ndevices_min_ok: 6 # devices_min_ok: 7\n");
    assert_eq!(c.devices_ok, 6);
    let c = apply("devices_min_ok: 6\ndevices_min_ok: 8");
    assert_eq!(c.devices_ok, 8, "the last line counts");
    let mut c = apply("devices_min_ok: 6");
    c.apply_yaml("devices_min_warn: 3");
    assert_eq!((c.devices_ok, c.devices_warn), (6, 3));
}

#[test]
fn decimals_are_read_to_the_nanosecond() {
    let n = |s: &str, unit: u32, up: bool| parse_nanos(&chars_of(s), unit, up);
    assert_eq!(n("5", 6, false), Some(5_000_000));
    assert_eq!(n("0.5", 6, false), Some(500_000));
    assert_eq!(n(".5", 6, false), Some(500_000));
    assert_eq!(n("5.", 6, false), Some(5_000_000));
    assert_eq!(n("1E-3", 6, false), Some(1_000));
    assert_eq!(n("0.0000001", 6, false), Some(0));
    assert_eq!(n("0.0000001", 6, true), Some(1));
    assert_eq!(n("-2", 9, false), Some(-2_000_000_000));
    assert_eq!(n("+2", 9, true), Some(2_000_000_000));
    assert!(n("inf", 9, true).unwrap() > 1 << 100);
    assert!(n("-Infinity", 9, true).unwrap() < -(1 << 100));
    assert!(n("1e400", 9, true).unwrap() > 1 << 100);
    assert!(n("nan", 9, false).is_some(), "not a number is read");
    for bad in ["", ".", "e5", "1e", "1e+", "0x1", "1 ", "1_0", "--1", "infin"] {
        assert_eq!(n(bad, 9, false), None, "{bad}");
    }
}

#[test]
fn base64_is_decoded() {
    assert_eq!(b64_decode("").unwrap(), b"");
    assert_eq!(b64_decode("Zg==").unwrap(), b"f");
    assert_eq!(b64_decode("Zm8=").unwrap(), b"fo");
    assert_eq!(b64_decode("Zm9vYmFy").unwrap(), b"foobar");
    assert_eq!(b64_decode(" Zm9v\r\nYmFy ").unwrap(), b"foobar");
    assert_eq!(b64_decode("+/+/").unwrap(), [0xfb, 0xff, 0xbf]);
    assert_eq!(b64_decode("Zm9v!"), None);
    assert_eq!(b64_decode("Zm 9v"), None);
    assert_eq!(b64_decode("Zm9ü"), None);
}

#[test]
fn texts_are_compared_whole() {
    assert!(ct_eq("", ""));
    assert!(ct_eq("tökèn", "tökèn"));
    assert!(!ct_eq("token", "tokem"));
    assert!(!ct_eq("token", "token "));
}

#[test]
fn requests_need_the_token() {
    assert!(authorized("", None), "no token, no authorization");
    assert!(authorized("", Some("Bearer x")));
    assert!(!authorized("secret", None));
    assert!(authorized("secret", Some("Bearer secret")));
    assert!(authorized("secret", Some("Bearer   secret ")));
    assert!(!authorized("secret", Some("Bearer wrong")));
    assert!(!authorized("secret", Some("bearer secret")));
    assert!(!authorized("secret", Some("secret")));
    // "user:secret", "secret", "user:wrong", "a:b:secret"
    assert!(authorized("secret", Some("Basic dXNlcjpzZWNyZXQ=")));
    assert!(authorized("secret", Some("Basic c2VjcmV0")));
    assert!(!authorized("secret", Some("Basic dXNlcjp3cm9uZw==")));
    assert!(!authorized("secret", Some("Basic YTpiOnNlY3JldA==")));
    assert!(!authorized("secret", Some("Basic ???")));
    // ":ü" in UTF-8, and a byte that is no UTF-8
    assert!(authorized("ü", Some("Basic OsO8")));
    assert!(!authorized("ü", Some("Basic /w==")));
}
