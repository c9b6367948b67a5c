use monitor::text::{ends_with, push_decimal, push_signed_decimal, starts_with};

fn numeral(n: u64) -> String {
    let mut s = String::new();
    push_decimal(&mut s, n);
    s
}

#[test]
fn push_decimal_matches_the_usual_numeral() {
    for n in [0u64, 1, 9, 10, 11, 99, 100, 101, 255, 256, 1000, 65_535, 4_294_967_295, u64::MAX] {
        assert_eq!(numeral(n), n.to_string());
    }
    assert_eq!(numeral(0), "0");
    assert_eq!(numeral(49_152), "49152");
    assert_eq!(numeral(u64::MAX), "18446744073709551615");
}

#[test]
fn push_decimal_appends() {
    let mut s = String::from("n=");
    push_decimal(&mut s, 120);
    push_decimal(&mut s, 7);
    assert_eq!(s, "n=1207");
}

#[test]
fn push_signed_decimal_writes_the_sign() {
    for i in [0i64, 1, -1, 42, -42, 10, -10, i32::MIN as i64, i32::MAX as i64, i64::MIN, i64::MAX] {
        let mut s = String::new();
        push_signed_decimal(&mut s, i);
        assert_eq!(s, i.to_string());
    }
    let mut s = String::from("x");
    push_signed_decimal(&mut s, -2_147_483_648);
    assert_eq!(s, "x-2147483648");
}

#[test]
fn starts_with_tests_the_beginning() {
    assert!(starts_with(b"Core 0", b"Core "));
    assert!(starts_with(b"Core ", b"Core "));
    assert!(!starts_with(b"Core", b"Core "));
    assert!(!starts_with(b"core 0", b"Core "));
    assert!(!starts_with(b"Package id 0", b"Core "));
    assert!(starts_with(b"abc", b""));
    assert!(starts_with(b"", b""));
    assert!(!starts_with(b"", b"a"));
}

#[test]
fn ends_with_tests_the_end() {
    assert!(ends_with(b"receiver_1.pcm", b".pcm"));
    assert!(ends_with(b".pcm", b".pcm"));
    assert!(!ends_with(b"pcm", b".pcm"));
    assert!(!ends_with(b"a.pcm.bak", b".pcm"));
    assert!(!ends_with(b"a.PCM", b".pcm"));
    assert!(ends_with(b"abc", b""));
    assert!(!ends_with(b"", b"a"));
}
