use playpnp::net::{Ipv4Addr, parse_ipv4};
use playpnp::number::{decimal, signed, two_digits, unsigned};
use playpnp::text::{
    CharSet, ascii_lower, begins, decode, equals_but_case, find, has, join, lines, lower, replace,
    rest_after_last, same, split, split_at, strip, trim, trim_end, trim_prefixes, trim_start, upper,
    words,
};
use playpnp::time::Duration;

#[test]
fn white_space_is_that_of_unicode() {
    for c in '\0'..=char::MAX {
        assert_eq!(CharSet::White.has_char(c), c.is_whitespace(), "{:?}", c);
    }
}

#[test]
fn searching_and_trimming() {
    assert_eq!(find("héllo", "llo"), Some(2));
    assert_eq!(find("abc", ""), Some(0));
    assert_eq!(find("abc", "abcd"), None);
    assert!(has("abc", "bc") && !has("abc", "cb"));
    assert!(begins("abc", "ab") && !begins("a", "ab"));
    assert!(same("é", "é") && !same("e", "é"));
    assert_eq!(rest_after_last("a/b/c", '/'), Some("c"));
    assert_eq!(rest_after_last("abc", '/'), None);
    assert_eq!(trim("\u{3000} a b\t"), "a b");
    assert_eq!(strip("**a*b*", CharSet::One('*')), "a*b");
    assert_eq!(trim_start("<<a", CharSet::One('<')), "a");
    assert_eq!(trim_end("a>>", CharSet::One('>')), "a");
    assert_eq!(trim_prefixes("uuid:uuid:x", "uuid:"), "x");
}

#[test]
fn splitting_and_joining() {
    assert_eq!(split("a,,b,", CharSet::One(',')), ["a", "", "b", ""]);
    assert_eq!(split("", CharSet::One(',')), [""]);
    assert_eq!(split_at("1--2---3", "--"), ["1", "2", "-3"]);
    for s in ["a\r\nb\n\nc", "a\n", "", "\n", "a\r", "a\r\r\nb"] {
        let expected: Vec<String> = s.lines().map(|l| l.to_string()).collect();
        assert_eq!(lines(s), expected, "{:?}", s);
    }
    assert_eq!(words("  a\tb \n"), ["a", "b"]);
    assert_eq!(replace("aaa", "aa", "b"), "ba");
    assert_eq!(join(&["a".to_string(), "b".to_string()], ", "), "a, b");
    assert_eq!(join(&[], ", "), "");
}

#[test]
fn letter_case() {
    assert_eq!(ascii_lower("AÉz"), "aÉz");
    assert_eq!(lower("AÉz"), "aéz");
    assert_eq!(lower("ABC"), "abc");
    assert_eq!(upper("aéß"), "AÉSS");
    assert!(equals_but_case("Stop", "sTOP") && !equals_but_case("É", "é"));
}

#[test]
fn bytes_to_text() {
    assert_eq!(decode("é".as_bytes()), "é");
    assert_eq!(decode(b"a\xffb"), "a\u{fffd}b");
}

#[test]
fn numbers() {
    assert_eq!(decimal(0), "0");
    assert_eq!(decimal(u64::MAX), u64::MAX.to_string());
    assert_eq!(two_digits(7), "07");
    assert_eq!(two_digits(123), "123");
    for s in ["0", "007", "+5", "255", "256", "", "+", "-1", " 1", "1a", "++1"] {
        let expected = s.parse::<u8>().ok().map(|n| n as u64);
        assert_eq!(unsigned(s, 255), expected, "{}", s);
    }
    for s in ["-1", "-2147483648", "-2147483649", "2147483647", "2147483648", "-", "--1", "+3"] {
        assert_eq!(signed(s), s.parse::<i32>().ok(), "{}", s);
    }
}

#[test]
fn addresses() {
    for (s, octets) in [
        ("1.2.3.4", (1, 2, 3, 4)),
        ("255.255.255.255", (255, 255, 255, 255)),
        ("0.0.0.0", (0, 0, 0, 0)),
    ] {
        let expected = Ipv4Addr::new(octets.0, octets.1, octets.2, octets.3);
        assert_eq!(parse_ipv4(s), Some(expected), "{}", s);
    }
    for s in [
        "256.0.0.1", "1.2.3", "1.2.3.4.5", "01.2.3.4", "1.2.3.4 ", "+1.2.3.4", "1..2.3", "a.b.c.d",
        "", "1.2.3.4.", ".1.2.3", "1.2.3.0000", "1.2.3.1000",
    ] {
        assert_eq!(parse_ipv4(s), None, "{}", s);
    }
    let ip = Ipv4Addr::new(192, 168, 0, 255);
    assert_eq!(ip.to_text(), "192.168.0.255");
    assert_eq!(parse_ipv4(&ip.to_text()), Some(ip));
    assert!(Ipv4Addr::new(127, 9, 9, 9).is_loopback());
    assert!(Ipv4Addr::new(0, 0, 0, 0).is_unspecified());
    assert!(!Ipv4Addr::new(0, 0, 0, 1).is_unspecified());
}

#[test]
fn spans() {
    let a = Duration::from_millis(1_500);
    let b = Duration::from_secs(2);
    assert_eq!(a.as_secs(), 1);
    assert_eq!(a.subsec_nanos(), 500_000_000);
    assert_eq!(Duration::from_parts(1, 500_000_000), Some(a));
    assert_eq!(Duration::from_parts(u64::MAX, 1_000_000_000), None);
    assert!(a.less_than(&b) && !b.less_than(&a));
    assert_eq!(a.min(&b), a);
    assert_eq!(a.plus(&b), Duration::from_millis(3_500));
    assert_eq!(b.since(&a), Duration::from_millis(500));
    assert_eq!(a.since(&b), Duration::zero());
    assert_eq!(a.abs_diff(&b), Duration::from_millis(500));
    assert_eq!(Duration::from_secs(u64::MAX).checked_plus(&b), None);
}
