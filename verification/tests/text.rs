use lan_mouse::collections::{AssocMap, NumberSet};
use lan_mouse::net::{IpAddr, IpSet, SocketAddr};
use lan_mouse::text::{
    contains, decimal_of, parse_number, strip_prefix, strip_suffix, to_ascii_lowercase, trim,
    ParseNumberError,
};

#[test]
fn white_space_is_trimmed() {
    assert_eq!(trim("  a b\t\n"), "a b");
    assert_eq!(trim("\u{3000}x\u{a0}"), "x");
    assert_eq!(trim(" \r\n "), "");
    assert_eq!(trim("\u{200b}x"), "\u{200b}x");
}

#[test]
fn only_ascii_letters_are_lowered() {
    assert_eq!(to_ascii_lowercase("AbZ-\u{c4}9[@"), "abz-\u{c4}9[@");
}

#[test]
fn prefixes_and_suffixes() {
    assert_eq!(strip_prefix("0x1f", "0x"), Some("1f"));
    assert_eq!(strip_prefix("0", "0x"), None);
    assert_eq!(strip_suffix("a.local", ".local"), Some("a"));
    assert_eq!(strip_suffix("a.local.", ".local"), None);
    assert!(contains("generic monitor", "mon"));
    assert!(contains("x", ""));
    assert!(!contains("mon", "monitor"));
}

#[test]
fn numbers_are_read_and_written() {
    assert_eq!(decimal_of(0), "0");
    assert_eq!(decimal_of(u64::MAX), "18446744073709551615");
    assert_eq!(parse_number("18446744073709551615", 10, u64::MAX), Ok(u64::MAX));
    assert_eq!(
        parse_number("18446744073709551616", 10, u64::MAX),
        Err(ParseNumberError::Overflow)
    );
    assert_eq!(parse_number("fF", 16, 255), Ok(255));
    assert_eq!(parse_number("", 10, 9), Err(ParseNumberError::Empty));
    assert_eq!(parse_number("+", 10, 9), Err(ParseNumberError::InvalidDigit));
    assert_eq!(parse_number("1f", 10, 99), Err(ParseNumberError::InvalidDigit));
}

#[test]
fn addresses_have_texts() {
    assert_eq!(IpAddr::V4(0xc0a8_0a9b).to_text(), "192.168.10.155");
    assert_eq!(IpAddr::V4(0).to_text(), "0.0.0.0");
    assert_eq!(IpAddr::V6(0).to_text(), "::");
    assert_eq!(IpAddr::V6(1).to_text(), "::1");
    assert_eq!(
        IpAddr::V6(0xfe80_0000_0000_0000_0000_0000_0000_0001).to_text(),
        "fe80::1"
    );
    assert_eq!(
        IpAddr::V6(0x2001_0db8_0000_0001_0000_0000_0000_0001).to_text(),
        "2001:db8:0:1::1"
    );
    assert_eq!(
        IpAddr::V6(0x2001_0db8_0000_0000_0001_0000_0000_0001).to_text(),
        "2001:db8::1:0:0:1"
    );
    assert_eq!(
        IpAddr::V6(0x0001_0002_0003_0004_0005_0006_0007_0000).to_text(),
        "1:2:3:4:5:6:7:0"
    );
    assert_eq!(
        IpAddr::V6(0x0001_0000_0000_0000_0000_0000_0000_0000).to_text(),
        "1::"
    );
    assert_eq!(IpAddr::V6(0xffff_c0a8_0a9b).to_text(), "::ffff:192.168.10.155");
    assert_eq!(
        SocketAddr::new(IpAddr::V4(0xc0a8_0a9b), 4242).to_text(),
        "192.168.10.155:4242"
    );
    assert_eq!(SocketAddr::new(IpAddr::V6(1), 80).to_text(), "[::1]:80");
    let scoped = SocketAddr {
        scope_id: 7,
        flowinfo: 5,
        ..SocketAddr::new(IpAddr::V6(1), 80)
    };
    assert_eq!(scoped.to_text(), "[::1%7]:80");
    assert_ne!(scoped, SocketAddr::new(IpAddr::V6(1), 80));
}

#[test]
fn address_sets_are_ascending() {
    let mut s = IpSet::new();
    assert!(s.is_empty());
    s.insert(IpAddr::V6(1));
    s.insert(IpAddr::V4(2));
    s.insert(IpAddr::V4(1));
    s.insert(IpAddr::V4(2));
    assert_eq!(s.ips, vec![IpAddr::V4(1), IpAddr::V4(2), IpAddr::V6(1)]);
    let mut t = IpSet::new();
    t.extend(&s);
    t.extend_from(&vec![IpAddr::V4(0)]);
    assert_eq!(t.ips.len(), 4);
    assert!(t.contains(IpAddr::V6(1)) && !t.contains(IpAddr::V6(2)));
    assert!(IpAddr::V4(u32::MAX).is_before(IpAddr::V6(0)));
}

#[test]
fn maps_keep_the_order_of_their_keys() {
    let mut m: AssocMap<SocketAddr, u8> = AssocMap::new();
    let a = SocketAddr::new(IpAddr::V4(1), 1);
    let b = SocketAddr::new(IpAddr::V4(1), 2);
    m.insert(b, 2);
    m.insert(a, 1);
    m.insert(b, 3);
    assert_eq!(m.entries, vec![(b, 3), (a, 1)]);
    *m.get_mut(&a).unwrap() = 9;
    assert_eq!(m.get(&a), Some(&9));
    assert_eq!(m.remove(&b), Some(3));
    assert_eq!(m.remove(&b), None);
    assert!(!m.contains_key(&b));
}

#[test]
fn number_sets_hold_each_number_once() {
    let mut s = NumberSet::new();
    assert!(s.insert(5));
    assert!(!s.insert(5));
    assert!(s.contains(5));
    assert!(s.remove(5));
    assert!(!s.remove(5));
    assert!(s.is_empty());
}
