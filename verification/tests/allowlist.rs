use honeypot::addr::{parse_ip, parse_socket_addr, IpAddr, Ipv4Addr, Ipv6Addr};
use honeypot::allowlist::{allowlisted, AllowlistEntry, AllowlistParseError, IpCidr};

fn ip(text: &str) -> IpAddr {
    parse_ip(text).unwrap()
}

#[test]
fn pure_ip_entry_matches_only_that_ip() {
    let entry: AllowlistEntry = "192.0.2.10".parse().unwrap();

    assert!(entry.contains(ip("192.0.2.10")));
    assert!(!entry.contains(ip("192.0.2.11")));
}

#[test]
fn ipv4_cidr_matches_address_inside_range() {
    let entry: AllowlistEntry = "172.23.16.0/24".parse().unwrap();

    assert!(entry.contains(ip("172.23.16.77")));
    assert!(!entry.contains(ip("172.23.17.1")));
}

#[test]
fn ipv6_cidr_matches_address_inside_range() {
    let entry: AllowlistEntry = "2001:db8::/32".parse().unwrap();

    assert!(entry.contains(ip("2001:db8::1")));
    assert!(!entry.contains(ip("2001:db9::1")));
}

#[test]
fn rejects_prefix_out_of_range() {
    let error = "192.0.2.0/33".parse::<AllowlistEntry>().unwrap_err();

    assert!(matches!(
        error,
        AllowlistParseError::PrefixOutOfRange {
            prefix: 33,
            max: 32
        }
    ));
}

#[test]
fn entries_are_trimmed_and_errors_say_what_is_wrong() {
    let entry: AllowlistEntry = "  10.0.0.0 / 8 ".parse().unwrap();
    assert!(entry.contains(ip("10.255.0.1")));
    assert_eq!(entry.to_string(), "10.0.0.0/8");

    let error = "nonsense".parse::<AllowlistEntry>().unwrap_err();
    assert_eq!(
        error.to_string(),
        "invalid allowlist entry `nonsense`; expected an IP address or CIDR"
    );
    let error = "nonsense/8".parse::<AllowlistEntry>().unwrap_err();
    assert_eq!(error.to_string(), "invalid CIDR network `nonsense`");
    let error = "10.0.0.0/x".parse::<AllowlistEntry>().unwrap_err();
    assert_eq!(error.to_string(), "invalid CIDR prefix `x`");
    let error = "10.0.0.0/256".parse::<AllowlistEntry>().unwrap_err();
    assert_eq!(error.to_string(), "invalid CIDR prefix `256`");
    let error = "::/129".parse::<AllowlistEntry>().unwrap_err();
    assert_eq!(
        error.to_string(),
        "CIDR prefix 129 is out of range; max is 128"
    );
}

#[test]
fn ranges_of_all_widths() {
    let everything = IpCidr::new(ip("0.0.0.0"), 0).unwrap();
    assert!(everything.contains(ip("255.255.255.255")));
    assert!(!everything.contains(ip("::")));
    let one = IpCidr::new(ip("203.0.113.9"), 32).unwrap();
    assert!(one.contains(ip("203.0.113.9")));
    assert!(!one.contains(ip("203.0.113.8")));
    let one = IpCidr::new(ip("::1"), 128).unwrap();
    assert!(one.contains(ip("::1")));
    assert!(!one.contains(ip("::2")));
    let all = IpCidr::new(ip("::"), 0).unwrap();
    assert!(all.contains(ip("ffff::")));
    let odd = IpCidr::new(ip("192.168.128.0"), 17).unwrap();
    assert!(odd.contains(ip("192.168.255.1")));
    assert!(!odd.contains(ip("192.168.127.1")));
}

#[test]
fn entries_are_read_back_as_they_are_written() {
    for text in ["127.0.0.1", "::1", "0.0.0.0/0", "172.23.16.0/24", "2001:db8::/32", "::/128"] {
        let entry: AllowlistEntry = text.parse().unwrap();
        assert_eq!(entry.to_string(), text);
        let again: AllowlistEntry = entry.to_string().parse().unwrap();
        assert_eq!(again, entry);
    }
}

#[test]
fn a_list_covers_what_any_entry_covers() {
    let list: Vec<AllowlistEntry> = vec![
        "127.0.0.1".parse().unwrap(),
        "10.0.0.0/8".parse().unwrap(),
    ];
    assert!(allowlisted(&list, ip("127.0.0.1")));
    assert!(allowlisted(&list, ip("10.1.2.3")));
    assert!(!allowlisted(&list, ip("11.1.2.3")));
    assert!(!allowlisted(&Vec::new(), ip("127.0.0.1")));
}

#[test]
fn addresses_are_read_as_they_are_written() {
    for text in [
        "0.0.0.0",
        "255.255.255.255",
        "192.0.2.10",
        "::",
        "::1",
        "1::",
        "2001:db8::1",
        "2001:db8:0:1:1:1:1:1",
        "fe80::1:0:0:1",
        "::ffff:192.0.2.1",
        "1:2:3:4:5:6:7:8",
    ] {
        assert_eq!(ip(text).to_string(), text);
    }
}

#[test]
fn addresses_are_written_in_one_way() {
    for (text, written) in [
        ("1.2.3.4", "1.2.3.4"),
        ("1:2:3:4:5:6:7::", "1:2:3:4:5:6:7:0"),
        ("::2:3:4:5:6:7:8", "0:2:3:4:5:6:7:8"),
        ("1:2:3:4:5:6:1.2.3.4", "1:2:3:4:5:6:102:304"),
        ("::1.2.3.4", "::102:304"),
        ("::ffff:1.2.3.4", "::ffff:1.2.3.4"),
        ("::ffff:102:304", "::ffff:1.2.3.4"),
        ("abcd::EF01", "abcd::ef01"),
        ("0:0:1::", "0:0:1::"),
        ("1:0:0:2:0:0:0:3", "1:0:0:2::3"),
        ("0001::0", "1::"),
    ] {
        assert_eq!(ip(text).to_string(), written);
    }
}

#[test]
fn other_text_is_no_address() {
    for text in [
        "01.2.3.4",
        "1.2.3",
        "1.2.3.4.5",
        "256.1.1.1",
        " 1.2.3.4",
        "1.2.3.4 ",
        "",
        ":",
        ":::",
        "1::2::3",
        "1:2:3:4:5:6:7",
        "1:2:3:4:5:6:7:8:9",
        "1.2.3.4::",
        "::1.2.3.256",
        "12345::",
        "g::",
        "1:2:3:4::5:6:7:8",
        "fe80::1%1",
        "0x1.2.3.4",
        "00000::",
    ] {
        assert_eq!(parse_ip(text), None, "{text}");
    }
}

#[test]
fn socket_addresses_have_an_address_and_a_port() {
    for (text, address, port) in [
        ("127.0.0.1:8080", "127.0.0.1", 8080),
        ("0.0.0.0:2222", "0.0.0.0", 2222),
        ("[::1]:22", "::1", 22),
        ("127.0.0.1:065535", "127.0.0.1", 65535),
        ("[fe80::1%3]:22", "fe80::1", 22),
        ("127.0.0.1:00000000080", "127.0.0.1", 80),
    ] {
        let read = parse_socket_addr(text).map(|a| (a.ip.to_string(), a.port));
        assert_eq!(read, Some((address.to_string(), port)), "{text}");
    }
    for text in [
        "::1:22",
        "[::1]",
        "127.0.0.1",
        "127.0.0.1:",
        "127.0.0.1:65536",
        "127.0.0.1:+1",
        "localhost:80",
        "[fe80::1%x]:22",
        "[127.0.0.1]:22",
        " 127.0.0.1:80",
    ] {
        assert!(parse_socket_addr(text).is_none(), "{text}");
    }
}

#[test]
fn addresses_are_ordered_by_family_and_number() {
    let a = IpAddr::V4(Ipv4Addr::new(192, 0, 2, 1));
    let b = IpAddr::V4(Ipv4Addr::new(192, 0, 2, 2));
    let c = IpAddr::V6(Ipv6Addr { bits: 0 });
    assert!(a.before(&b));
    assert!(!b.before(&a));
    assert!(b.before(&c));
    assert!(!a.before(&a));
    assert!(ip("127.9.9.9").is_loopback());
    assert!(!ip("128.0.0.1").is_loopback());
    assert!(ip("::1").is_loopback());
    assert!(!ip("::ffff:127.0.0.1").is_loopback());
}
