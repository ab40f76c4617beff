use minsec::addr_parse::{parse_addr, parse_net};
use minsec::net::{addr_to_string, key_to_nft, net_to_string, parse_ip_net, Addr, Net};
use minsec::text::{join_strings, u64_to_decimal, u64_to_hex};

fn v6(groups: [u16; 8]) -> u128 {
    groups.iter().fold(0u128, |acc, g| (acc << 16) | (*g as u128))
}

#[test]
fn decimal_and_hex_numerals() {
    assert_eq!(u64_to_decimal(0), "0");
    assert_eq!(u64_to_decimal(3599), "3599");
    assert_eq!(u64_to_decimal(u64::MAX), "18446744073709551615");
    assert_eq!(u64_to_hex(0), "0");
    assert_eq!(u64_to_hex(0xdb8), "db8");
    assert_eq!(u64_to_hex(0xffff), "ffff");
    let items = vec!["a".to_string(), "b".to_string(), "c".to_string()];
    assert_eq!(join_strings(&items, ", "), "a, b, c");
    assert_eq!(join_strings(&vec![], ", "), "");
}

#[test]
fn ipv4_text() {
    assert_eq!(addr_to_string(Addr::V4(0x0a010203)), "10.1.2.3");
    assert_eq!(addr_to_string(Addr::V4(0)), "0.0.0.0");
    assert_eq!(addr_to_string(Addr::V4(u32::MAX)), "255.255.255.255");
}

#[test]
fn ipv6_text_compresses_the_first_longest_zero_run() {
    assert_eq!(addr_to_string(Addr::V6(0)), "::");
    assert_eq!(addr_to_string(Addr::V6(1)), "::1");
    assert_eq!(addr_to_string(Addr::V6(v6([0x2001, 0xdb8, 0, 0, 0, 0, 0, 1]))), "2001:db8::1");
    assert_eq!(addr_to_string(Addr::V6(v6([1, 0, 0, 1, 0, 0, 0, 1]))), "1:0:0:1::1");
    assert_eq!(addr_to_string(Addr::V6(v6([1, 0, 0, 2, 0, 0, 3, 4]))), "1::2:0:0:3:4");
    assert_eq!(addr_to_string(Addr::V6(v6([1, 0, 3, 4, 5, 6, 7, 8]))), "1:0:3:4:5:6:7:8");
    assert_eq!(addr_to_string(Addr::V6(v6([1, 2, 3, 4, 5, 6, 7, 0]))), "1:2:3:4:5:6:7:0");
    assert_eq!(addr_to_string(Addr::V6(v6([0xfe80, 0, 0, 0, 0, 0, 0, 0]))), "fe80::");
    assert_eq!(
        addr_to_string(Addr::V6(v6([0, 0, 0, 0, 0, 0xffff, 0xc000, 0x0280]))),
        "::ffff:192.0.2.128"
    );
    assert_eq!(addr_to_string(Addr::V6(v6([0xABCD, 0xEF01, 0, 0, 0, 0, 0, 0]))), "abcd:ef01::");
}

#[test]
fn network_text_and_set_elements() {
    let n = Net { addr: Addr::V6(v6([0x2001, 0xdb8, 0, 0, 0, 0, 0, 0])), len: 64 };
    assert_eq!(net_to_string(&n), "2001:db8::/64");
    assert_eq!(key_to_nft(&n), "2001:db8::/64");
    let host = Net { addr: Addr::V4(0x0a090909), len: 32 };
    assert_eq!(net_to_string(&host), "10.9.9.9/32");
    assert_eq!(key_to_nft(&host), "10.9.9.9");
    let host6 = Net { addr: Addr::V6(1), len: 128 };
    assert_eq!(key_to_nft(&host6), "::1");
}

#[test]
fn parses_dotted_quads() {
    assert_eq!(parse_addr("10.1.2.3"), Some(Addr::V4(0x0a010203)));
    assert_eq!(parse_addr("0.0.0.0"), Some(Addr::V4(0)));
    assert_eq!(parse_addr("255.255.255.255"), Some(Addr::V4(u32::MAX)));
    assert_eq!(parse_addr("256.1.1.1"), None);
    assert_eq!(parse_addr("01.2.3.4"), None);
    assert_eq!(parse_addr("1.2.3"), None);
    assert_eq!(parse_addr("1.2.3.4.5"), None);
    assert_eq!(parse_addr("1..2.3"), None);
    assert_eq!(parse_addr(" 1.2.3.4"), None);
    assert_eq!(parse_addr(""), None);
}

#[test]
fn parses_ipv6_text() {
    assert_eq!(parse_addr("::"), Some(Addr::V6(0)));
    assert_eq!(parse_addr("::1"), Some(Addr::V6(1)));
    assert_eq!(parse_addr("2001:db8::1"), Some(Addr::V6(v6([0x2001, 0xdb8, 0, 0, 0, 0, 0, 1]))));
    assert_eq!(parse_addr("2001:DB8::"), Some(Addr::V6(v6([0x2001, 0xdb8, 0, 0, 0, 0, 0, 0]))));
    assert_eq!(parse_addr("1:2:3:4:5:6:7:8"), Some(Addr::V6(v6([1, 2, 3, 4, 5, 6, 7, 8]))));
    assert_eq!(parse_addr("1:2:3:4:5:6:7::"), Some(Addr::V6(v6([1, 2, 3, 4, 5, 6, 7, 0]))));
    assert_eq!(
        parse_addr("::ffff:192.0.2.128"),
        Some(Addr::V6(v6([0, 0, 0, 0, 0, 0xffff, 0xc000, 0x0280])))
    );
    assert_eq!(
        parse_addr("1:2:3:4:5:6:1.2.3.4"),
        Some(Addr::V6(v6([1, 2, 3, 4, 5, 6, 0x0102, 0x0304])))
    );
    assert_eq!(parse_addr("0001:0:0:0:0:0:0:0001"), Some(Addr::V6(v6([1, 0, 0, 0, 0, 0, 0, 1]))));
    // `::` stands for at least one zero group.
    assert_eq!(parse_addr("1:2:3:4::5:6:7:8"), None);
    assert_eq!(parse_addr("1::2::3"), None);
    assert_eq!(parse_addr(":::1"), None);
    assert_eq!(parse_addr("1.2.3.4::"), None);
    assert_eq!(parse_addr("12345::"), None);
    assert_eq!(parse_addr("1:2:3:4:5:6:7"), None);
    assert_eq!(parse_addr("1:2:3:4:5:6:7:8:9"), None);
    assert_eq!(parse_addr("1:2:3:4:5:6:7:1.2.3.4"), None);
    assert_eq!(parse_addr("fe80::1%eth0"), None);
    assert_eq!(parse_addr("::g"), None);
}

#[test]
fn parses_networks_with_ipnet() {
    assert_eq!(parse_ip_net("10.0.0.0/8"), Some(Net { addr: Addr::V4(0x0a000000), len: 8 }));
    assert_eq!(parse_ip_net("192.168.12.34/16"), Some(Net { addr: Addr::V4(0xc0a80c22), len: 16 }));
    assert_eq!(parse_ip_net("2001:db8::/32"), Some(Net { addr: Addr::V6(v6([0x2001, 0xdb8, 0, 0, 0, 0, 0, 0])), len: 32 }));
    assert_eq!(parse_ip_net("10.0.0.0/33"), None);
    assert_eq!(parse_ip_net("10.0.0.1"), None);
    assert_eq!(parse_ip_net("::/129"), None);
}

#[test]
fn display_then_parse_gives_the_address_back() {
    for a in [
        Addr::V4(0x0a010203),
        Addr::V6(0),
        Addr::V6(v6([1, 0, 0, 2, 0, 0, 3, 4])),
        Addr::V6(v6([0, 0, 0, 0, 0, 0xffff, 0xc000, 0x0280])),
        Addr::V6(v6([0xfe80, 0, 0, 0, 0x1234, 0, 0, 1])),
    ] {
        assert_eq!(parse_addr(&addr_to_string(a)), Some(a));
    }
}

#[test]
fn network_arguments() {
    let show = |s: &str| parse_net(s).map(|n| net_to_string(&n));
    assert_eq!(show("10.0.0.1"), Some("10.0.0.1/32".to_string()));
    assert_eq!(show("10.1.2.3/8"), Some("10.0.0.0/8".to_string()));
    assert_eq!(show("10.1.2.3/32"), Some("10.1.2.3/32".to_string()));
    assert_eq!(show("10.1.2.3/0"), Some("0.0.0.0/0".to_string()));
    assert_eq!(show("::ffff:1.2.3.4"), Some("1.2.3.4/32".to_string()));
    assert_eq!(show("2001:db8::1"), Some("2001:db8::1/128".to_string()));
    assert_eq!(show("2001:db8::1/64"), Some("2001:db8::/64".to_string()));
    assert_eq!(show("2001:db8:ffff::1/0"), Some("::/0".to_string()));
    assert_eq!(show("2001:db8::1/127"), Some("2001:db8::/127".to_string()));
    assert_eq!(show("10.0.0.0/33"), None);
    assert_eq!(show("bogus"), None);
    assert_eq!(show(""), None);
}
