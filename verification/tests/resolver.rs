use anteater::addr::IpAddress;
use anteater::resolve::{filter_lookup_results, resolve_input, ResolveError, Resolution};
use anteater::resolve::{expand_v4, expand_v6};
use anteater::parse::{parse_cidr_v4, parse_ipv4};

#[test]
fn ipv4_literal_exact_value() {
    assert_eq!(parse_ipv4(b"192.0.2.7"), Some(0xC000_0207));
    assert_eq!(parse_ipv4(b"127.0.0.1"), Some(0x7F00_0001));
    assert_eq!(parse_ipv4(b"0.0.0.0"), Some(0));
    assert_eq!(parse_ipv4(b"255.255.255.255"), Some(0xFFFF_FFFF));
}

#[test]
fn ipv4_literal_rejects_malformed() {
    assert_eq!(parse_ipv4(b"256.0.0.1"), None);
    assert_eq!(parse_ipv4(b"01.2.3.4"), None);
    assert_eq!(parse_ipv4(b"1.2.3"), None);
    assert_eq!(parse_ipv4(b"1.2.3.4.5"), None);
    assert_eq!(parse_ipv4(b""), None);
    assert_eq!(parse_ipv4(b"a.b.c.d"), None);
    assert_eq!(parse_ipv4(b"1.2.3.4 "), None);
}

#[test]
fn cidr_exact_value() {
    assert_eq!(parse_cidr_v4(b"10.0.0.0/8"), Some((0x0A00_0000, 8)));
    assert_eq!(parse_cidr_v4(b"192.0.2.0/30"), Some((0xC000_0200, 30)));
    assert_eq!(parse_cidr_v4(b"192.0.2.0/0"), Some((0xC000_0200, 0)));
}

#[test]
fn cidr_rejects_malformed() {
    assert_eq!(parse_cidr_v4(b"10.0.0.0/33"), None);
    assert_eq!(parse_cidr_v4(b"10.0.0.0/"), None);
    assert_eq!(parse_cidr_v4(b"10.0.0.0"), None);
    assert_eq!(parse_cidr_v4(b"10.0.0.0/08"), None);
    assert_eq!(parse_cidr_v4(b"10.0.0/8"), None);
}

/// The CIDR expansion policy is "every address in the block", network
/// and broadcast included: a /30 yields all 4 of its addresses.
#[test]
fn cidr_slash_30_expands_to_four_addresses() {
    match resolve_input(b"192.0.2.0/30") {
        Ok(Resolution::Addresses(addrs)) => {
            assert_eq!(addrs.len(), 4);
            assert_eq!(addrs[0], IpAddress::V4(0xC000_0200));
            assert_eq!(addrs[1], IpAddress::V4(0xC000_0201));
            assert_eq!(addrs[2], IpAddress::V4(0xC000_0202));
            assert_eq!(addrs[3], IpAddress::V4(0xC000_0203));
        }
        _ => panic!("a /30 block must resolve to its four addresses"),
    }
}

#[test]
fn cidr_host_bits_are_masked() {
    match resolve_input(b"192.0.2.5/30") {
        Ok(Resolution::Addresses(addrs)) => {
            assert_eq!(addrs.len(), 4);
            assert_eq!(addrs[0], IpAddress::V4(0xC000_0204));
            assert_eq!(addrs[3], IpAddress::V4(0xC000_0207));
        }
        _ => panic!("host bits must not prevent expansion"),
    }
}

#[test]
fn literal_resolves_to_singleton() {
    match resolve_input(b"127.0.0.1") {
        Ok(Resolution::Addresses(addrs)) => {
            assert_eq!(addrs.len(), 1);
            assert_eq!(addrs[0], IpAddress::V4(0x7F00_0001));
        }
        _ => panic!("a literal must resolve to exactly itself"),
    }
}

#[test]
fn ipv6_literal_resolves_to_singleton() {
    match resolve_input(b"::1") {
        Ok(Resolution::Addresses(addrs)) => {
            assert_eq!(addrs, vec![IpAddress::V6(1)]);
        }
        _ => panic!("an IPv6 literal must resolve to exactly itself"),
    }
    match resolve_input(b"fe80::1") {
        Ok(Resolution::Addresses(addrs)) => {
            assert_eq!(
                addrs,
                vec![IpAddress::V6(0xFE80_0000_0000_0000_0000_0000_0000_0001)]
            );
        }
        _ => panic!("an IPv6 literal must resolve to exactly itself"),
    }
}

#[test]
fn ipv6_cidr_expands_like_ipv4() {
    match resolve_input(b"2001:db8::/126") {
        Ok(Resolution::Addresses(addrs)) => {
            assert_eq!(addrs.len(), 4);
            assert_eq!(
                addrs[0],
                IpAddress::V6(0x2001_0DB8_0000_0000_0000_0000_0000_0000)
            );
            assert_eq!(
                addrs[3],
                IpAddress::V6(0x2001_0DB8_0000_0000_0000_0000_0000_0003)
            );
        }
        _ => panic!("an IPv6 /126 block must expand to its four addresses"),
    }
}

#[test]
fn non_literal_is_left_for_lookup() {
    match resolve_input(b"example.test") {
        Ok(Resolution::Hostname) => {}
        _ => panic!("a name must be handed back for a hostname lookup"),
    }
}

#[test]
fn malformed_cidr_is_invalid_input() {
    match resolve_input(b"1.2.3.4/99") {
        Err(ResolveError::InvalidInput) => {}
        _ => panic!("a slash without a valid CIDR block must be rejected"),
    }
    match resolve_input(b"not/a/cidr") {
        Err(ResolveError::InvalidInput) => {}
        _ => panic!("a slash without a valid CIDR block must be rejected"),
    }
}

#[test]
fn expand_single_address_blocks() {
    let one = expand_v4(0x0A00_0001, 32);
    assert_eq!(one.len(), 1);
    assert_eq!(one[0], IpAddress::V4(0x0A00_0001));

    let two = expand_v4(0x0A00_0000, 31);
    assert_eq!(two.len(), 2);
    assert_eq!(two[1], IpAddress::V4(0x0A00_0001));
}

#[test]
fn expand_v6_small_block() {
    let four = expand_v6(0x20010DB8_00000000_00000000_00000000, 126);
    assert_eq!(four.len(), 4);
    assert_eq!(four[0], IpAddress::V6(0x20010DB8_00000000_00000000_00000000));
    assert_eq!(four[3], IpAddress::V6(0x20010DB8_00000000_00000000_00000003));
}

#[test]
fn lookup_filter_drops_ipv6_unless_allowed() {
    let addrs = vec![
        IpAddress::V6(1),
        IpAddress::V4(0x7F00_0001),
        IpAddress::V6(2),
    ];
    let kept = filter_lookup_results(&addrs, false).expect("an IPv4 result must survive");
    assert_eq!(kept, vec![IpAddress::V4(0x7F00_0001)]);

    let all = filter_lookup_results(&addrs, true).expect("everything survives with IPv6 on");
    assert_eq!(all.len(), 3);
}

#[test]
fn lookup_filter_empty_remainder_is_an_error() {
    let addrs = vec![IpAddress::V6(1), IpAddress::V6(2)];
    match filter_lookup_results(&addrs, false) {
        Err(ResolveError::NoAddressesFound) => {}
        _ => panic!("an empty remainder must be NoAddressesFound"),
    }
}
