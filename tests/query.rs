use cymrust::{asn_query_name, ipv6_nibbles, origin_query_name, IpAddress};

const DOC_V6: [u8; 16] = [
    0x20, 0x01, 0x0d, 0xb8, 0x01, 0x23, 0x45, 0x67, 0x89, 0xab, 0xcd, 0xef, 0x01, 0x23, 0x45, 0x67,
];

#[test]
fn test_ipv6_nibbles() {
    assert_eq!(
        ipv6_nibbles(DOC_V6),
        "7.6.5.4.3.2.1.0.f.e.d.c.b.a.9.8.7.6.5.4.3.2.1.0.8.b.d.0.1.0.0.2"
    );
}

#[test]
fn ipv4_origin_name_reverses_octets() {
    assert_eq!(origin_query_name(IpAddress::V4([192, 0, 2, 1])), "1.2.0.192.origin.asn.cymru.com.");
    assert_eq!(origin_query_name(IpAddress::V4([10, 0, 255, 7])), "7.255.0.10.origin.asn.cymru.com.");
    assert_eq!(origin_query_name(IpAddress::V4([0, 0, 0, 0])), "0.0.0.0.origin.asn.cymru.com.");
}

#[test]
fn ipv6_origin_name() {
    assert_eq!(
        origin_query_name(IpAddress::V6(DOC_V6)),
        "7.6.5.4.3.2.1.0.f.e.d.c.b.a.9.8.7.6.5.4.3.2.1.0.8.b.d.0.1.0.0.2.origin6.asn.cymru.com."
    );
    let mut last_one = [0u8; 16];
    last_one[15] = 1;
    assert_eq!(
        origin_query_name(IpAddress::V6(last_one)),
        "1.0.0.0.0.0.0.0.0.0.0.0.0.0.0.0.0.0.0.0.0.0.0.0.0.0.0.0.0.0.0.0.origin6.asn.cymru.com."
    );
}

#[test]
fn asn_name() {
    assert_eq!(asn_query_name(23028), "AS23028.asn.cymru.com.");
    assert_eq!(asn_query_name(0), "AS0.asn.cymru.com.");
    assert_eq!(asn_query_name(u32::MAX), "AS4294967295.asn.cymru.com.");
}
