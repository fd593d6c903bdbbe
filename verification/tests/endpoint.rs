use corrosion::endpoint::{parse_endpoint, AddressKind, Endpoint, EndpointError};
use corrosion::ip::{read_ip, read_v4, read_v6, IpAddr};
use corrosion::text::read_u16;

fn chars(s: &str) -> Vec<char> {
    s.chars().collect()
}

#[test]
fn endpoint_round_trip() {
    let all = [
        Endpoint::new(AddressKind::Ip(IpAddr::V4([1, 2, 3, 4])), 2002),
        Endpoint::new(AddressKind::Ip(IpAddr::V4([0, 0, 0, 0])), 0),
        Endpoint::new(AddressKind::Ip(IpAddr::V4([255, 255, 255, 255])), 65535),
        Endpoint::new(AddressKind::Ip(IpAddr::V6([0; 8])), 1),
        Endpoint::new(AddressKind::Ip(IpAddr::V6([0, 0, 0, 0, 0, 0, 0xf0cc, 0xac1a])), 2004),
        Endpoint::new(AddressKind::Ip(IpAddr::V6([0, 0, 0, 0, 0, 0xffff, 0x0102, 0x0304])), 7),
        Endpoint::new(AddressKind::Ip(IpAddr::V6([0x2001, 0xdb8, 0, 0, 1, 0, 0, 1])), 7),
        Endpoint::new(AddressKind::Ip(IpAddr::V6([1, 0, 0, 2, 0, 0, 0, 3])), 7),
        Endpoint::new(AddressKind::Ip(IpAddr::V6([1, 2, 3, 4, 5, 6, 7, 8])), 7),
        Endpoint::new(AddressKind::Ip(IpAddr::V6([0xffff; 8])), 7),
        Endpoint::new(AddressKind::Name("game.boop.com".into()), 2005),
        Endpoint::new(AddressKind::Name("".into()), 2005),
        Endpoint::new(AddressKind::Name("a:b:c".into()), 1),
        Endpoint::new(AddressKind::Name("höst.example".into()), 1),
    ];
    for ep in all {
        assert_eq!(parse_endpoint(&ep.to_text()), Ok(ep));
    }
}

#[test]
fn host_name_behind_a_bar_is_read_as_an_address() {
    let ep = Endpoint::new(AddressKind::Name("|1.2.3.4".into()), 9);
    assert_eq!(
        parse_endpoint(&ep.to_text()),
        Ok(Endpoint::new(AddressKind::Ip(IpAddr::V4([1, 2, 3, 4])), 9))
    );
}

#[test]
fn faulty_endpoints_are_refused() {
    assert_eq!(parse_endpoint("game.boop.com"), Err(EndpointError::MissingColon));
    assert_eq!(parse_endpoint(""), Err(EndpointError::MissingColon));
    assert_eq!(parse_endpoint("host:"), Err(EndpointError::InvalidPort));
    assert_eq!(parse_endpoint("host:65536"), Err(EndpointError::InvalidPort));
    assert_eq!(parse_endpoint("host:-1"), Err(EndpointError::InvalidPort));
    assert_eq!(parse_endpoint("host:80a"), Err(EndpointError::InvalidPort));
    assert_eq!(parse_endpoint("|1.2.3:80"), Err(EndpointError::InvalidAddress));
    assert_eq!(parse_endpoint("|host:80"), Err(EndpointError::InvalidAddress));
    assert_eq!(parse_endpoint("|:80"), Err(EndpointError::InvalidAddress));
}

#[test]
fn ports() {
    assert_eq!(read_u16(&chars("0")), Some(0));
    assert_eq!(read_u16(&chars("65535")), Some(65535));
    assert_eq!(read_u16(&chars("0080")), Some(80));
    assert_eq!(read_u16(&chars("+80")), Some(80));
    assert_eq!(read_u16(&chars("000000065535")), Some(65535));
    assert_eq!(read_u16(&chars("65536")), None);
    assert_eq!(read_u16(&chars("99999999999999999999999")), None);
    assert_eq!(read_u16(&chars("")), None);
    assert_eq!(read_u16(&chars("+")), None);
    assert_eq!(read_u16(&chars("++1")), None);
    assert_eq!(read_u16(&chars(" 1")), None);
    assert_eq!(parse_endpoint("host:+80").unwrap().port, 80);
}

#[test]
fn dotted_addresses() {
    assert_eq!(read_v4(&chars("1.2.3.4")), Some([1, 2, 3, 4]));
    assert_eq!(read_v4(&chars("0.0.0.0")), Some([0, 0, 0, 0]));
    assert_eq!(read_v4(&chars("255.255.255.255")), Some([255; 4]));
    for bad in [
        "", "1.2.3", "1.2.3.4.5", "1.2.3.", ".1.2.3", "1..2.3", "256.1.1.1", "01.2.3.4",
        "1.2.3.04", "1.2.3.4 ", "a.b.c.d", "1.2.3.0x4", "1111.2.3.4", "+1.2.3.4", "1.2.3.-4",
    ] {
        assert_eq!(read_v4(&chars(bad)), None, "{bad}");
    }
}

#[test]
fn colon_addresses() {
    let good: [(&str, [u16; 8]); 16] = [
        ("::", [0; 8]),
        ("::1", [0, 0, 0, 0, 0, 0, 0, 1]),
        ("1::", [1, 0, 0, 0, 0, 0, 0, 0]),
        ("1:2:3:4:5:6:7:8", [1, 2, 3, 4, 5, 6, 7, 8]),
        ("1:2:3:4:5:6:7::", [1, 2, 3, 4, 5, 6, 7, 0]),
        ("::2:3:4:5:6:7:8", [0, 2, 3, 4, 5, 6, 7, 8]),
        ("1::8", [1, 0, 0, 0, 0, 0, 0, 8]),
        ("2001:db8::1:0:0:1", [0x2001, 0xdb8, 0, 0, 1, 0, 0, 1]),
        ("2001:DB8::ABCD", [0x2001, 0xdb8, 0, 0, 0, 0, 0, 0xabcd]),
        ("0001:0002:0003:0004:0005:0006:0007:0008", [1, 2, 3, 4, 5, 6, 7, 8]),
        ("::ffff:1.2.3.4", [0, 0, 0, 0, 0, 0xffff, 0x0102, 0x0304]),
        ("::1.2.3.4", [0, 0, 0, 0, 0, 0, 0x0102, 0x0304]),
        ("1:2:3:4:5:6:1.2.3.4", [1, 2, 3, 4, 5, 6, 0x0102, 0x0304]),
        ("1:2:3:4:5::1.2.3.4", [1, 2, 3, 4, 5, 0, 0x0102, 0x0304]),
        ("1::1.2.3.4", [1, 0, 0, 0, 0, 0, 0x0102, 0x0304]),
        ("ffff:ffff:ffff:ffff:ffff:ffff:ffff:ffff", [0xffff; 8]),
    ];
    for (text, groups) in good {
        assert_eq!(read_v6(&chars(text)), Some(groups), "{text}");
        assert_eq!(read_ip(&chars(text)), Some(IpAddr::V6(groups)), "{text}");
    }
    for bad in [
        "", ":", ":::", "1", "1:2", "1:2:3:4:5:6:7", "1:2:3:4:5:6:7:8:9", "1:2:3:4:5:6:7:8::",
        "::1:2:3:4:5:6:7:8", "1::2::3", "1:::2", ":1::", "::1:", "1::2:", "12345::", "g::",
        "1.2.3.4::", "1:2:3:4:5:6:7:1.2.3.4", "1:2:3:4:5:6::1.2.3.4", "::1.2.3.4:5",
        "1:2:3:4:5:1.2.3.4", "::1.2.3", "::1.2.3.256", " ::", "::%eth0", "1::2 ", "::-1",
    ] {
        assert_eq!(read_v6(&chars(bad)), None, "{bad}");
    }
    assert_eq!(read_ip(&chars("1.2.3.4")), Some(IpAddr::V4([1, 2, 3, 4])));
    assert_eq!(read_ip(&chars("nope")), None);
}
