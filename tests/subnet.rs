use netconfig::{Ipv4Addr, Mask, ParseError, Subnet};

#[test]
fn subnet_parse_gateway_and_mask() {
    assert_eq!(
        Subnet::parse("192.168.1.1/24"),
        Ok(Subnet { gateway: Ipv4Addr::new(192, 168, 1, 1), mask: Mask(24) })
    );
}

#[test]
fn subnet_parse_without_slash() {
    assert_eq!(Subnet::parse("192.168.1.1"), Err(ParseError::InvalidSubnetFormat));
}

#[test]
fn subnet_parse_bad_address() {
    assert_eq!(Subnet::parse("not-an-ip/24"), Err(ParseError::InvalidAddressFormat));
    assert_eq!(Subnet::parse("/24"), Err(ParseError::InvalidAddressFormat));
    assert_eq!(Subnet::parse("\u{e9}/24"), Err(ParseError::InvalidAddressFormat));
}

#[test]
fn subnet_parse_two_slashes() {
    assert_eq!(Subnet::parse("192.168.1.1/24/8"), Err(ParseError::InvalidSubnetFormat));
    assert_eq!(Subnet::parse("//"), Err(ParseError::InvalidSubnetFormat));
}

#[test]
fn subnet_parse_bad_mask() {
    assert_eq!(Subnet::parse("192.168.1.1/33"), Err(ParseError::OutOfRange));
    assert_eq!(Subnet::parse("192.168.1.1/0"), Err(ParseError::OutOfRange));
    assert_eq!(Subnet::parse("192.168.1.1/x"), Err(ParseError::InvalidFormat));
    assert_eq!(Subnet::parse("192.168.1.1/"), Err(ParseError::InvalidFormat));
}

#[test]
fn subnet_to_string() {
    let s = Subnet { gateway: Ipv4Addr::new(10, 0, 0, 1), mask: Mask(8) };
    assert_eq!(s.to_string(), "10.0.0.1/8");
}

#[test]
fn subnet_text_round_trip() {
    for (a, m) in [((192, 168, 71, 1), 24), ((0, 0, 0, 0), 1), ((255, 255, 255, 255), 32), ((10, 20, 30, 40), 9)] {
        let s = Subnet { gateway: Ipv4Addr::new(a.0, a.1, a.2, a.3), mask: Mask(m) };
        assert_eq!(Subnet::parse(s.to_string().as_str()), Ok(s));
        assert_eq!(s.to_string().parse::<Subnet>(), Ok(s));
    }
}

#[test]
fn error_messages() {
    assert_eq!(ParseError::InvalidFormat.message(), "Invalid subnet mask");
    assert_eq!(ParseError::OutOfRange.message(), "Mask should be a number between 1 and 32");
    assert_eq!(ParseError::InvalidSubnetFormat.message(), "Expected <gateway-ip-address>/<mask>");
    assert_eq!(ParseError::NotAValidMask.message(), "Not a valid mask");
}
