use netconfig::Ipv4Addr;

#[test]
fn address_to_string() {
    assert_eq!(Ipv4Addr::new(192, 168, 1, 1).to_string(), "192.168.1.1");
    assert_eq!(Ipv4Addr::new(0, 0, 0, 0).to_string(), "0.0.0.0");
    assert_eq!(Ipv4Addr::new(255, 255, 255, 255).to_string(), "255.255.255.255");
    assert_eq!(Ipv4Addr::new(10, 0, 100, 9).to_string(), "10.0.100.9");
}

#[test]
fn address_parse_valid() {
    assert_eq!(Ipv4Addr::parse("192.168.1.1"), Some(Ipv4Addr::new(192, 168, 1, 1)));
    assert_eq!(Ipv4Addr::parse("0.0.0.0"), Some(Ipv4Addr::new(0, 0, 0, 0)));
    assert_eq!(Ipv4Addr::parse("255.255.255.255"), Some(Ipv4Addr::new(255, 255, 255, 255)));
}

#[test]
fn address_parse_invalid() {
    for t in [
        "", "256.0.0.1", "01.2.3.4", "1.2.3", "1.2.3.4.5", "1..2.3", "a.b.c.d", "1.2.3.4 ",
        " 1.2.3.4", "1.2.3.", ".1.2.3", "1.2.3.-4", "1.2.3.\u{e9}", "1000.1.1.1",
    ] {
        assert_eq!(Ipv4Addr::parse(t), None, "{}", t);
    }
}

#[test]
fn address_bits_big_endian() {
    assert_eq!(Ipv4Addr::new(1, 2, 3, 4).to_bits(), 0x0102_0304);
    assert_eq!(Ipv4Addr::from_bits(0xC0A8_0101), Ipv4Addr::new(192, 168, 1, 1));
    assert_eq!(Ipv4Addr::new(8, 8, 4, 4).octets(), [8, 8, 4, 4]);
}
