use netconfig::{Ipv4Addr, Mask, ParseError};
use std::convert::TryFrom;

#[test]
fn mask_text_round_trip_for_every_valid_value() {
    for v in 1u8..=32 {
        let m = Mask(v);
        assert_eq!(Mask::parse(m.to_string().as_str()), Ok(m));
    }
}

#[test]
fn mask_to_string_is_decimal() {
    assert_eq!(Mask(24).to_string(), "24");
    assert_eq!(Mask(1).to_string(), "1");
    assert_eq!(Mask(32).to_string(), "32");
}

#[test]
fn mask_parse_out_of_range() {
    assert_eq!(Mask::parse("0"), Err(ParseError::OutOfRange));
    assert_eq!(Mask::parse("33"), Err(ParseError::OutOfRange));
    assert_eq!(Mask::parse("300"), Err(ParseError::OutOfRange));
    assert_eq!(Mask::parse("99999999999999999999999"), Err(ParseError::OutOfRange));
}

#[test]
fn mask_parse_not_a_number() {
    assert_eq!(Mask::parse(""), Err(ParseError::InvalidFormat));
    assert_eq!(Mask::parse("abc"), Err(ParseError::InvalidFormat));
    assert_eq!(Mask::parse("-5"), Err(ParseError::InvalidFormat));
    assert_eq!(Mask::parse("+5"), Err(ParseError::InvalidFormat));
    assert_eq!(Mask::parse(" 24"), Err(ParseError::InvalidFormat));
    assert_eq!(Mask::parse("2 4"), Err(ParseError::InvalidFormat));
    assert_eq!(Mask::parse("24\u{e9}"), Err(ParseError::InvalidFormat));
}

#[test]
fn mask_parse_accepts_leading_zero() {
    assert_eq!(Mask::parse("024"), Ok(Mask(24)));
    assert_eq!(Mask::parse("1"), Ok(Mask(1)));
    assert_eq!(Mask::parse("32"), Ok(Mask(32)));
}

#[test]
fn mask_from_str_trait() {
    assert_eq!("16".parse::<Mask>(), Ok(Mask(16)));
    assert_eq!("x".parse::<Mask>(), Err(ParseError::InvalidFormat));
}

#[test]
fn mask_from_dotted_quad_prefix_patterns() {
    assert_eq!(Mask::from_dotted_quad(Ipv4Addr::new(255, 255, 255, 0)), Ok(Mask(24)));
    assert_eq!(Mask::from_dotted_quad(Ipv4Addr::new(255, 255, 255, 255)), Ok(Mask(32)));
    assert_eq!(Mask::from_dotted_quad(Ipv4Addr::new(128, 0, 0, 0)), Ok(Mask(1)));
    assert_eq!(Mask::from_dotted_quad(Ipv4Addr::new(255, 255, 240, 0)), Ok(Mask(20)));
}

#[test]
fn mask_from_dotted_quad_rejects_other_patterns() {
    assert_eq!(Mask::from_dotted_quad(Ipv4Addr::new(255, 0, 255, 0)), Err(ParseError::NotAValidMask));
    assert_eq!(Mask::from_dotted_quad(Ipv4Addr::new(0, 0, 0, 0)), Err(ParseError::NotAValidMask));
    assert_eq!(Mask::from_dotted_quad(Ipv4Addr::new(0, 0, 0, 1)), Err(ParseError::NotAValidMask));
}

#[test]
fn mask_try_from_address() {
    assert_eq!(Mask::try_from(Ipv4Addr::new(255, 255, 0, 0)), Ok(Mask(16)));
    assert_eq!(Mask::try_from(Ipv4Addr::new(255, 0, 255, 0)), Err(ParseError::NotAValidMask));
}

#[test]
fn mask_to_dotted_quad_is_single_shifted_bit() {
    assert_eq!(Mask(8).to_dotted_quad(), Ipv4Addr::new(0, 0, 1, 0));
    assert_eq!(Mask(24).to_dotted_quad(), Ipv4Addr::new(1, 0, 0, 0));
    assert_eq!(Mask(31).to_dotted_quad(), Ipv4Addr::new(128, 0, 0, 0));
    assert_eq!(Mask(1).to_dotted_quad(), Ipv4Addr::new(0, 0, 0, 2));
    assert_eq!(Mask(32).to_dotted_quad(), Ipv4Addr::new(0, 0, 0, 0));
    assert_eq!(Ipv4Addr::from(Mask(16)), Ipv4Addr::new(0, 1, 0, 0));
}
