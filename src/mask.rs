//! Subnet masks as a prefix length in `1..=32`: their decimal text and their
//! dotted-quad form.
use vstd::prelude::*;
use vstd::std_specs::bits::{u32_leading_ones, u32_trailing_zeros};

use crate::addr::Ipv4Addr;
use crate::error::ParseError;
use crate::text::{all_digits, decimal, lemma_decimal, push_decimal, scan_digits, value_of};

verus! {

broadcast use vstd::string::is_ascii_spec_bytes;

/// A subnet prefix length. A valid mask holds a number in `1..=32`.
#[derive(Clone, Copy, Debug, PartialEq, Eq, Structural)]
pub struct Mask(pub u8);

/// What reading `t` as a mask gives: a decimal integer in `1..=32`, or the
/// reason it is not one.
pub open spec fn mask_from_text(t: Seq<char>) -> Result<Mask, ParseError> {
    if t.len() >= 1 && all_digits(t) {
        if 1 <= value_of(t) <= 32 {
            Ok(Mask(value_of(t) as u8))
        } else {
            Err(ParseError::OutOfRange)
        }
    } else {
        Err(ParseError::InvalidFormat)
    }
}

/// A run of one-bits from the top followed by zero-bits to the bottom.
pub open spec fn is_prefix_pattern(x: u32) -> bool {
    u32_leading_ones(x) + u32_trailing_zeros(x) == 32
}

/// What reading an address as a mask gives.
pub open spec fn mask_from_address(ip: Ipv4Addr) -> Result<Mask, ParseError> {
    if is_prefix_pattern(ip.bits()) && ip.bits() != 0 {
        Ok(Mask(u32_leading_ones(ip.bits()) as u8))
    } else {
        Err(ParseError::NotAValidMask)
    }
}

/// The 32-bit pattern of the dotted-quad form of mask `n`: the single bit
/// `1 << n`, which for `n >= 32` falls outside the 32 bits and leaves none.
pub open spec fn dotted_quad_bits(n: u8) -> u32 {
    if n < 32 {
        1u32 << (n as u32)
    } else {
        0
    }
}

impl Mask {
    pub open spec fn valid(self) -> bool {
        1 <= self.0 <= 32
    }

    /// Reads a mask from its decimal text.
    pub fn parse(s: &str) -> (r: Result<Mask, ParseError>)
        ensures
            r == mask_from_text(s@),
            r matches Ok(m) ==> m.valid(),
    {
        if !s.is_ascii() {
            proof {
                if s@.len() >= 1 && all_digits(s@) {
                    assert(vstd::utf8::is_ascii_chars(s@));
                }
            }
            return Err(ParseError::InvalidFormat);
        }
        let b = s.as_bytes();
        let len = b.len();
        proof {
            assert(s@.subrange(0, s@.len() as int) =~= s@);
        }
        if len == 0 {
            return Err(ParseError::InvalidFormat);
        }
        match scan_digits(s, b, 0, len, 33) {
            None => Err(ParseError::InvalidFormat),
            Some(v) => {
                if 1 <= v && v <= 32 {
                    Ok(Mask(v as u8))
                } else {
                    Err(ParseError::OutOfRange)
                }
            },
        }
    }

    /// Renders the mask as its decimal number.
    pub fn to_string(&self) -> (r: String)
        ensures
            r@ == decimal(self.0 as nat),
    {
        let mut s = String::new();
        push_decimal(&mut s, self.0);
        proof {
            assert(s@ =~= decimal(self.0 as nat));
        }
        s
    }

    /// Reads a mask from an address whose bits are a prefix pattern; the
    /// mask is the number of leading one-bits.
    pub fn from_dotted_quad(ip: Ipv4Addr) -> (r: Result<Mask, ParseError>)
        ensures
            r == mask_from_address(ip),
            r matches Ok(m) ==> m.valid(),
    {
        let addr = ip.to_bits();
        let ones = addr.leading_ones();
        let zeros = addr.trailing_zeros();
        proof {
            vstd::std_specs::bits::axiom_u32_leading_ones(addr);
            vstd::std_specs::bits::axiom_u32_trailing_zeros(addr);
        }
        if ones + zeros == 32 && addr != 0 {
            proof {
                assert(ones != 0);
            }
            Ok(Mask(ones as u8))
        } else {
            Err(ParseError::NotAValidMask)
        }
    }

    /// The dotted-quad form: the address whose bits are `1 << n`.
    pub fn to_dotted_quad(&self) -> (r: Ipv4Addr)
        ensures
            r == Ipv4Addr::of_bits(dotted_quad_bits(self.0)),
    {
        let addr: u32 = if self.0 < 32 {
            1u32 << (self.0 as u32)
        } else {
            0
        };
        Ipv4Addr::from_bits(addr)
    }
}

/// Reading the text of a valid mask gives the mask back.
pub proof fn lemma_mask_text_round_trip(m: Mask)
    requires
        m.valid(),
    ensures
        mask_from_text(decimal(m.0 as nat)) == Ok::<Mask, ParseError>(m),
{
    lemma_decimal(m.0 as nat);
}

/// Reading the decimal text of an integer outside `1..=32` fails as out of
/// range; reading text that is empty or holds a non-digit fails as not a
/// number.
pub proof fn lemma_mask_text_rejects(v: nat, t: Seq<char>)
    ensures
        v == 0 || v > 32 ==> mask_from_text(decimal(v)) == Err::<Mask, ParseError>(
            ParseError::OutOfRange,
        ),
        t.len() == 0 || !all_digits(t) ==> mask_from_text(t) == Err::<Mask, ParseError>(
            ParseError::InvalidFormat,
        ),
{
    lemma_decimal(v);
}

impl std::str::FromStr for Mask {
    type Err = ParseError;

    fn from_str(s: &str) -> Result<Mask, ParseError> {
        Mask::parse(s)
    }
}

impl std::convert::TryFrom<Ipv4Addr> for Mask {
    type Error = ParseError;

    fn try_from(ip: Ipv4Addr) -> (r: Result<Mask, ParseError>) {
        Mask::from_dotted_quad(ip)
    }
}

impl vstd::std_specs::convert::TryFromSpecImpl<Ipv4Addr> for Mask {
    open spec fn obeys_try_from_spec() -> bool {
        true
    }

    open spec fn try_from_spec(ip: Ipv4Addr) -> Result<Mask, ParseError> {
        mask_from_address(ip)
    }
}

impl std::convert::From<Mask> for Ipv4Addr {
    fn from(m: Mask) -> (r: Ipv4Addr) {
        m.to_dotted_quad()
    }
}

impl vstd::std_specs::convert::FromSpecImpl<Mask> for Ipv4Addr {
    open spec fn obeys_from_spec() -> bool {
        true
    }

    open spec fn from_spec(m: Mask) -> Ipv4Addr {
        Ipv4Addr::of_bits(dotted_quad_bits(m.0))
    }
}

} // verus!
