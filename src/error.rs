//! Why a text or an address could not be read.
use vstd::prelude::*;

verus! {

/// The ways a parse or a conversion can fail.
#[derive(Clone, Copy, Debug, PartialEq, Eq, Structural)]
pub enum ParseError {
    /// The mask text is not a decimal integer.
    InvalidFormat,
    /// The mask is an integer outside `1..=32`.
    OutOfRange,
    /// The gateway text is not a dotted-quad IPv4 address.
    InvalidAddressFormat,
    /// The subnet text is not of the shape `<address>/<mask>`.
    InvalidSubnetFormat,
    /// The address is not a run of one-bits followed by zero-bits.
    NotAValidMask,
}

impl ParseError {
    /// A sentence for the user.
    pub fn message(&self) -> (r: &'static str) {
        match self {
            ParseError::InvalidFormat => "Invalid subnet mask",
            ParseError::OutOfRange => "Mask should be a number between 1 and 32",
            ParseError::InvalidAddressFormat => "Invalid ip address format, expected XXX.XXX.XXX.XXX",
            ParseError::InvalidSubnetFormat => "Expected <gateway-ip-address>/<mask>",
            ParseError::NotAValidMask => "Not a valid mask",
        }
    }
}

} // verus!
