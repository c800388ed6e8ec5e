//! Network settings of a device that is either a DHCP client or a router:
//! IPv4 addresses, subnet masks, subnets and the two configuration records,
//! with their text forms.
use vstd::prelude::*;

pub mod addr;
pub mod config;
pub mod error;
pub mod mask;
pub mod subnet;
pub mod text;

pub use addr::Ipv4Addr;
pub use config::{ClientConfiguration, ClientSettings, RouterConfiguration};
pub use error::ParseError;
pub use mask::Mask;
pub use subnet::Subnet;

verus! {

} // verus!
