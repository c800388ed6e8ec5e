//! The two configuration records: a client's (DHCP or fixed settings) and a
//! router's.
use vstd::prelude::*;

use crate::addr::Ipv4Addr;
use crate::mask::Mask;
use crate::subnet::Subnet;

verus! {

/// A client's fixed network identity.
#[derive(Clone, Copy, Debug, PartialEq, Eq, Structural)]
pub struct ClientSettings {
    pub ip: Ipv4Addr,
    pub subnet: Subnet,
    pub dns: Option<Ipv4Addr>,
    pub secondary_dns: Option<Ipv4Addr>,
}

/// The subnet that both records start from: 192.168.71.1/24.
pub open spec fn default_subnet() -> Subnet {
    Subnet { gateway: Ipv4Addr(192, 168, 71, 1), mask: Mask(24) }
}

/// The settings a fixed client starts from.
pub open spec fn default_client_settings() -> ClientSettings {
    ClientSettings {
        ip: Ipv4Addr(192, 168, 71, 200),
        subnet: default_subnet(),
        dns: Some(Ipv4Addr(8, 8, 8, 8)),
        secondary_dns: Some(Ipv4Addr(8, 8, 4, 4)),
    }
}

/// The configuration a router starts from.
pub open spec fn default_router_configuration() -> RouterConfiguration {
    RouterConfiguration {
        subnet: default_subnet(),
        dhcp_enabled: true,
        dns: Some(Ipv4Addr(8, 8, 8, 8)),
        secondary_dns: Some(Ipv4Addr(8, 8, 4, 4)),
    }
}

fn new_default_subnet() -> (r: Subnet)
    ensures
        r == default_subnet(),
{
    Subnet { gateway: Ipv4Addr::new(192, 168, 71, 1), mask: Mask(24) }
}

impl Default for ClientSettings {
    fn default() -> (r: ClientSettings)
        ensures
            r == default_client_settings(),
    {
        ClientSettings {
            ip: Ipv4Addr::new(192, 168, 71, 200),
            subnet: new_default_subnet(),
            dns: Some(Ipv4Addr::new(8, 8, 8, 8)),
            secondary_dns: Some(Ipv4Addr::new(8, 8, 4, 4)),
        }
    }
}

/// How a client gets its address: from a DHCP server, or fixed settings.
#[derive(Clone, Copy, Debug, PartialEq, Eq, Structural)]
pub enum ClientConfiguration {
    DHCP,
    Fixed(ClientSettings),
}

impl ClientConfiguration {
    /// The fixed settings, where there are any.
    pub fn as_fixed_settings_ref(&self) -> (r: Option<&ClientSettings>)
        ensures
            match *self {
                ClientConfiguration::Fixed(cs) => r == Some(&cs),
                ClientConfiguration::DHCP => r is None,
            },
    {
        match self {
            ClientConfiguration::Fixed(client_settings) => Some(client_settings),
            ClientConfiguration::DHCP => None,
        }
    }

    /// The fixed settings, to change in place. A DHCP configuration first
    /// becomes a fixed one with the default settings.
    pub fn as_fixed_settings_mut(&mut self) -> (r: &mut ClientSettings)
        ensures
            match *old(self) {
                ClientConfiguration::Fixed(cs) => *r == cs,
                ClientConfiguration::DHCP => *r == default_client_settings(),
            },
            *final(self) == ClientConfiguration::Fixed(*final(r)),
    {
        if let ClientConfiguration::DHCP = self {
            *self = ClientConfiguration::Fixed(ClientSettings::default());
        }
        match self {
            ClientConfiguration::Fixed(client_settings) => client_settings,
            ClientConfiguration::DHCP => vstd::pervasive::unreached(),
        }
    }
}

impl Default for ClientConfiguration {
    fn default() -> (r: ClientConfiguration)
        ensures
            r == ClientConfiguration::DHCP,
    {
        ClientConfiguration::DHCP
    }
}

/// A router's own subnet, whether it serves DHCP on it, and its DNS servers.
#[derive(Clone, Copy, Debug, PartialEq, Eq, Structural)]
pub struct RouterConfiguration {
    pub subnet: Subnet,
    pub dhcp_enabled: bool,
    pub dns: Option<Ipv4Addr>,
    pub secondary_dns: Option<Ipv4Addr>,
}

impl Default for RouterConfiguration {
    fn default() -> (r: RouterConfiguration)
        ensures
            r == default_router_configuration(),
    {
        RouterConfiguration {
            subnet: new_default_subnet(),
            dhcp_enabled: true,
            dns: Some(Ipv4Addr::new(8, 8, 8, 8)),
            secondary_dns: Some(Ipv4Addr::new(8, 8, 4, 4)),
        }
    }
}

} // verus!
