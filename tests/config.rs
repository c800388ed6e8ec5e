use netconfig::{ClientConfiguration, ClientSettings, Ipv4Addr, Mask, RouterConfiguration, Subnet};

fn default_subnet() -> Subnet {
    Subnet { gateway: Ipv4Addr::new(192, 168, 71, 1), mask: Mask(24) }
}

#[test]
fn client_configuration_default_is_dhcp() {
    assert_eq!(ClientConfiguration::default(), ClientConfiguration::DHCP);
}

#[test]
fn client_settings_default_values() {
    assert_eq!(
        ClientSettings::default(),
        ClientSettings {
            ip: Ipv4Addr::new(192, 168, 71, 200),
            subnet: default_subnet(),
            dns: Some(Ipv4Addr::new(8, 8, 8, 8)),
            secondary_dns: Some(Ipv4Addr::new(8, 8, 4, 4)),
        }
    );
}

#[test]
fn router_configuration_default_values() {
    assert_eq!(
        RouterConfiguration::default(),
        RouterConfiguration {
            subnet: default_subnet(),
            dhcp_enabled: true,
            dns: Some(Ipv4Addr::new(8, 8, 8, 8)),
            secondary_dns: Some(Ipv4Addr::new(8, 8, 4, 4)),
        }
    );
}

#[test]
fn mutable_access_turns_dhcp_into_fixed_default() {
    let mut c = ClientConfiguration::DHCP;
    let s = *c.as_fixed_settings_mut();
    assert_eq!(s, ClientSettings::default());
    assert_eq!(c, ClientConfiguration::Fixed(ClientSettings::default()));
}

#[test]
fn mutable_access_changes_fixed_settings_in_place() {
    let mut settings = ClientSettings::default();
    settings.dns = None;
    let mut c = ClientConfiguration::Fixed(settings);
    assert_eq!(*c.as_fixed_settings_mut(), settings);
    c.as_fixed_settings_mut().ip = Ipv4Addr::new(10, 0, 0, 5);
    let mut expected = settings;
    expected.ip = Ipv4Addr::new(10, 0, 0, 5);
    assert_eq!(c, ClientConfiguration::Fixed(expected));
}

#[test]
fn shared_access_reads_fixed_settings_only() {
    assert_eq!(ClientConfiguration::DHCP.as_fixed_settings_ref(), None);
    let c = ClientConfiguration::Fixed(ClientSettings::default());
    assert_eq!(c.as_fixed_settings_ref(), Some(&ClientSettings::default()));
}
