use moreutils::ifdata::{
    addr, broadcast_text, byte_rate, check_args, command_action, config_text, flags, flags_text,
    hwaddr_text, iface_exists, ipv4_text, is_command, is_stats_or_rate, netmask, network, network_text,
    numbers_text, parse_net_dev, usage_text, Action, ArgCheck, Interface, Ipv4, NetDev, Query,
};

#[test]
fn existing_non_ip_interface_values_are_rendered_as_non_ip() {
    assert_eq!(ipv4_text(None), "NON-IP");
    assert_eq!(network_text(None, None), "NON-IP");
    assert_eq!(broadcast_text(None, None), "NON-IP");
    assert_eq!(config_text(None, None, None, 1400), "NON-IP NON-IP NON-IP 1400");
}

#[test]
fn ipv4_values_and_missing_broadcast_are_rendered() {
    let address = Some(Ipv4::new(10, 23, 4, 5));
    let netmask = Some(Ipv4::new(255, 255, 255, 0));
    assert_eq!(ipv4_text(address), "10.23.4.5");
    assert_eq!(network_text(address, netmask), "10.23.4.0");
    assert_eq!(broadcast_text(address, None), "0.0.0.0");
    assert_eq!(
        config_text(address, netmask, None, 1400),
        "10.23.4.5 255.255.255.0 0.0.0.0 1400"
    );
}

#[test]
fn network_masks_each_octet() {
    let n = network(Ipv4::new(192, 168, 17, 200), Ipv4::new(255, 255, 240, 0));
    assert_eq!(n, Ipv4::new(192, 168, 16, 0));
    assert_eq!(config_text(None, None, None, -1), "NON-IP NON-IP NON-IP -1");
}

#[test]
fn commands_and_arguments() {
    assert!(is_command("-pN"));
    assert!(!is_command("-pz"));
    assert!(is_stats_or_rate("-sip"));
    assert!(is_stats_or_rate("-bops"));
    assert!(!is_stats_or_rate("-pa"));
    let a = |v: &[&str]| v.iter().map(|s| s.to_string()).collect::<Vec<String>>();
    assert_eq!(check_args(&a(&[])), ArgCheck::Usage);
    assert_eq!(check_args(&a(&["eth0"])), ArgCheck::Nothing);
    assert_eq!(check_args(&a(&["-p"])), ArgCheck::Usage);
    assert_eq!(check_args(&a(&["-p", "-bad", "eth0"])), ArgCheck::Usage);
    assert_eq!(check_args(&a(&["-p", "-pa", "eth0"])), ArgCheck::Run);
    assert!(usage_text().starts_with("Usage: /bin/ifdata [options] iface\n     -e   Reports"));
    assert!(usage_text().ends_with("  -bops   Print # of outgoing bytes per second\n"));
}

#[test]
fn command_actions() {
    assert_eq!(command_action("-e", true), Action::Exit(0));
    assert_eq!(command_action("-e", false), Action::Exit(1));
    assert_eq!(command_action("-pe", false), Action::Answer(false));
    assert_eq!(command_action("-sip", false), Action::StatsNotFound);
    assert_eq!(command_action("-pa", false), Action::IfaceNotFound);
    assert_eq!(command_action("-pa", true), Action::Run(Query::Addr));
    assert_eq!(command_action("-sic", true), Action::Run(Query::Rx(6)));
    assert_eq!(command_action("-sox", true), Action::Run(Query::Tx(5)));
    assert_eq!(command_action("-bips", true), Action::Run(Query::RxRate));
}

#[test]
fn interface_entries() {
    let ifaces = vec![
        Interface { name: "eth0".into(), address: None, netmask: None, flags: 0x11043 },
        Interface {
            name: "eth0".into(),
            address: Some(Ipv4::new(10, 0, 0, 2)),
            netmask: Some(Ipv4::new(255, 0, 0, 0)),
            flags: 0x1043,
        },
        Interface { name: "lo".into(), address: None, netmask: None, flags: 0x49 },
    ];
    assert!(iface_exists(&ifaces, "lo"));
    assert!(!iface_exists(&ifaces, "wlan0"));
    assert_eq!(addr(&ifaces, "eth0"), Some(Ipv4::new(10, 0, 0, 2)));
    assert_eq!(netmask(&ifaces, "eth0"), Some(Ipv4::new(255, 0, 0, 0)));
    assert_eq!(addr(&ifaces, "lo"), None);
    assert_eq!(flags(&ifaces, "eth0"), Some(0x1043));
    assert_eq!(flags(&ifaces, "nope"), None);
}

#[test]
fn flags_lines() {
    let text = flags_text(0x49);
    let lines: Vec<&str> = text.lines().collect();
    assert_eq!(lines.len(), 17);
    assert_eq!(lines[0], "On  Up");
    assert_eq!(lines[1], "Off Broadcast");
    assert_eq!(lines[3], "On  Loopback");
    assert_eq!(lines[6], "On  Running");
    assert_eq!(lines[16], "Off Unknown-flags");
    let negative = flags_text(-32768);
    assert!(negative.ends_with("On  Dynaddr\nOn  Unknown-flags\n"));
}

#[test]
fn hardware_address() {
    assert_eq!(hwaddr_text([0, 0, 0, 0, 0, 0]), None);
    assert_eq!(hwaddr_text([0x52, 0x54, 0, 0xab, 0x0c, 0xff]), Some("52:54:00:AB:0C:FF".to_string()));
}

#[test]
fn proc_net_dev_statistics() {
    let text = "Inter-|   Receive                                                |  Transmit\n face |bytes    packets errs drop fifo frame compressed multicast|bytes    packets errs drop fifo colls carrier compressed\n    lo: 100 2 0 0 0 0 0 0 100 2 0 0 0 0 0 0\n  eth0: 1 2 3 4 5 6 7 8 9 10 11 12 13 14 15 16\n  bad: 1 2 3\n";
    match parse_net_dev(text, "eth0") {
        NetDev::Found(rx, tx) => {
            assert_eq!(rx, vec![1, 2, 3, 4, 5, 6, 7, 8]);
            assert_eq!(tx, vec![9, 10, 11, 12, 13, 14, 15, 16]);
            assert_eq!(numbers_text(&rx), "1 2 3 4 5 6 7 8");
        }
        _ => panic!("eth0 not found"),
    }
    assert!(matches!(parse_net_dev(text, "bad"), NetDev::Invalid));
    assert!(matches!(parse_net_dev(text, "wlan0"), NetDev::Missing));
    assert_eq!(byte_rate(100, 350), 250);
    assert_eq!(byte_rate(350, 100), 0);
}
