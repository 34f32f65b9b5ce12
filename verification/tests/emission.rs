use core::cmp::Ordering;
use glean::config_drive::network_info::{Network, Route};
use glean::config_drive::ConfigDrive;
use glean::live_networks::interface_type::InterfaceType;
use glean::live_networks::writer::{
    get_output_files, DebianWriter, ExistenceProbe, Platform, RedHatWriter, Writer,
};
use glean::live_networks::LiveNetworks;
use glean::net_writer::NetworkWriter;
use glean::options::Opt;
use glean::sys::interface::Readings;
use glean::sys::SysInterfaces;

fn up(address: &str) -> Readings {
    Readings {
        addr_assign_type: Some("0\n".to_string()),
        carrier: vec![Some("1\n".to_string())],
        address: Some(format!("{}\n", address)),
    }
}

fn live(pairs: &[(&str, &str)]) -> SysInterfaces {
    let listing: Vec<String> = pairs.iter().map(|p| p.0.to_string()).collect();
    let files: Vec<Readings> = pairs.iter().map(|p| up(p.1)).collect();
    SysInterfaces::new(&None, &None, true, &listing, &files)
}

fn route(network: &str, netmask: &str, gateway: &str) -> Route {
    Route { netmask: netmask.to_string(), network: network.to_string(), gateway: gateway.to_string() }
}

fn network(kind: &str, routes: Vec<Route>) -> Network {
    Network {
        network_id: "N".to_string(),
        network_type: kind.to_string(),
        netmask: "255.255.255.0".to_string(),
        link: "AA:BB:CC:DD:EE:FF".to_string(),
        routes,
        ip_address: "10.0.0.5".to_string(),
        id: "eth0".to_string(),
    }
}

fn scenario_document() -> String {
    r#"{"services": [],
        "networks": [{"network_id": "net", "type": "ipv4", "netmask": "255.255.255.0",
                      "link": "L1", "routes": [{"netmask": "0.0.0.0", "network": "0.0.0.0",
                      "gateway": "10.0.0.1"}], "ip_address": "10.0.0.5", "id": "N1"}],
        "links": [{"ethernet_mac_address": "aa:bb:cc:dd:ee:ff", "mtu": 1500, "id": "L1",
                   "vif_id": "v"}]}"#
        .to_string()
}

fn keys(networks: &LiveNetworks) -> Vec<String> {
    networks.interfaces.iter().map(|i| i.get_key()).collect()
}

#[test]
fn matching_ignores_case() {
    let document = r#"{"services": [],
        "networks": [{"network_id": "net", "type": "ipv4", "netmask": "255.0.0.0", "link": "L1",
                      "routes": [], "ip_address": "10.0.0.5", "id": "N1"}],
        "links": [{"ethernet_mac_address": "AA:BB:CC", "mtu": 1500, "id": "L1", "vif_id": "v"}]}"#;
    let drive = ConfigDrive::new(&vec![Some(document.to_string())]);
    let networks = LiveNetworks::new(&live(&[("eth0", "aa:bb:cc")]), drive, &None, false);
    match &networks.interfaces[0] {
        InterfaceType::Static(network) => {
            assert_eq!(network.id, "eth0");
            assert_eq!(network.link, "aa:bb:cc");
            assert_eq!(network.ip_address, "10.0.0.5");
        }
        InterfaceType::Dhcp(_) => panic!("not matched"),
    }
    let drive = ConfigDrive::new(&vec![Some(document.to_string())]);
    let networks = LiveNetworks::new(&live(&[("eth0", "Aa:bB:Cc")]), drive, &None, false);
    assert!(matches!(&networks.interfaces[0], InterfaceType::Static(n) if n.link == "Aa:bB:Cc"));
    let drive = ConfigDrive::new(&vec![Some(document.to_string())]);
    let networks = LiveNetworks::new(&live(&[("eth0", "aa:bb:cd")]), drive, &None, false);
    assert!(matches!(&networks.interfaces[0], InterfaceType::Dhcp(n) if n == "eth0"));
}

#[test]
fn reconcile_sorts_by_name() {
    let interfaces = live(&[("eth2", "02"), ("eth10", "10"), ("eth0", "00"), ("eth1", "01")]);
    let first = LiveNetworks::new(&interfaces, None, &None, false);
    assert_eq!(keys(&first), vec!["eth0", "eth1", "eth10", "eth2"]);
    let second = LiveNetworks::new(&interfaces, None, &None, false);
    assert_eq!(keys(&first), keys(&second));
    assert_eq!(format!("{:?}", first), format!("{:?}", second));
}

#[test]
fn reconcile_keeps_the_order_of_equal_names() {
    let document = r#"{"services": [],
        "networks": [{"network_id": "net", "type": "ipv4", "netmask": "255.0.0.0", "link": "L1",
                      "routes": [], "ip_address": "10.0.0.5", "id": "N1"}],
        "links": [{"ethernet_mac_address": "aa", "mtu": 1500, "id": "L1", "vif_id": "v"}]}"#;
    let drive = ConfigDrive::new(&vec![Some(document.to_string())]);
    let interfaces = live(&[("eth1", "xx"), ("eth0", "bb"), ("eth0", "aa"), ("eth0", "cc")]);
    let networks = LiveNetworks::new(&interfaces, drive, &None, false);
    assert_eq!(keys(&networks), vec!["eth0", "eth0", "eth0", "eth1"]);
    assert!(matches!(networks.interfaces[0], InterfaceType::Dhcp(_)));
    assert!(matches!(networks.interfaces[1], InterfaceType::Static(_)));
    assert!(matches!(networks.interfaces[2], InterfaceType::Dhcp(_)));
}

#[test]
fn fallback_is_dhcp_for_every_interface() {
    let interfaces = live(&[("eth1", "aa:bb:cc:dd:ee:ff"), ("eth0", "11:22:33:44:55:66")]);
    let networks = LiveNetworks::new(&interfaces, None, &None, false);
    assert_eq!(networks.interfaces.len(), 2);
    assert!(matches!(&networks.interfaces[0], InterfaceType::Dhcp(n) if n == "eth0"));
    assert!(matches!(&networks.interfaces[1], InterfaceType::Dhcp(n) if n == "eth1"));
    let drive = ConfigDrive::new(&vec![None, Some("garbage".to_string())]);
    assert!(drive.is_none());
    let networks = LiveNetworks::new(&interfaces, drive, &None, false);
    assert!(networks.interfaces.iter().all(|i| matches!(i, InterfaceType::Dhcp(_))));
}

#[test]
fn platform_follows_the_marker() {
    let interfaces = live(&[]);
    let debian = LiveNetworks::new(&interfaces, None, &Some("/t".to_string()), true);
    assert_eq!(debian.platform, Platform::Debian);
    assert_eq!(debian.root, "/t");
    let redhat = LiveNetworks::new(&interfaces, None, &None, false);
    assert_eq!(redhat.platform, Platform::RedHat);
    assert_eq!(redhat.root, "/");
    assert_eq!(LiveNetworks::marker(&None), "/etc/network");
    assert_eq!(LiveNetworks::marker(&Some("/t".to_string())), "/t/etc/network");
}

#[test]
fn assignments_compare_by_key() {
    let fixed = InterfaceType::Static(network("ipv4", vec![]));
    let dynamic = InterfaceType::Dhcp("eth0".to_string());
    let other = InterfaceType::Dhcp("eth1".to_string());
    assert_eq!(fixed.get_key(), "eth0");
    assert_eq!(fixed.key(), "eth0");
    assert_eq!(other.get_key(), "eth1");
    assert!(fixed == dynamic);
    assert!(dynamic != other);
    assert_eq!(fixed.partial_cmp(&dynamic), Some(Ordering::Equal));
    assert_eq!(fixed.partial_cmp(&other), Some(Ordering::Less));
    assert_eq!(other.partial_cmp(&fixed), Some(Ordering::Greater));
    assert!(dynamic < other);
    assert!(other >= fixed);
}

#[test]
fn redhat_dhcp_template() {
    let writer = RedHatWriter { root: "/".to_string() };
    let file = writer.generate_config(&"eth0".to_string(), &InterfaceType::Dhcp("eth0".to_string()));
    assert_eq!(file.path, "/etc/sysconfig/network-scripts/ifcfg-eth0");
    assert_eq!(
        file.content,
        "# Generated by glean\nDEVICE=eth0\nBOOTPROTO=dhcp\nONBOOT=yes\nNM_CONTROLLED=no\nTYPE=Ethernet"
    );
}

#[test]
fn redhat_static_template() {
    let writer = RedHatWriter { root: "/target".to_string() };
    let assignment = InterfaceType::Static(network("ipv4", vec![route("0.0.0.0", "0.0.0.0", "10.0.0.1")]));
    let file = writer.generate_config(&"eth0".to_string(), &assignment);
    assert_eq!(file.path, "/target/etc/sysconfig/network-scripts/ifcfg-eth0");
    assert_eq!(
        file.content,
        "# Generated by glean\nDEVICE=eth0\nBOOTPROTO=static\nHWADDR=AA:BB:CC:DD:EE:FF\nIPADDR=10.0.0.5\nNETMASK=255.255.255.0\nONBOOT=yes\nNM_CONTROLLED=no"
    );
}

#[test]
fn debian_dhcp_template() {
    let writer = DebianWriter { root: "/".to_string() };
    let file = writer.generate_config(&"eth1".to_string(), &InterfaceType::Dhcp("eth1".to_string()));
    assert_eq!(file.path, "/etc/network/interfaces.d/eth1");
    assert_eq!(file.content, "# Generated by glean\nauto eth1\niface eth1 inet dhcp");
}

#[test]
fn debian_static_template() {
    let writer = DebianWriter { root: "/r".to_string() };
    let file = writer.generate_config(&"eth0".to_string(), &InterfaceType::Static(network("ipv4", vec![])));
    assert_eq!(file.path, "/r/etc/network/interfaces.d/eth0");
    assert_eq!(
        file.content,
        "# Generated by glean\nauto eth0\niface eth0 inet static\n    address 10.0.0.5\n    netmask 255.255.255.0"
    );
    let file = writer.generate_config(&"eth0".to_string(), &InterfaceType::Static(network("ipv6", vec![])));
    assert!(file.content.starts_with("# Generated by glean\nauto eth0\niface eth0 inet6 static\n"));
    let file = writer.generate_config(&"eth0".to_string(), &InterfaceType::Static(network("IPV6", vec![])));
    assert!(file.content.contains("iface eth0 inet static"));
}

#[test]
fn default_route_is_a_gateway() {
    let writer = DebianWriter { root: "/".to_string() };
    let assignment = InterfaceType::Static(network("ipv4", vec![route("0.0.0.0", "0.0.0.0", "10.0.0.1")]));
    let file = writer.generate_config(&"eth0".to_string(), &assignment);
    assert_eq!(
        file.content,
        "# Generated by glean\nauto eth0\niface eth0 inet static\n    address 10.0.0.5\n    netmask 255.255.255.0\n    gateway 10.0.0.1"
    );
    assert!(!file.content.contains("post-up"));
    assert!(!file.content.contains("pre-down"));
}

#[test]
fn other_route_is_a_pair_of_commands() {
    let writer = DebianWriter { root: "/".to_string() };
    let assignment =
        InterfaceType::Static(network("ipv4", vec![route("192.168.1.0", "255.255.255.0", "10.0.0.1")]));
    let file = writer.generate_config(&"eth0".to_string(), &assignment);
    assert_eq!(
        file.content,
        "# Generated by glean\nauto eth0\niface eth0 inet static\n    address 10.0.0.5\n    netmask 255.255.255.0\n    post-up route add -net 192.168.1.0 netmask 255.255.255.0 gw 10.0.0.1 || true\n\n    pre-down route add -net 192.168.1.0 netmask 255.255.255.0 gw 10.0.0.1 || true\n"
    );
    assert!(!file.content.contains("gateway"));
}

#[test]
fn routes_come_in_order() {
    let writer = DebianWriter { root: "/".to_string() };
    let assignment = InterfaceType::Static(network(
        "ipv4",
        vec![
            route("10.1.0.0", "255.255.0.0", "10.0.0.2"),
            route("0.0.0.0", "0.0.0.0", "10.0.0.1"),
            route("0.0.0.0", "255.0.0.0", "10.0.0.3"),
        ],
    ));
    let content = writer.generate_config(&"eth0".to_string(), &assignment).content;
    let tail = content.split("netmask 255.255.255.0").nth(1).unwrap();
    assert_eq!(
        tail,
        "\n    post-up route add -net 10.1.0.0 netmask 255.255.0.0 gw 10.0.0.2 || true\n\n    pre-down route add -net 10.1.0.0 netmask 255.255.0.0 gw 10.0.0.2 || true\n\n    gateway 10.0.0.1\n    post-up route add -net 0.0.0.0 netmask 255.0.0.0 gw 10.0.0.3 || true\n\n    pre-down route add -net 0.0.0.0 netmask 255.0.0.0 gw 10.0.0.3 || true\n"
    );
}

#[test]
fn probes_follow_the_platform() {
    let redhat = RedHatWriter { root: "/r".to_string() };
    match redhat.probe(&"eth0".to_string()) {
        ExistenceProbe::IsFile(path) => assert_eq!(path, "/r/etc/sysconfig/network-scripts/ifcfg-eth0"),
        _ => panic!("wrong probe"),
    }
    assert_eq!(redhat.interface_file(&"eth0".to_string()), "/r/etc/sysconfig/network-scripts/ifcfg-eth0");
    let debian = DebianWriter { root: "/r".to_string() };
    match debian.probe(&"eth0".to_string()) {
        ExistenceProbe::Succeeds { program, argument } => {
            assert_eq!(program, "ifquery");
            assert_eq!(argument, "eth0");
        }
        _ => panic!("wrong probe"),
    }
    assert_eq!(debian.interface_file(&"eth0".to_string()), "/r/etc/network/interfaces.d/eth0");
    let networks = LiveNetworks::new(&live(&[("eth1", "b"), ("eth0", "a")]), None, &None, true);
    let probes = networks.probes();
    assert_eq!(probes.len(), 2);
    assert!(matches!(&probes[0], ExistenceProbe::Succeeds { argument, .. } if argument == "eth0"));
    assert!(matches!(&probes[1], ExistenceProbe::Succeeds { argument, .. } if argument == "eth1"));
    let networks = LiveNetworks::new(&live(&[("eth1", "b")]), None, &None, false);
    assert!(matches!(&networks.probes()[0], ExistenceProbe::IsFile(p) if p == "/etc/sysconfig/network-scripts/ifcfg-eth1"));
}

#[test]
fn failed_probe_counts_as_absent() {
    let redhat = RedHatWriter { root: "/".to_string() };
    let debian = DebianWriter { root: "/".to_string() };
    let name = "eth0".to_string();
    assert!(redhat.config_exists(&name, Some(true)));
    assert!(!redhat.config_exists(&name, Some(false)));
    assert!(!redhat.config_exists(&name, None));
    assert!(debian.config_exists(&name, Some(true)));
    assert!(!debian.config_exists(&name, Some(false)));
    assert!(!debian.config_exists(&name, None));
}

#[test]
fn existing_configuration_is_left_alone() {
    let networks = LiveNetworks::new(
        &live(&[("eth2", "c"), ("eth0", "a"), ("eth1", "b")]),
        None,
        &None,
        false,
    );
    let all = networks.get_output(&vec![Some(true), Some(true), Some(true)]);
    assert!(all.files.is_empty());
    let some = networks.get_output(&vec![Some(true), Some(false), Some(true)]);
    assert_eq!(some.files.len(), 1);
    assert_eq!(some.files[0].path, "/etc/sysconfig/network-scripts/ifcfg-eth1");
    let failed = networks.get_output(&vec![None, Some(true)]);
    let paths: Vec<&str> = failed.files.iter().map(|f| f.path.as_str()).collect();
    assert_eq!(
        paths,
        vec!["/etc/sysconfig/network-scripts/ifcfg-eth0", "/etc/sysconfig/network-scripts/ifcfg-eth2"]
    );
    let writer = DebianWriter { root: "/".to_string() };
    let list = get_output_files(&writer, &networks.interfaces, &vec![Some(false), Some(true), Some(false)]);
    let paths: Vec<&str> = list.files.iter().map(|f| f.path.as_str()).collect();
    assert_eq!(paths, vec!["/etc/network/interfaces.d/eth0", "/etc/network/interfaces.d/eth2"]);
}

#[test]
fn end_to_end_static_on_redhat() {
    let drive = ConfigDrive::new(&vec![Some(scenario_document()), None]);
    assert!(drive.is_some());
    let interfaces = SysInterfaces::new(
        &None,
        &None,
        false,
        &vec!["lo".to_string(), "eth0".to_string()],
        &vec![up("00:00:00:00:00:00"), up("AA:BB:CC:DD:EE:FF")],
    );
    let networks = LiveNetworks::new(&interfaces, drive, &None, false);
    assert_eq!(networks.platform, Platform::RedHat);
    assert_eq!(networks.interfaces.len(), 1);
    match &networks.interfaces[0] {
        InterfaceType::Static(network) => {
            assert_eq!(network.id, "eth0");
            assert_eq!(network.link, "AA:BB:CC:DD:EE:FF");
            assert_eq!(network.ip_address, "10.0.0.5");
            assert_eq!(network.netmask, "255.255.255.0");
            assert_eq!(network.network_type, "ipv4");
            assert_eq!(network.routes.len(), 1);
        }
        InterfaceType::Dhcp(_) => panic!("not matched"),
    }
    let output = networks.get_output(&vec![Some(false)]);
    assert_eq!(output.files.len(), 1);
    assert_eq!(output.files[0].path, "/etc/sysconfig/network-scripts/ifcfg-eth0");
    assert!(output.files[0].content.contains("\nBOOTPROTO=static\n"));
    assert!(output.files[0].content.contains("\nIPADDR=10.0.0.5\n"));
    assert_eq!(
        output.files[0].content,
        "# Generated by glean\nDEVICE=eth0\nBOOTPROTO=static\nHWADDR=AA:BB:CC:DD:EE:FF\nIPADDR=10.0.0.5\nNETMASK=255.255.255.0\nONBOOT=yes\nNM_CONTROLLED=no"
    );
}

#[test]
fn writer_inputs_are_kept() {
    let interfaces = live(&[("eth0", "aa")]);
    let drive = ConfigDrive::new(&vec![Some(scenario_document())]);
    let writer = NetworkWriter::new(&None, &interfaces, drive, true);
    assert_eq!(writer.root, "/");
    assert!(writer.noop);
    assert_eq!(writer.interfaces.interfaces.len(), 1);
    assert_eq!(writer.interfaces.interfaces[0].iface, "eth0");
    assert_eq!(writer.config_drive.unwrap().interface_map.len(), 1);
    let writer = NetworkWriter::new(&Some("/x".to_string()), &interfaces, None, false);
    assert_eq!(writer.root, "/x");
    assert!(!writer.noop);
    assert!(writer.config_drive.is_none());
}

#[test]
fn options_default_the_root() {
    let opts = Opt::new(false, true, None, Some("eth0".to_string()), "Usage".to_string());
    assert!(!opts.help);
    assert!(opts.noop);
    assert_eq!(opts.root, "/mnt/config");
    assert_eq!(opts.distro, None);
    assert_eq!(opts.interface, Some("eth0".to_string()));
    assert_eq!(opts.usage, "Usage");
    let opts = Opt::new(true, false, Some("/r".to_string()), None, String::new());
    assert!(opts.help);
    assert_eq!(opts.root, "/r");
    assert_eq!(opts.interface, None);
}

#[test]
fn emitted_paths_differ_from_existing_ones() {
    let networks = LiveNetworks::new(
        &live(&[("eth0", "a"), ("eth1", "b"), ("eth10", "c"), ("eth", "d")]),
        None,
        &Some("/r".to_string()),
        true,
    );
    let observed = vec![Some(true), Some(false), Some(true), Some(false)];
    let output = networks.get_output(&observed);
    let writer = DebianWriter { root: "/r".to_string() };
    let kept: Vec<String> = networks
        .interfaces
        .iter()
        .zip(observed.iter())
        .filter(|(_, seen)| **seen == Some(true))
        .map(|(interface, _)| writer.interface_file(&interface.get_key()))
        .collect();
    assert_eq!(kept, vec!["/r/etc/network/interfaces.d/eth", "/r/etc/network/interfaces.d/eth1"]);
    assert_eq!(output.files.len(), 2);
    for file in &output.files {
        assert!(!kept.contains(&file.path));
    }
    let paths: Vec<&str> = output.files.iter().map(|f| f.path.as_str()).collect();
    assert_eq!(paths, vec!["/r/etc/network/interfaces.d/eth0", "/r/etc/network/interfaces.d/eth10"]);
}
