use glean::config_drive::network_info::{
    network_info_from_json, network_info_from_string, Link, Network, NetworkInfo, Route, Service,
    VendorData,
};
use glean::config_drive::ConfigDrive;
use glean::json::{check_limits, parse, JsonValue, Lexer};
use glean::{get_network_info, LoadError};

fn liberty_document() -> String {
    String::from(
        r#"{
    "services": [
        {"type": "dns", "address": "72.3.128.241"},
        {"type": "ntp", "address": "10.0.0.9"},
        {"type": "dns", "address": "72.3.128.240"}
    ],
    "networks": [
        {
            "network_id": "00000000-0000-0000-0000-000000000000",
            "type": "ipv4",
            "netmask": "255.255.255.0",
            "link": "public",
            "routes": [
                {"netmask": "0.0.0.0", "network": "0.0.0.0", "gateway": "23.253.157.1"}
            ],
            "ip_address": "23.253.157.244",
            "id": "public-ipv4"
        },
        {
            "network_id": "11111111-1111-1111-1111-111111111111",
            "type": "ipv4",
            "netmask": "255.255.224.0",
            "link": "private",
            "routes": [
                {"netmask": "255.240.0.0", "network": "10.176.0.0", "gateway": "10.208.160.1"},
                {"netmask": "255.240.0.0", "network": "10.208.0.0", "gateway": "10.208.160.1"}
            ],
            "ip_address": "10.208.169.118",
            "id": "private-ipv4"
        }
    ],
    "links": [
        {
            "ethernet_mac_address": "BC:76:4E:20:5B:15",
            "mtu": 1500,
            "type": "vif",
            "id": "public",
            "vif_id": "6e617ee6-8131-4a68-ae23-e9f57e4e0552"
        },
        {
            "ethernet_mac_address": "BC:76:4E:20:12:A1",
            "mtu": 1500,
            "type": "vif",
            "id": "private",
            "vif_id": "9f2bbb9b-4a3a-4f1c-a7e1-ff0e5c6c2b0a"
        }
    ]
}"#,
    )
}

fn vendor_document() -> String {
    format!(r#"{{"region": "dfw", "network_info": {}, "ip_whitelist": []}}"#, liberty_document())
}

#[test]
fn it_works() {
    let contents = vec![Some(liberty_document()), None];
    let config_drive = ConfigDrive::new(&contents);
    match config_drive {
        Some(interface) => {
            println!("Network {:?}", interface.interface_map);
            println!("DNS {:?}", interface.dns);
        }
        None => assert!(false),
    }
}

#[test]
fn drive_keeps_index_and_dns() {
    let drive = ConfigDrive::new(&vec![Some(liberty_document())]).unwrap();
    assert_eq!(drive.dns, vec!["72.3.128.241".to_string(), "72.3.128.240".to_string()]);
    assert_eq!(drive.interface_map.len(), 2);
    let public = drive.interface_map.get(&"bc:76:4e:20:5b:15".to_string()).unwrap();
    assert_eq!(public.id, "public-ipv4");
    assert_eq!(public.ip_address, "23.253.157.244");
    assert_eq!(public.link, "public");
    assert_eq!(public.routes.len(), 1);
    let private = drive.interface_map.get(&"bc:76:4e:20:12:a1".to_string()).unwrap();
    assert_eq!(private.netmask, "255.255.224.0");
    assert_eq!(private.routes.len(), 2);
    assert_eq!(private.routes[1].network, "10.208.0.0");
    assert!(drive.interface_map.get(&"BC:76:4E:20:5B:15".to_string()).is_none());
    assert!(!drive.interface_map.contains_key(&"00:00:00:00:00:00".to_string()));
}

#[test]
fn drive_takes_the_first_file_that_loads() {
    let other = r#"{"services": [{"type": "dns", "address": "1.1.1.1"}], "networks": [], "links": []}"#;
    let contents = vec![None, Some("not json".to_string()), Some(other.to_string()), Some(liberty_document())];
    let drive = ConfigDrive::new(&contents).unwrap();
    assert_eq!(drive.dns, vec!["1.1.1.1".to_string()]);
    assert_eq!(drive.interface_map.len(), 0);
}

#[test]
fn drive_is_absent_without_metadata() {
    assert!(ConfigDrive::new(&vec![]).is_none());
    assert!(ConfigDrive::new(&vec![None, None]).is_none());
    assert!(ConfigDrive::new(&vec![Some("{".to_string()), Some("[]".to_string())]).is_none());
}

#[test]
fn drive_locations_are_tried_in_order() {
    assert_eq!(
        ConfigDrive::locations(&None),
        vec![
            "/mnt/config/openstack/latest/network_info.json".to_string(),
            "/mnt/config/openstack/latest/vendor_data.json".to_string(),
        ]
    );
    assert_eq!(
        ConfigDrive::locations(&Some("samples/liberty".to_string())),
        vec![
            "samples/liberty/mnt/config/openstack/latest/network_info.json".to_string(),
            "samples/liberty/mnt/config/openstack/latest/vendor_data.json".to_string(),
        ]
    );
}

#[test]
fn metadata_location_joins_root_and_path() {
    assert_eq!(
        NetworkInfo::location(&Some("/target/".to_string()), "a.json"),
        "/target/mnt/config/a.json"
    );
    assert_eq!(NetworkInfo::location(&None, "/abs/a.json"), "/abs/a.json");
}

#[test]
fn loader_reads_the_bare_shape() {
    let info = NetworkInfo::new(&Some(liberty_document())).unwrap();
    assert_eq!(info.services.len(), 3);
    assert_eq!(info.networks.len(), 2);
    assert_eq!(info.links.len(), 2);
    assert_eq!(info.links[0].ethernet_mac_address, "BC:76:4E:20:5B:15");
    assert_eq!(info.links[0].mtu, 1500);
    assert_eq!(info.links[1].vif_id, "9f2bbb9b-4a3a-4f1c-a7e1-ff0e5c6c2b0a");
    assert_eq!(info.networks[0].network_id, "00000000-0000-0000-0000-000000000000");
    assert_eq!(info.networks[0].network_type, "ipv4");
    assert_eq!(info.networks[1].routes[0].gateway, "10.208.160.1");
    assert_eq!(info.networks[1].routes[0].netmask, "255.240.0.0");
    assert_eq!(info.services[1].service_type, "ntp");
}

#[test]
fn loader_falls_back_to_the_wrapped_shape() {
    let info = network_info_from_string(&vendor_document()).unwrap();
    assert_eq!(info.networks.len(), 2);
    assert_eq!(info.get_dns(), vec!["72.3.128.241".to_string(), "72.3.128.240".to_string()]);
}

#[test]
fn loader_reports_no_metadata() {
    assert!(NetworkInfo::new(&None).is_none());
    assert!(network_info_from_string("").is_none());
    assert!(network_info_from_string("{\"services\": []").is_none());
    assert!(network_info_from_string("{\"services\": [], \"networks\": []}").is_none());
    assert!(network_info_from_string("{\"network_info\": 3}").is_none());
    assert!(network_info_from_string("[1, 2]").is_none());
    assert!(network_info_from_string("{} trailing").is_none());
}

#[test]
fn loader_prefers_the_bare_shape() {
    let both = r#"{"services": [], "networks": [], "links": [],
        "network_info": {"services": [{"type": "dns", "address": "9.9.9.9"}], "networks": [], "links": []}}"#;
    let info = network_info_from_string(both).unwrap();
    assert_eq!(info.services.len(), 0);
}

#[test]
fn decoding_wants_every_member() {
    let value = parse(r#"{"netmask": "255.0.0.0", "network": "10.0.0.0"}"#).unwrap();
    assert!(Route::from_json(&value).is_none());
    let value = parse(r#"{"netmask": "255.0.0.0", "network": "10.0.0.0", "gateway": null}"#).unwrap();
    assert!(Route::from_json(&value).is_none());
    let value = parse(r#"{"netmask": "255.0.0.0", "network": "10.0.0.0", "gateway": 7}"#).unwrap();
    assert!(Route::from_json(&value).is_none());
    let value =
        parse(r#"{"netmask": "255.0.0.0", "network": "10.0.0.0", "gateway": "10.0.0.1", "x": 1}"#)
            .unwrap();
    let route = Route::from_json(&value).unwrap();
    assert_eq!(route.netmask, "255.0.0.0");
    assert_eq!(route.network, "10.0.0.0");
    assert_eq!(route.gateway, "10.0.0.1");
    let value = parse(r#"{"type": "dns"}"#).unwrap();
    assert!(Service::from_json(&value).is_none());
    assert!(Service::from_json(&JsonValue::Null).is_none());
    assert!(Network::from_json(&JsonValue::Array(vec![])).is_none());
}

#[test]
fn link_mtu_is_a_number_in_range() {
    let link = |mtu: &str| {
        let text = format!(
            r#"{{"ethernet_mac_address": "aa:bb", "mtu": {}, "id": "l", "vif_id": "v"}}"#,
            mtu
        );
        Link::from_json(&parse(&text).unwrap()).map(|l| l.mtu)
    };
    assert_eq!(link("1500"), Some(1500));
    assert_eq!(link("0"), Some(0));
    assert_eq!(link("-0"), Some(0));
    assert_eq!(link("65535"), Some(65535));
    assert_eq!(link("65536"), None);
    assert_eq!(link("-1"), None);
    assert_eq!(link("1500.0"), None);
    assert_eq!(link("1e3"), None);
    assert_eq!(link("null"), None);
    assert_eq!(link("true"), None);
    assert_eq!(link("\"9000\""), Some(9000));
    assert_eq!(link("\"+9000\""), Some(9000));
    assert_eq!(link("\"0065535\""), Some(65535));
    assert_eq!(link("\"65536\""), None);
    assert_eq!(link("\"-1\""), None);
    assert_eq!(link("\" 1\""), None);
    assert_eq!(link("\"90x\""), None);
    assert_eq!(link("\"\""), None);
}

#[test]
fn vendor_data_wraps_network_info() {
    let value = parse(&vendor_document()).unwrap();
    let data = VendorData::from_json(&value).unwrap();
    assert_eq!(data.network_info.links.len(), 2);
    assert!(NetworkInfo::decode(&value).is_none());
    assert!(VendorData::from_json(&parse(&liberty_document()).unwrap()).is_none());
    assert!(network_info_from_json(&value).is_some());
}

#[test]
fn parser_builds_values() {
    match parse(r#"{"b": [1, -2, 2.5, "x", true, null], "a": {"k": "v"}}"#).unwrap() {
        JsonValue::Object(members) => {
            assert_eq!(members.len(), 2);
            assert_eq!(members[0].0, "a");
            assert_eq!(members[1].0, "b");
            match &members[1].1 {
                JsonValue::Array(items) => {
                    assert_eq!(items.len(), 6);
                    assert!(matches!(items[0], JsonValue::Unsigned(1)));
                    assert!(matches!(items[1], JsonValue::Signed(-2)));
                    assert!(matches!(items[2], JsonValue::Float));
                    assert!(matches!(&items[3], JsonValue::Text(s) if s == "x"));
                    assert!(matches!(items[4], JsonValue::Boolean(true)));
                    assert!(matches!(items[5], JsonValue::Null));
                }
                _ => panic!("not an array"),
            }
            match &members[0].1 {
                JsonValue::Object(inner) => {
                    assert_eq!(inner.len(), 1);
                    assert!(matches!(&inner[0].1, JsonValue::Text(s) if s == "v"));
                }
                _ => panic!("not an object"),
            }
        }
        _ => panic!("not an object"),
    }
    assert!(parse("{\"a\": }").is_none());
    assert!(parse("").is_none());
}

#[test]
fn parser_finds_members() {
    let value = parse(r#"{"name": "eth0", "list": [1], "n": 3}"#).unwrap();
    assert!(matches!(value.find("n"), Some(JsonValue::Unsigned(3))));
    assert!(value.find("missing").is_none());
    assert_eq!(value.find_text("name"), Some(&"eth0".to_string()));
    assert!(value.find_text("n").is_none());
    assert_eq!(value.find_array("list").map(|a| a.len()), Some(1));
    assert!(value.find_array("name").is_none());
    assert!(JsonValue::Text("x".to_string()).find("name").is_none());
}

#[test]
fn parser_refuses_long_exponents() {
    assert!(check_limits("{\"a\": 1e5}"));
    assert!(check_limits("1E+123456789"));
    assert!(!check_limits("1e1234567890"));
    assert!(!check_limits("1E-0000000000"));
    assert!(check_limits("\"e1234567890123\""));
    assert!(check_limits("\"a\\\"e1234567890123\""));
    assert!(!check_limits("\"a\\\\\"e1234567890123"));
    assert!(check_limits("{\"id\": \"abcde123456789012\", \"n\": 12345678901234}"));
    assert!(parse("1e1234567890").is_none());
    assert!(matches!(parse("1e2"), Some(JsonValue::Float)));
    assert!(matches!(parse("\"1e1234567890\""), Some(JsonValue::Text(_))));
}

#[test]
fn file_name_tells_the_shape() {
    let info = get_network_info("network_info.json", &liberty_document()).unwrap().unwrap();
    assert_eq!(info.links.len(), 2);
    let info = get_network_info("vendor_data.json", &vendor_document()).unwrap().unwrap();
    assert_eq!(info.networks.len(), 2);
    assert_eq!(
        get_network_info("vendor_data.json", &liberty_document()).err(),
        Some(LoadError::NotVendorData)
    );
    assert_eq!(
        get_network_info("network_info.json", &vendor_document()).err(),
        Some(LoadError::NotNetworkInfo)
    );
    assert_eq!(get_network_info("network_info.json", "{").err(), Some(LoadError::NotNetworkInfo));
    assert_eq!(get_network_info("vendor_data.json", "").err(), Some(LoadError::NotVendorData));
    assert!(get_network_info("meta_data.json", &liberty_document()).unwrap().is_none());
    assert!(get_network_info("Network_info.json", "{").unwrap().is_none());
}

#[test]
fn parser_refuses_deep_nesting() {
    let nested = |depth: usize| format!("{}{}", "[".repeat(depth), "]".repeat(depth));
    assert!(check_limits(&nested(128)));
    assert!(!check_limits(&nested(129)));
    assert!(check_limits(&format!("[{}]", "[{\"a\": [1, 2]}],".repeat(500) + "0")));
    assert!(check_limits(&format!("[\"{}\"]", "[".repeat(300))));
    assert!(parse(&nested(128)).is_some());
    assert!(parse(&nested(129)).is_none());
    let mut value = parse(&nested(3)).unwrap();
    let mut depth = 0;
    while let JsonValue::Array(mut items) = value {
        depth += 1;
        match items.pop() {
            Some(inner) => value = inner,
            None => break,
        }
    }
    assert_eq!(depth, 3);
}

#[test]
fn lexer_follows_strings_and_levels() {
    let mut lexer = Lexer::start();
    for byte in "{\"k\\\"}\": [1e".bytes() {
        lexer = lexer.step(byte);
    }
    assert!(!lexer.in_string);
    assert!(lexer.in_exponent);
    assert_eq!(lexer.depth, 2);
    assert_eq!(lexer.literal, 4);
    assert_eq!(lexer.digits, 0);
    lexer = lexer.step(b'-').step(b'4').step(b'2');
    assert_eq!(lexer.digits, 2);
    lexer = lexer.step(b']');
    assert_eq!(lexer.depth, 1);
    assert!(!lexer.in_exponent);
    lexer = lexer.step(b'}').step(b'}');
    assert_eq!(lexer.depth, 0);
    assert!(!lexer.refused);
}

#[test]
fn parser_refuses_long_keys() {
    let key = |n: usize| "a".repeat(n);
    assert!(check_limits(&format!("{{\"{}\": 1}}", key(511))));
    assert!(!check_limits(&format!("{{\"{}\": 1}}", key(512))));
    assert!(!check_limits(&format!("{{\"{}\" \n : 1}}", key(512))));
    assert!(check_limits(&format!("{{\"k\": \"{}\"}}", key(70000))));
    assert!(check_limits(&format!("[\"{}\", {{\"k\": 1}}]", key(70000))));
    assert!(!check_limits(&format!(
        "{{\"{}\": {{\"{}\": 1}}}}",
        key(40000),
        "b".repeat(30000)
    )));
    assert!(!check_limits(&format!("{{\"\u{e9}{}\": 1}}", key(65535))));
    assert!(check_limits(&format!("{{\"{}\\\"\": 1}}", key(509))));
    assert!(!check_limits(&format!("{{\"{}\\\"\": 1}}", key(510))));
    assert!(parse(&format!("{{\"{}\": 1}}", key(512))).is_none());
    match parse(&format!("{{\"{}\": \"{}\"}}", key(511), key(70000))) {
        Some(JsonValue::Object(members)) => {
            assert_eq!(members[0].0.len(), 511);
            assert!(matches!(&members[0].1, JsonValue::Text(s) if s.len() == 70000));
        }
        _ => panic!("not an object"),
    }
    let mut nested = String::new();
    for _ in 0..128 {
        nested.push_str(&format!("{{\"{}\":", key(511)));
    }
    nested.push_str("1");
    nested.push_str(&"}".repeat(128));
    assert!(check_limits(&nested));
    assert!(parse(&nested).is_some());
}
