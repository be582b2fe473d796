use zhuge_netdiag::addr::{IpAddr, Ipv4Addr};
use zhuge_netdiag::env::{enumerate, pick_primary, LinkKind, RawAdapter};

fn raw(name: &str, kind: LinkKind, up: bool, address: Option<u8>, gateways: &[u8]) -> RawAdapter {
    RawAdapter {
        name: name.to_string(),
        friendly: String::new(),
        description: String::new(),
        kind,
        up,
        addresses: address.map(|d| IpAddr::V4(Ipv4Addr::new(10, 0, 0, d))).into_iter().collect(),
        prefixes: vec![],
        gateways: gateways.iter().map(|d| IpAddr::V4(Ipv4Addr::new(10, 0, 0, *d))).collect(),
        dns_servers: vec![],
    }
}

#[test]
fn an_adapter_is_described() {
    let x = Ipv4Addr::new(192, 168, 1, 5);
    let a = RawAdapter {
        name: "{GUID}".to_string(),
        friendly: "WLAN".to_string(),
        description: "Intel".to_string(),
        kind: LinkKind::Wifi,
        up: true,
        addresses: vec![IpAddr::V6, IpAddr::V4(x), IpAddr::V4(Ipv4Addr::new(1, 1, 1, 1))],
        prefixes: vec![
            (IpAddr::V6, 64),
            (IpAddr::V4(Ipv4Addr::new(192, 168, 1, 0)), 24),
            (IpAddr::V4(x), 32),
            (IpAddr::V4(x), 16),
        ],
        gateways: vec![IpAddr::V6, IpAddr::V4(Ipv4Addr::new(192, 168, 1, 1))],
        dns_servers: vec![IpAddr::V4(Ipv4Addr::new(223, 5, 5, 5)), IpAddr::V6],
    };
    let v = enumerate(&vec![a]);
    assert_eq!(v.len(), 1);
    assert_eq!(v[0].name, "{GUID}");
    assert_eq!(v[0].friendly_name(), "WLAN");
    assert_eq!(v[0].description, "Intel");
    assert_eq!(v[0].kind, "Wi-Fi");
    assert!(v[0].up);
    assert_eq!(v[0].ipv4, Some((x, 32)));
    assert_eq!(v[0].gateways, vec![Ipv4Addr::new(192, 168, 1, 1)]);
    assert_eq!(v[0].dns_servers, vec![Ipv4Addr::new(223, 5, 5, 5)]);
}

#[test]
fn a_prefix_that_is_not_known_counts_as_24() {
    let v = enumerate(&vec![raw("a", LinkKind::Ethernet, true, Some(5), &[])]);
    assert_eq!(v[0].ipv4, Some((Ipv4Addr::new(10, 0, 0, 5), 24)));
    let mut odd = raw("b", LinkKind::Ethernet, true, Some(5), &[]);
    odd.prefixes = vec![(IpAddr::V4(Ipv4Addr::new(10, 0, 0, 5)), 0x120)];
    assert_eq!(enumerate(&vec![odd])[0].ipv4, Some((Ipv4Addr::new(10, 0, 0, 5), 0x20)));
}

#[test]
fn kinds_have_names() {
    for (kind, name) in [
        (LinkKind::Ethernet, "以太网"),
        (LinkKind::Wifi, "Wi-Fi"),
        (LinkKind::Ppp, "PPP 拨号"),
        (LinkKind::Tunnel, "隧道"),
        (LinkKind::Other("Slip".to_string()), "Slip"),
    ] {
        assert_eq!(enumerate(&vec![raw("a", kind, true, None, &[])])[0].kind, name);
    }
}

#[test]
fn a_name_stands_in_for_a_missing_friendly_one() {
    let v = enumerate(&vec![raw("eth0", LinkKind::Ethernet, true, None, &[])]);
    assert_eq!(v[0].friendly_name(), "eth0");
}

#[test]
fn loopback_is_left_out_and_the_important_adapters_come_first() {
    let v = enumerate(&vec![
        raw("down", LinkKind::Ethernet, false, Some(1), &[1, 2]),
        raw("lo", LinkKind::Loopback, true, Some(2), &[1]),
        raw("bare", LinkKind::Ethernet, true, None, &[1]),
        raw("first", LinkKind::Wifi, true, Some(3), &[1]),
        raw("second", LinkKind::Wifi, true, Some(4), &[1]),
        raw("lonely", LinkKind::Wifi, true, Some(5), &[]),
        raw("rich", LinkKind::Ethernet, true, Some(6), &[1, 2]),
        raw("off", LinkKind::Ethernet, false, None, &[]),
    ]);
    let names: Vec<&str> = v.iter().map(|a| a.name.as_str()).collect();
    assert_eq!(names, vec!["rich", "first", "second", "lonely", "bare", "down", "off"]);
}

#[test]
fn the_adapter_in_use_has_a_gateway_where_one_has() {
    let v = enumerate(&vec![
        raw("lonely", LinkKind::Wifi, true, Some(5), &[]),
        raw("down", LinkKind::Ethernet, false, Some(1), &[1, 2]),
        raw("good", LinkKind::Ethernet, true, Some(6), &[1]),
    ]);
    assert_eq!(pick_primary(&v).map(|a| a.name.as_str()), Some("good"));
    let v = enumerate(&vec![
        raw("down", LinkKind::Ethernet, false, Some(1), &[1, 2]),
        raw("bare", LinkKind::Ethernet, true, None, &[1]),
        raw("lonely", LinkKind::Wifi, true, Some(5), &[]),
    ]);
    assert_eq!(pick_primary(&v).map(|a| a.name.as_str()), Some("lonely"));
    let v = enumerate(&vec![raw("bare", LinkKind::Ethernet, true, None, &[1])]);
    assert!(pick_primary(&v).is_none());
    assert!(pick_primary(&[]).is_none());
}

#[test]
fn an_address_is_enough_where_no_adapter_is_connected_with_one() {
    let v = enumerate(&vec![raw("a", LinkKind::Ethernet, false, Some(2), &[])]);
    assert_eq!(pick_primary(&v).map(|a| a.name.as_str()), Some("a"));
    let v = enumerate(&vec![
        raw("bare", LinkKind::Ethernet, true, None, &[1]),
        raw("off", LinkKind::Wifi, false, Some(3), &[1]),
        raw("off too", LinkKind::Wifi, false, Some(4), &[1]),
    ]);
    assert_eq!(pick_primary(&v).map(|a| a.name.as_str()), Some("off"));
    let v = enumerate(&vec![
        raw("off", LinkKind::Wifi, false, Some(3), &[1]),
        raw("on", LinkKind::Wifi, true, Some(4), &[]),
    ]);
    assert_eq!(pick_primary(&v).map(|a| a.name.as_str()), Some("on"));
}
