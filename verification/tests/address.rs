use zhuge_netdiag::addr::{join, parse, Ipv4Addr};

#[test]
fn dotted_form_is_read_back() {
    for x in [
        Ipv4Addr::new(192, 168, 1, 254),
        Ipv4Addr::new(0, 0, 0, 0),
        Ipv4Addr::new(255, 255, 255, 255),
        Ipv4Addr::new(8, 8, 8, 8),
        Ipv4Addr::new(100, 10, 1, 99),
    ] {
        assert_eq!(parse(x.to_text().as_str()), Some(x));
    }
    assert_eq!(Ipv4Addr::new(192, 168, 1, 254).to_text(), "192.168.1.254");
}

#[test]
fn only_four_plain_octets_are_an_address() {
    for t in [
        "", "1.2.3", "1.2.3.4.5", "1.2.3.", ".1.2.3", "01.2.3.4", "1.2.3.00", "256.1.1.1",
        "1.2.3.1000", "1.2.3.4 ", " 1.2.3.4", "1,2,3,4", "www.baidu.com", "+1.2.3.4", "1..2.3",
        "１.2.3.4",
    ] {
        assert_eq!(parse(t), None, "{}", t);
    }
}

#[test]
fn local_addresses_are_told_from_public_ones() {
    for (t, local) in [
        ("10.0.0.1", true),
        ("172.16.0.1", true),
        ("172.31.255.255", true),
        ("172.15.0.1", false),
        ("172.32.0.1", false),
        ("192.168.255.1", true),
        ("192.169.0.1", false),
        ("127.0.0.1", true),
        ("169.254.3.4", true),
        ("169.253.3.4", false),
        ("223.5.5.5", false),
        ("100.64.0.1", false),
    ] {
        assert_eq!(parse(t).unwrap().is_local(), local, "{}", t);
    }
}

#[test]
fn addresses_are_joined() {
    let list = vec![Ipv4Addr::new(1, 2, 3, 4), Ipv4Addr::new(5, 6, 7, 8), Ipv4Addr::new(9, 9, 9, 9)];
    assert_eq!(join(&list, ", "), "1.2.3.4, 5.6.7.8, 9.9.9.9");
    assert_eq!(join(&vec![list[0]], ", "), "1.2.3.4");
    assert_eq!(join(&vec![], ", "), "");
}

#[test]
fn numbers_order_as_addresses_do() {
    assert_eq!(Ipv4Addr::new(1, 2, 3, 4).to_number(), 0x01020304);
    assert!(Ipv4Addr::new(9, 255, 255, 255).to_number() < Ipv4Addr::new(10, 0, 0, 0).to_number());
}
