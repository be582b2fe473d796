use zhuge_netdiag::addr::{IpAddr, Ipv4Addr};
use zhuge_netdiag::dns::{
    build_query, first_v4, parse_response, pick_v4, query, resolve_system, skip_name, Exchange,
    Resolution, QUERY_ID,
};

fn server() -> Ipv4Addr {
    Ipv4Addr::new(223, 5, 5, 5)
}

/// A response to the query for `domain` with these addresses, behind an alias.
fn response(domain: &str, list: &[[u8; 4]]) -> Vec<u8> {
    let mut m = build_query(QUERY_ID, domain);
    m[2] = 0x81;
    m[3] = 0x80;
    m[6] = 0;
    m[7] = list.len() as u8 + 1;
    m.extend_from_slice(&[0xc0, 0x0c, 0, 5, 0, 1, 0, 0, 0, 60, 0, 3, 1, b'x', 0]);
    for a in list {
        m.extend_from_slice(&[0xc0, 0x0c, 0, 1, 0, 1, 0, 0, 0, 60, 0, 4]);
        m.extend_from_slice(a);
    }
    m
}

#[test]
fn a_query_has_the_form_of_the_protocol() {
    let q = build_query(0x5a5a, "www.baidu.com");
    let mut expected = vec![0x5a, 0x5a, 0x01, 0x00, 0, 1, 0, 0, 0, 0, 0, 0];
    expected.extend_from_slice(b"\x03www\x05baidu\x03com\x00");
    expected.extend_from_slice(&[0, 1, 0, 1]);
    assert_eq!(q, expected);
}

#[test]
fn empty_labels_are_left_out_of_a_query() {
    assert_eq!(build_query(1, "a..b."), build_query(1, "a.b"));
    assert_eq!(build_query(1, ""), vec![0, 1, 1, 0, 0, 1, 0, 0, 0, 0, 0, 0, 0, 0, 1, 0, 1]);
}

#[test]
fn a_label_is_counted_in_bytes() {
    let q = build_query(1, "中.x");
    assert_eq!(&q[12..], b"\x03\xe4\xb8\xad\x01x\x00\x00\x01\x00\x01");
}

#[test]
fn the_name_of_a_query_is_skipped() {
    let q = build_query(7, "www.baidu.com");
    assert_eq!(skip_name(&q, 12), Ok(q.len() - 4));
    assert_eq!(skip_name(&[0xc0, 0x0c], 0), Ok(2));
    assert_eq!(skip_name(&[3, b'a', b'b'], 0), Err("名称字段越界".to_string()));
    assert_eq!(skip_name(&[], 0), Err("名称字段越界".to_string()));
}

#[test]
fn the_addresses_of_a_response_are_read_back() {
    let m = response("www.baidu.com", &[[1, 2, 3, 4], [110, 242, 68, 3]]);
    assert_eq!(
        parse_response(&m, QUERY_ID),
        Ok(vec![Ipv4Addr::new(1, 2, 3, 4), Ipv4Addr::new(110, 242, 68, 3)])
    );
}

#[test]
fn a_record_that_is_cut_off_ends_the_addresses() {
    let mut m = response("a.b", &[[1, 2, 3, 4], [5, 6, 7, 8]]);
    m.pop();
    assert_eq!(parse_response(&m, QUERY_ID), Ok(vec![Ipv4Addr::new(1, 2, 3, 4)]));
}

#[test]
fn every_fault_of_a_response_is_told() {
    let good = response("a.b", &[[1, 2, 3, 4]]);
    assert_eq!(parse_response(&good[..11], QUERY_ID), Err("应答报文过短".to_string()));
    assert_eq!(parse_response(&good, 1), Err("应答事务 ID 不匹配".to_string()));
    let query = build_query(QUERY_ID, "a.b");
    assert_eq!(parse_response(&query, QUERY_ID), Err("收到的不是应答报文".to_string()));
    let mut refused = good.clone();
    refused[3] = 0x83;
    assert_eq!(
        parse_response(&refused, QUERY_ID),
        Err("DNS 服务器返回错误码 3（3=域名不存在，5=拒绝）".to_string())
    );
    let mut cut = good.clone();
    cut.truncate(14);
    assert_eq!(parse_response(&cut, QUERY_ID), Err("名称字段越界".to_string()));
}

#[test]
fn a_query_with_an_answer_succeeds() {
    let r = query(
        server(),
        "a.b",
        "阿里 DNS",
        3000,
        Exchange::Received(response("a.b", &[[1, 2, 3, 4]])),
        12,
    );
    assert!(r.success);
    assert_eq!(r.server, server());
    assert_eq!(r.domain, "a.b");
    assert_eq!(r.label, "阿里 DNS");
    assert_eq!(r.answers, vec![Ipv4Addr::new(1, 2, 3, 4)]);
    assert_eq!(r.elapsed_ms, 12);
    assert_eq!(r.error, None);
}

#[test]
fn a_query_without_an_answer_says_why() {
    for (x, error, elapsed) in [
        (Exchange::NoSocket("坏".to_string()), "无法创建 UDP 套接字: 坏", 0),
        (Exchange::NotSent("断".to_string()), "发送查询失败: 断", 0),
        (Exchange::TimedOut, "查询超时（3000ms 无应答）", 9),
        (Exchange::NotReceived("错".to_string()), "接收应答失败: 错", 9),
        (Exchange::Received(vec![1, 2]), "应答报文过短", 9),
        (Exchange::Received(response("a.b", &[])), "服务器应答中没有 A 记录", 9),
    ] {
        let r = query(server(), "a.b", "x", 3000, x, 9);
        assert!(!r.success);
        assert_eq!(r.error, Some(error.to_string()));
        assert_eq!(r.elapsed_ms, elapsed);
        assert!(r.answers.is_empty());
    }
}

#[test]
fn the_resolver_of_the_system_is_judged_by_its_ipv4_addresses() {
    let a = Ipv4Addr::new(1, 1, 1, 1);
    let b = Ipv4Addr::new(2, 2, 2, 2);
    let mixed = vec![IpAddr::V6, IpAddr::V4(a), IpAddr::V6, IpAddr::V4(b)];
    assert_eq!(pick_v4(&mixed), vec![a, b]);
    assert_eq!(first_v4(&mixed), Some(a));
    assert_eq!(first_v4(&vec![IpAddr::V6]), None);
    assert_eq!(resolve_system(Resolution::Resolved(mixed), 5000), Ok(vec![a, b]));
    assert_eq!(
        resolve_system(Resolution::Resolved(vec![IpAddr::V6]), 5000),
        Err("系统解析未返回 IPv4 地址".to_string())
    );
    assert_eq!(
        resolve_system(Resolution::Failed("无".to_string()), 5000),
        Err("无".to_string())
    );
    assert_eq!(
        resolve_system(Resolution::TimedOut, 5000),
        Err("系统解析超时（5000ms）".to_string())
    );
}
