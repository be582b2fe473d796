use zhuge_netdiag::addr::Ipv4Addr;
use zhuge_netdiag::arp::probe;
use zhuge_netdiag::icmp::{
    after_send, after_wait, read_reply, status_desc, EchoStep, Reply, IP_BAD_ROUTE,
    IP_DEST_HOST_UNREACHABLE, IP_DEST_NET_UNREACHABLE, IP_DEST_PORT_UNREACHABLE,
    IP_DEST_PROT_UNREACHABLE, IP_PACKET_TOO_BIG, IP_REQ_TIMED_OUT, IP_SUCCESS,
    IP_TTL_EXPIRED_REASSEM, IP_TTL_EXPIRED_TRANSIT,
};

#[test]
fn every_status_has_its_words() {
    for (status, words) in [
        (IP_SUCCESS, "到达目标"),
        (IP_DEST_NET_UNREACHABLE, "目标网络不可达"),
        (IP_DEST_HOST_UNREACHABLE, "目标主机不可达"),
        (IP_DEST_PROT_UNREACHABLE, "协议不可达"),
        (IP_DEST_PORT_UNREACHABLE, "端口不可达"),
        (IP_PACKET_TOO_BIG, "报文过大需要分片"),
        (IP_REQ_TIMED_OUT, "请求超时"),
        (IP_BAD_ROUTE, "路由错误"),
        (IP_TTL_EXPIRED_TRANSIT, "TTL 在传输中过期（中间节点应答）"),
        (IP_TTL_EXPIRED_REASSEM, "TTL 在重组中过期"),
        (11050, "其它 ICMP 状态"),
        (1, "其它 ICMP 状态"),
    ] {
        assert_eq!(status_desc(status), words);
    }
    assert_eq!(IP_TTL_EXPIRED_TRANSIT, 11013);
    assert_eq!(IP_REQ_TIMED_OUT, 11010);
}

#[test]
fn a_record_is_read_from_the_buffer() {
    let mut buf = vec![0u8; 40];
    buf[0..4].copy_from_slice(&11013u32.to_le_bytes());
    buf[4..8].copy_from_slice(&[10, 0, 0, 138]);
    buf[8..12].copy_from_slice(&1234u32.to_le_bytes());
    let r = read_reply(&buf, 40);
    assert_eq!(r.status, IP_TTL_EXPIRED_TRANSIT);
    assert_eq!(r.responder, Ipv4Addr::new(10, 0, 0, 138));
    assert_eq!(r.rtt_ms, 1234);
    assert!(!r.timed_out);
    assert!(r.is_hop_reply());
}

#[test]
fn a_short_buffer_holds_no_record() {
    assert_eq!(read_reply(&[0u8; 39], 40), Reply::timeout());
    let r = Reply::timeout();
    assert_eq!(r.status, IP_REQ_TIMED_OUT);
    assert_eq!(r.responder, Ipv4Addr::new(0, 0, 0, 0));
    assert_eq!(r.rtt_ms, 0);
    assert!(r.timed_out);
    assert!(!r.is_hop_reply());
}

#[test]
fn an_echo_request_is_followed_up() {
    assert_eq!(after_send(1, 0), EchoStep::Read);
    assert_eq!(after_send(2, 997), EchoStep::Read);
    assert_eq!(after_send(0, 997), EchoStep::Wait);
    assert_eq!(after_send(0, 1460), EchoStep::GiveUp);
    assert_eq!(after_send(0, 0), EchoStep::GiveUp);
    assert_eq!(after_wait(0), EchoStep::Read);
    assert_eq!(after_wait(0x102), EchoStep::GiveUp);
}

#[test]
fn a_hardware_address_is_written_in_hexadecimal() {
    let mac = [0xaa, 0x0b, 0xcc, 0x01, 0xf0, 0x9e, 0x77, 0x00];
    assert_eq!(probe(0, 6, &mac), (true, Some("AA-0B-CC-01-F0-9E".to_string())));
    assert_eq!(probe(0, 8, &mac), (true, Some("AA-0B-CC-01-F0-9E-77-00".to_string())));
}

#[test]
fn a_failed_or_short_answer_is_no_neighbour() {
    let mac = [0u8; 8];
    assert_eq!(probe(31, 6, &mac), (false, None));
    assert_eq!(probe(0, 5, &mac), (false, None));
    assert_eq!(probe(67, 100, &mac), (false, None));
}
