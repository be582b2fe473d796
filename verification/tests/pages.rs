use zhuge_netdiag::addr::Ipv4Addr;
use zhuge_netdiag::http::{body_of, endpoints, http_check, read_response, request, Fetch, HttpResult};

fn result(status: Option<u16>) -> HttpResult {
    HttpResult {
        host: "h".to_string(),
        connected: true,
        status_code: status,
        elapsed_ms: 1,
        note: String::new(),
    }
}

#[test]
fn success_and_redirection_are_good() {
    for (status, ok) in [
        (None, false),
        (Some(0), false),
        (Some(199), false),
        (Some(200), true),
        (Some(204), true),
        (Some(302), true),
        (Some(399), true),
        (Some(400), false),
        (Some(503), false),
        (Some(65535), false),
    ] {
        assert_eq!(result(status).ok(), ok);
    }
}

#[test]
fn a_request_has_the_form_of_the_protocol() {
    assert_eq!(
        request("captive.apple.com", "/hotspot-detect.html"),
        "GET /hotspot-detect.html HTTP/1.1\r\nHost: captive.apple.com\r\nUser-Agent: zhuge-netdiag\r\nAccept: */*\r\nConnection: close\r\n\r\n"
    );
}

#[test]
fn the_known_pages_come_before_the_target() {
    let v = endpoints("223.5.5.5", false);
    let hosts: Vec<&str> = v.iter().map(|e| e.host.as_str()).collect();
    assert_eq!(
        hosts,
        vec!["www.msftconnecttest.com", "captive.apple.com", "detectportal.firefox.com"]
    );
    assert_eq!(v[0].path, "/connect.txt");
    assert_eq!(v[0].expect, "Microsoft Connect Test");
    assert_eq!(v[1].path, "/hotspot-detect.html");
    assert_eq!(v[1].expect, "Success");
    assert_eq!(v[2].path, "/success.txt");
    assert_eq!(v[2].expect, "success");
    let w = endpoints("www.baidu.com", true);
    assert_eq!(w.len(), 4);
    assert_eq!(w[3].host, "www.baidu.com");
    assert_eq!(w[3].path, "/");
    assert_eq!(w[3].expect, "");
}

#[test]
fn a_response_is_read() {
    let (code, note) = read_response("HTTP/1.1 200 OK\r\n\r\nMicrosoft Connect Test", "Connect");
    assert_eq!(code, Some(200));
    assert_eq!(note, "");
    let (code, note) = read_response("HTTP/1.0 302 Found\r\n\r\nlogin", "Success");
    assert_eq!(code, Some(302));
    assert_eq!(note, "响应内容与预期不符，可能被重定向到 Web 认证页（强制门户）或被代理劫持");
    let (code, note) = read_response("HTTP/1.1 404 x", "");
    assert_eq!(code, Some(404));
    assert_eq!(note, "");
    assert_eq!(read_response("garbage", "").0, None);
    assert_eq!(read_response("HTTP/1.1 abc", "").0, None);
    assert_eq!(read_response("HTTP/1.1 65536 x", "").0, None);
    assert_eq!(read_response("", "").0, None);
}

#[test]
fn what_is_expected_is_looked_for_in_the_body_alone() {
    let portal = "HTTP/1.1 302 Found\r\nLocation: http://portal/?next=success\r\n\r\nlogin";
    let wrong = "响应内容与预期不符，可能被重定向到 Web 认证页（强制门户）或被代理劫持";
    assert_eq!(read_response(portal, "success"), (Some(302), wrong.to_string()));
    let r = http_check("h", "success", Fetch::Received(portal.as_bytes().to_vec()), 7);
    assert_eq!(r.status_code, Some(302));
    assert_eq!(r.note, wrong);
    assert_eq!(read_response(portal, "login").1, "");
    assert_eq!(read_response(portal, "").1, "");
    assert_eq!(read_response("HTTP/1.1 200 OK\r\nX: success\r\n", "success").1, wrong);
}

#[test]
fn the_body_stands_behind_the_first_empty_line() {
    for (response, body) in [
        ("a\r\nb\r\n\r\nc\r\n\r\nd", "c\r\n\r\nd"),
        ("a\n\nb", "b"),
        ("a\n\r\nb", "b"),
        ("a\r\n\nb", "b"),
        ("a\n\n", ""),
        ("a\r\nb", ""),
        ("\nb", ""),
        ("a\r\r\nb", ""),
        ("a\n\rb\n\n中", "中"),
        ("a\n", ""),
        ("a\n\r", ""),
        ("", ""),
    ] {
        assert_eq!(body_of(response), body, "{:?}", response);
    }
}

#[test]
fn a_page_that_came_is_told() {
    let b = b"HTTP/1.1 200 OK\r\nContent-Length: 8\r\n\r\nsuccess\n".to_vec();
    let r = http_check("detectportal.firefox.com", "success", Fetch::Received(b), 35);
    assert_eq!(r.host, "detectportal.firefox.com");
    assert!(r.connected);
    assert_eq!(r.status_code, Some(200));
    assert_eq!(r.elapsed_ms, 35);
    assert_eq!(r.note, "");
    assert!(r.ok());
}

#[test]
fn bytes_that_are_no_text_are_replaced() {
    let mut b = b"HTTP/1.1 200 OK\r\n\r\n".to_vec();
    b.extend_from_slice(&[0xff, 0xfe, b'o', b'k']);
    let r = http_check("h", "\u{fffd}\u{fffd}ok", Fetch::Received(b), 1);
    assert_eq!(r.status_code, Some(200));
    assert_eq!(r.note, "");
    let r = http_check("h", "中文", Fetch::Received("HTTP/1.1 200 OK\n\n中文".as_bytes().to_vec()), 1);
    assert_eq!(r.note, "");
}

#[test]
fn a_page_that_did_not_come_says_why() {
    let addr = Ipv4Addr::new(1, 2, 3, 4);
    for (x, connected, elapsed, note) in [
        (Fetch::Unresolved("没有".to_string()), false, 0, "域名解析失败: 没有"),
        (Fetch::NoAddress, false, 0, "域名解析无 IPv4 结果"),
        (Fetch::NotConnected(addr, "拒".to_string()), false, 0, "TCP 连接 1.2.3.4:80 失败: 拒"),
        (Fetch::NotSent("断".to_string()), true, 44, "发送 HTTP 请求失败: 断"),
        (Fetch::NotRead("断".to_string()), true, 44, "读取响应失败: 断"),
        (Fetch::Received(vec![]), true, 44, "收到空响应"),
    ] {
        let r = http_check("h", "e", x, 44);
        assert_eq!(r.connected, connected);
        assert_eq!(r.elapsed_ms, elapsed);
        assert_eq!(r.note, note);
        assert_eq!(r.status_code, None);
        assert!(!r.ok());
    }
}
