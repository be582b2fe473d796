use zhuge_netdiag::addr::Ipv4Addr;
use zhuge_netdiag::binary64::Binary64;
use zhuge_netdiag::route::{analyze_route, is_countable, seg_label, RouteVerdict, Segment};
use zhuge_netdiag::trace::HopStat;

fn target() -> Ipv4Addr {
    Ipv4Addr::new(223, 5, 5, 5)
}

fn hop(ttl: u8, ip: Option<Ipv4Addr>, sent: u32, received: u32, avg: u64) -> HopStat {
    HopStat {
        ttl,
        responder: ip,
        responders: ip.into_iter().collect(),
        sent,
        received,
        min_ms: avg as u32,
        max_ms: avg as u32,
        avg_ms: Binary64::from_integer(avg),
        reached_dest: 0,
    }
}

fn public(d: u8) -> Option<Ipv4Addr> {
    Some(Ipv4Addr::new(60, 1, 1, d))
}

fn home() -> Option<Ipv4Addr> {
    Some(Ipv4Addr::new(192, 168, 1, 1))
}

fn clean(v: RouteVerdict) -> String {
    match v {
        RouteVerdict::Clean(m) => m,
        other => panic!("{:?}", other),
    }
}

fn bottleneck(v: RouteVerdict) -> (String, String) {
    match v {
        RouteVerdict::Bottleneck { msg, suggestion } => (msg, suggestion),
        other => panic!("{:?}", other),
    }
}

fn broken(v: RouteVerdict) -> (String, String) {
    match v {
        RouteVerdict::Unreachable { msg, suggestion } => (msg, suggestion),
        other => panic!("{:?}", other),
    }
}

#[test]
fn a_hop_belongs_to_a_part_of_the_network() {
    assert_eq!(seg_label(Ipv4Addr::new(60, 1, 1, 1), 0, 5), Segment::Local);
    assert_eq!(seg_label(Ipv4Addr::new(10, 1, 1, 1), 3, 5), Segment::Local);
    assert_eq!(seg_label(Ipv4Addr::new(60, 1, 1, 1), 4, 5), Segment::TargetSide);
    assert_eq!(seg_label(Ipv4Addr::new(60, 1, 1, 1), 3, 5), Segment::Carrier);
    assert_eq!(Segment::Local.name(), "本地网络段");
    assert_eq!(Segment::TargetSide.name(), "目标侧");
    assert_eq!(Segment::Carrier.name(), "运营商网络");
}

#[test]
fn a_route_without_hops_is_broken_unless_the_network_is_known_to_work() {
    assert_eq!(
        clean(analyze_route(&[], false, target(), true)),
        "ICMP 被屏蔽，逐跳探测无数据，但 TCP / HTTP / DNS 验证链路实际可达"
    );
    assert_eq!(
        broken(analyze_route(&[], true, target(), false)),
        (
            "逐跳探测没有任何数据，目标 223.5.5.5 不可达".to_string(),
            "检查本机出站流量是否被防火墙整体拦截".to_string()
        )
    );
}

#[test]
fn a_route_breaks_behind_the_last_hop_that_answers() {
    let hops = vec![
        hop(1, home(), 4, 4, 1),
        hop(2, public(2), 4, 2, 9),
        hop(3, None, 4, 0, 0),
        hop(4, None, 4, 0, 0),
    ];
    assert_eq!(
        broken(analyze_route(&hops, false, target(), false)),
        (
            "到目标 223.5.5.5 的链路在第 3 跳之后中断，最后可达节点为第 2 跳 60.1.1.2（运营商网络）".to_string(),
            "断点在运营商网络内，建议联系运营商报修并附上本报告".to_string()
        )
    );
    assert_eq!(
        broken(analyze_route(&hops[..1], false, target(), false)),
        (
            "到目标 223.5.5.5 的链路在第 2 跳之后中断，最后可达节点为第 1 跳 192.168.1.1（本地网络段）".to_string(),
            "断点在本地网络段，检查本机路由器 / 上级路由的配置与连线".to_string()
        )
    );
    assert_eq!(
        broken(analyze_route(&hops[2..], false, target(), false)),
        (
            "链路从第 1 跳起即中断，没有任何中间节点应答".to_string(),
            "若网关 ping 正常，问题在网关之后（运营商侧或上级路由）；请联系运营商报修".to_string()
        )
    );
}

#[test]
fn a_silent_target_is_no_break_where_the_network_is_known_to_work() {
    let silent = vec![hop(1, None, 4, 0, 0), hop(2, None, 4, 0, 0)];
    assert_eq!(
        clean(analyze_route(&silent, false, target(), true)),
        "ICMP 被屏蔽，逐跳探测无任何节点应答，但 TCP / HTTP / DNS 验证链路实际可达"
    );
    let some = vec![hop(1, home(), 4, 4, 1), hop(2, None, 4, 0, 0)];
    assert_eq!(
        clean(analyze_route(&some, false, target(), true)),
        "目标 223.5.5.5 不回应 ICMP，但 TCP / HTTP / DNS 验证链路实际可达（中间部分节点也不回 ICMP）"
    );
}

#[test]
fn a_good_route_is_clean() {
    let hops = vec![
        hop(1, home(), 10, 10, 1),
        hop(2, None, 10, 0, 0),
        hop(3, public(3), 10, 9, 80),
        hop(4, Some(target()), 10, 10, 12),
    ];
    assert_eq!(
        clean(analyze_route(&hops, true, target(), false)),
        "到目标的 4 跳链路未见明显丢包或时延突增，全程平均时延 12ms"
    );
}

#[test]
fn loss_may_be_a_limit_where_the_hops_behind_are_steady() {
    let hops = vec![
        hop(1, home(), 10, 10, 1),
        hop(2, public(2), 10, 7, 5),
        hop(3, Some(target()), 20, 19, 6),
    ];
    assert_eq!(
        bottleneck(analyze_route(&hops, true, target(), false)),
        (
            "第 2 跳 60.1.1.2（运营商网络）丢包 30%（其后节点正常，也可能是该节点限速 ICMP）".to_string(),
            "问题在运营商网络内，本地链路正常，建议向运营商报修并附上本报告".to_string()
        )
    );
}

#[test]
fn heavy_loss_or_loss_that_goes_on_is_no_limit() {
    let hops = vec![hop(1, home(), 10, 5, 1), hop(2, Some(target()), 10, 10, 6)];
    assert_eq!(
        bottleneck(analyze_route(&hops, true, target(), false)),
        (
            "第 1 跳 192.168.1.1（本地网络段）丢包 50%".to_string(),
            "问题在本地网络（本机、Wi-Fi、路由器或内网设备），建议重启路由器、改用有线或排除内网高流量设备".to_string()
        )
    );
    let hops = vec![
        hop(1, home(), 10, 10, 1),
        hop(2, public(2), 10, 8, 5),
        hop(3, public(3), 10, 9, 5),
        hop(4, Some(target()), 10, 10, 6),
    ];
    assert_eq!(
        bottleneck(analyze_route(&hops, true, target(), false)).0,
        "第 2 跳 60.1.1.2（运营商网络）丢包 20%"
    );
}

#[test]
fn a_sharp_rise_is_a_bottleneck() {
    let hops = vec![
        hop(1, home(), 10, 10, 2),
        hop(2, public(2), 10, 10, 20),
        hop(3, Some(target()), 10, 10, 60),
    ];
    assert_eq!(
        bottleneck(analyze_route(&hops, true, target(), false)),
        (
            "第 3 跳 223.5.5.5（目标侧）时延突增：第 2 跳 20ms → 第 3 跳 60ms".to_string(),
            "瓶颈靠近目标服务器一侧，可能是对方服务繁忙或其入口带宽不足，本地链路基本正常".to_string()
        )
    );
}

#[test]
fn a_rise_over_a_silent_hop_is_not_judged() {
    let hops = vec![
        hop(1, home(), 10, 10, 2),
        hop(2, None, 10, 0, 0),
        hop(3, Some(target()), 10, 10, 200),
    ];
    assert_eq!(
        clean(analyze_route(&hops, true, target(), false)),
        "到目标的 3 跳链路未见明显丢包或时延突增，全程平均时延 200ms"
    );
}

#[test]
fn the_first_hop_with_something_wrong_is_the_bottleneck() {
    let hops = vec![
        hop(1, home(), 10, 10, 2),
        hop(2, public(2), 10, 10, 100),
        hop(3, public(3), 10, 2, 100),
        hop(4, Some(target()), 10, 10, 300),
    ];
    assert_eq!(
        bottleneck(analyze_route(&hops, true, target(), false)).0,
        "第 2 跳 60.1.1.2（运营商网络）时延突增：第 1 跳 2ms → 第 2 跳 100ms"
    );
}

#[test]
fn the_hop_behind_the_largest_number_cannot_be_told() {
    let hops = vec![hop(255, home(), 4, 4, 1)];
    assert!(!is_countable(&hops, false, false));
    assert!(is_countable(&hops, true, false));
    assert!(is_countable(&hops, false, true));
    assert!(is_countable(&[hop(254, home(), 4, 4, 1), hop(255, None, 4, 0, 0)], false, false));
    assert!(is_countable(&[], false, false));
}
