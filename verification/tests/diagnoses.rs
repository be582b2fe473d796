use zhuge_netdiag::addr::Ipv4Addr;
use zhuge_netdiag::binary64::Binary64;
use zhuge_netdiag::diagnose::{can_run, finding, run, Diagnosis, Inputs, Level};
use zhuge_netdiag::dns::DnsQueryResult;
use zhuge_netdiag::env::AdapterInfo;
use zhuge_netdiag::http::HttpResult;
use zhuge_netdiag::quality::QualityStats;
use zhuge_netdiag::trace::{HopStat, PingStats};

const CLEAR: &str = "未发现明显瓶颈：本机到公网链路各环节检查正常。若问题间歇性出现，建议在问题发生时重新诊断，或针对具体应用 / 目标再测一次。";

fn gw() -> Ipv4Addr {
    Ipv4Addr::new(192, 168, 1, 1)
}

fn target() -> Ipv4Addr {
    Ipv4Addr::new(223, 5, 5, 5)
}

fn adapter() -> AdapterInfo {
    AdapterInfo {
        name: "{GUID}".to_string(),
        friendly: "WLAN".to_string(),
        description: String::new(),
        kind: "Wi-Fi".to_string(),
        up: true,
        ipv4: Some((Ipv4Addr::new(192, 168, 1, 5), 24)),
        gateways: vec![gw()],
        dns_servers: vec![],
    }
}

fn pings(sent: u32, received: u32, avg: u64) -> PingStats {
    PingStats {
        sent,
        received,
        min_ms: avg as u32,
        max_ms: avg as u32,
        avg_ms: Binary64::from_integer(avg),
    }
}

fn samples(sent: u32, succeeded: u32, avg: u64) -> QualityStats {
    QualityStats {
        sent,
        succeeded,
        min_ms: avg,
        max_ms: avg,
        avg_ms: Binary64::from_integer(avg),
    }
}

fn answer(server: [u8; 4], label: &str, success: bool) -> DnsQueryResult {
    DnsQueryResult {
        server: Ipv4Addr::new(server[0], server[1], server[2], server[3]),
        domain: "www.baidu.com".to_string(),
        label: label.to_string(),
        success,
        answers: vec![],
        elapsed_ms: 5,
        error: None,
    }
}

fn page(status: Option<u16>, note: &str) -> HttpResult {
    HttpResult {
        host: "captive.apple.com".to_string(),
        connected: true,
        status_code: status,
        elapsed_ms: 40,
        note: note.to_string(),
    }
}

fn hop(ttl: u8, ip: Ipv4Addr, received: u32, avg: u64) -> HopStat {
    HopStat {
        ttl,
        responder: Some(ip),
        responders: vec![ip],
        sent: 10,
        received,
        min_ms: avg as u32,
        max_ms: avg as u32,
        avg_ms: Binary64::from_integer(avg),
        reached_dest: 0,
    }
}

/// Measurements that a test can change before they are judged.
struct Case {
    adapter: Option<AdapterInfo>,
    gateway_addr: Option<Ipv4Addr>,
    gateway: Option<PingStats>,
    arp: Option<bool>,
    publics: Vec<(Ipv4Addr, &'static str, PingStats)>,
    publics_quality: Vec<(Ipv4Addr, QualityStats)>,
    gateway_quality: Option<QualityStats>,
    target_quality: Option<QualityStats>,
    target_stats: Option<PingStats>,
    dns: Vec<DnsQueryResult>,
    system: Option<Vec<Ipv4Addr>>,
    hops: Vec<HopStat>,
    http: Option<HttpResult>,
}

/// A network where all is well.
fn healthy() -> Case {
    Case {
        adapter: Some(adapter()),
        gateway_addr: Some(gw()),
        gateway: Some(pings(8, 8, 2)),
        arp: Some(true),
        publics: vec![
            (target(), "阿里 DNS", pings(4, 4, 10)),
            (Ipv4Addr::new(119, 29, 29, 29), "DNSPod", pings(4, 4, 11)),
            (Ipv4Addr::new(8, 8, 8, 8), "Google DNS", pings(4, 4, 50)),
        ],
        publics_quality: vec![],
        gateway_quality: None,
        target_quality: Some(samples(20, 20, 12)),
        target_stats: Some(pings(4, 4, 10)),
        dns: vec![answer([223, 5, 5, 5], "阿里 DNS", true)],
        system: Some(vec![Ipv4Addr::new(110, 242, 68, 3), Ipv4Addr::new(110, 242, 68, 4)]),
        hops: vec![hop(1, gw(), 10, 2), hop(2, target(), 10, 10)],
        http: Some(page(Some(200), "")),
    }
}

/// A network where no ping is answered and nothing else works either.
fn dead() -> Case {
    Case {
        publics: vec![
            (target(), "阿里 DNS", pings(4, 0, 0)),
            (Ipv4Addr::new(8, 8, 8, 8), "Google DNS", pings(4, 0, 0)),
        ],
        publics_quality: vec![
            (target(), samples(4, 0, 0)),
            (Ipv4Addr::new(8, 8, 8, 8), samples(4, 0, 0)),
        ],
        target_quality: Some(samples(20, 0, 0)),
        target_stats: Some(pings(4, 0, 0)),
        dns: vec![answer([223, 5, 5, 5], "阿里 DNS", false)],
        system: None,
        hops: vec![],
        http: Some(page(None, "域名解析失败: 无")),
        ..healthy()
    }
}

fn inputs<'a>(c: &'a Case, adapters: &'a [AdapterInfo]) -> Inputs<'a> {
    Inputs {
        adapter: c.adapter.as_ref(),
        adapters,
        gateway_addr: c.gateway_addr,
        gateway: c.gateway.as_ref(),
        gateway_arp: c.arp,
        publics: &c.publics,
        publics_quality: &c.publics_quality,
        gateway_quality: c.gateway_quality.as_ref(),
        target_quality: c.target_quality.as_ref(),
        target: target(),
        target_stats: c.target_stats.as_ref(),
        dns: &c.dns,
        dns_domain: "www.baidu.com",
        system_dns: &c.system,
        hops: &c.hops,
        http: c.http.as_ref(),
    }
}

fn judge(c: &Case) -> Diagnosis {
    let adapters: Vec<AdapterInfo> = c.adapter.iter().cloned().collect();
    let inp = inputs(c, &adapters);
    assert!(can_run(&inp));
    run(&inp)
}

/// The findings as level, segment and detail.
fn told(d: &Diagnosis) -> Vec<(Level, &str, &str)> {
    d.findings.iter().map(|f| (f.level, f.segment.as_str(), f.detail.as_str())).collect()
}

fn levels(d: &Diagnosis) -> Vec<Level> {
    d.findings.iter().map(|f| f.level).collect()
}

fn of<'a>(d: &'a Diagnosis, segment: &str) -> Vec<(Level, &'a str)> {
    d.findings
        .iter()
        .filter(|f| f.segment == segment)
        .map(|f| (f.level, f.detail.as_str()))
        .collect()
}

#[test]
fn levels_have_marks() {
    assert_eq!(Level::Normal.tag(), "[正常]");
    assert_eq!(Level::Warn.tag(), "[注意]");
    assert_eq!(Level::Error.tag(), "[异常]");
}

#[test]
fn a_finding_is_made() {
    let f = finding(Level::Warn, "段", "细节".to_string(), Some("建议".to_string()));
    assert_eq!(f.level, Level::Warn);
    assert_eq!(f.segment, "段");
    assert_eq!(f.detail, "细节");
    assert_eq!(f.suggestion, Some("建议".to_string()));
    let d = Diagnosis::default();
    assert!(d.findings.is_empty());
    assert_eq!(d.conclusion, "");
}

#[test]
fn a_healthy_network_has_no_bottleneck() {
    let d = judge(&healthy());
    assert_eq!(
        told(&d),
        vec![
            (Level::Normal, "本机网络接口", "适配器 \"WLAN\"（Wi-Fi）已获得 IPv4 192.168.1.5/24"),
            (
                Level::Normal,
                "本机→网关",
                "网关 192.168.1.1 连通良好：收到 8/8 个应答，丢包 0.0%，平均 2.0ms（最小 2 / 最大 2ms）"
            ),
            (Level::Normal, "公网可达性", "全部 3 个公网地址可达"),
            (
                Level::Normal,
                "逐跳链路",
                "到目标的 2 跳链路未见明显丢包或时延突增，全程平均时延 10ms"
            ),
            (
                Level::Normal,
                "网络质量",
                "端到端 TCP 采样质量良好：丢包 0%，时延 12ms（本地段以 ICMP 统计为准）"
            ),
            (
                Level::Normal,
                "DNS 解析",
                "系统解析 www.baidu.com 正常（110.242.68.3, 110.242.68.4）"
            ),
            (Level::Normal, "应用层 HTTP", "访问 captive.apple.com 成功（HTTP 200），总耗时 40ms"),
        ]
    );
    assert_eq!(d.conclusion, CLEAR);
    assert!(d.findings.iter().all(|f| f.suggestion.is_none()));
}

#[test]
fn without_an_adapter_the_diagnosis_ends() {
    let d = judge(&Case { adapter: None, ..healthy() });
    assert_eq!(
        told(&d),
        vec![(Level::Error, "本机网络接口", "未找到处于工作状态、拥有 IPv4 地址的网络适配器")]
    );
    assert_eq!(d.conclusion, "瓶颈定位：本机网络接口层 —— 没有可用的网络连接，链路诊断无法继续。");
}

#[test]
fn what_is_read_must_add_up() {
    let adapters = vec![adapter()];
    let gateway = Case { gateway: Some(pings(1, 2, 2)), ..healthy() };
    assert!(!can_run(&inputs(&gateway, &adapters)));
    let target = Case { target_quality: Some(samples(1, 2, 2)), ..healthy() };
    assert!(!can_run(&inputs(&target, &adapters)));
    let mut route = healthy();
    route.hops[0].received = route.hops[0].sent + 1;
    assert!(!can_run(&inputs(&route, &adapters)));
}

#[test]
fn what_is_not_read_may_be_anything() {
    let odd = || Case {
        gateway: Some(pings(1, 2, 2)),
        gateway_quality: Some(samples(1, 2, 2)),
        target_quality: Some(samples(1, 2, 2)),
        ..healthy()
    };
    let d = judge(&Case { adapter: None, ..odd() });
    assert_eq!(levels(&d), vec![Level::Error]);
    let d = judge(&Case { gateway_addr: None, ..odd() });
    assert_eq!(levels(&d), vec![Level::Normal, Level::Error]);
    let d = judge(&Case {
        gateway_quality: Some(samples(1, 2, 2)),
        target_quality: None,
        ..healthy()
    });
    assert_eq!(d.conclusion, CLEAR);
}

#[test]
fn an_adapter_without_an_address_is_shown_with_none() {
    let mut a = adapter();
    a.ipv4 = None;
    a.friendly = String::new();
    let d = judge(&Case { adapter: Some(a), ..healthy() });
    assert_eq!(d.findings[0].detail, "适配器 \"{GUID}\"（Wi-Fi）已获得 IPv4 0.0.0.0/0");
}

#[test]
fn without_a_gateway_the_diagnosis_ends() {
    let d = judge(&Case { gateway_addr: None, ..healthy() });
    assert_eq!(levels(&d), vec![Level::Normal, Level::Error]);
    assert_eq!(d.findings[1].segment, "本地网络配置");
    assert_eq!(d.conclusion, "瓶颈定位：本地网络配置 —— 缺少默认网关，流量无法离开本机。");
}

#[test]
fn a_gateway_that_could_not_be_probed_is_an_error_that_accuses_nothing() {
    let d = judge(&Case { gateway: None, ..healthy() });
    assert_eq!(
        of(&d, "本机→网关"),
        vec![(Level::Error, "无法初始化 ICMP 检测（网关 192.168.1.1 未探测）")]
    );
    assert_eq!(d.conclusion, CLEAR);
}

#[test]
fn a_silent_gateway_with_a_hardware_address_is_there() {
    let d = judge(&Case { gateway: Some(pings(8, 0, 0)), ..healthy() });
    assert_eq!(
        of(&d, "本机→网关"),
        vec![(
            Level::Warn,
            "网关 192.168.1.1 不响应 ICMP ping（8 个探测全部丢失），但 ARP 显示网关在链路层在线"
        )]
    );
    assert_eq!(d.conclusion, CLEAR);
}

#[test]
fn a_silent_gateway_in_front_of_a_working_network_is_there() {
    let d = judge(&Case { gateway: Some(pings(8, 0, 0)), arp: Some(false), ..healthy() });
    assert_eq!(
        of(&d, "本机→网关"),
        vec![(
            Level::Warn,
            "网关 192.168.1.1 的 ICMP 探测全部丢失，但网关之后的公网可达，链路实际是通的"
        )]
    );
    assert_eq!(d.conclusion, CLEAR);
}

#[test]
fn a_gateway_that_answers_nothing_ends_the_diagnosis() {
    let d = judge(&Case { gateway: Some(pings(8, 0, 0)), arp: Some(false), ..dead() });
    assert_eq!(levels(&d), vec![Level::Normal, Level::Error]);
    assert_eq!(
        d.findings[1].detail,
        "网关 192.168.1.1 完全不可达（8 个 ICMP 探测全部丢失，ARP 也无应答）"
    );
    assert_eq!(
        d.conclusion,
        "瓶颈定位：本地网络段（本机→网关 192.168.1.1）。ICMP 与 ARP 均无法到达网关，问题几乎一定出在本地网络环境（信号、网线、路由器）。"
    );
}

#[test]
fn a_poor_way_to_the_gateway_ends_the_diagnosis_where_nothing_lies_behind() {
    let d = judge(&Case { gateway: Some(pings(8, 7, 9)), ..dead() });
    assert_eq!(levels(&d), vec![Level::Normal, Level::Error]);
    assert_eq!(
        d.findings[1].detail,
        "到网关的链路质量差：收到 7/8 个应答，丢包 12.5%，平均 9.0ms（最小 9 / 最大 9ms）"
    );
    assert_eq!(
        d.conclusion,
        "瓶颈定位：本地网络段（本机→网关 192.168.1.1），丢包 12.5%、平均时延 9ms，瓶颈在本地链路。"
    );
    let d = judge(&Case { gateway: Some(pings(8, 8, 51)), ..dead() });
    assert_eq!(
        d.conclusion,
        "瓶颈定位：本地网络段（本机→网关 192.168.1.1），丢包 0.0%、平均时延 51ms，瓶颈在本地链路。"
    );
}

#[test]
fn a_poor_way_to_the_gateway_is_a_warning_where_the_network_works() {
    let d = judge(&Case { gateway: Some(pings(8, 8, 51)), ..healthy() });
    assert_eq!(
        of(&d, "本机→网关"),
        vec![(
            Level::Warn,
            "网关 ICMP 探测质量不佳：收到 8/8 个应答，丢包 0.0%，平均 51.0ms（最小 51 / 最大 51ms），但网关之后的公网可达（可能是路由器 ICMP 限速）"
        )]
    );
    assert_eq!(d.conclusion, CLEAR);
    let d = judge(&Case { gateway: Some(pings(20, 19, 50)), ..healthy() });
    assert_eq!(d.findings[1].level, Level::Normal);
}

#[test]
fn a_network_behind_which_nothing_answers_is_down() {
    let d = judge(&dead());
    assert_eq!(levels(&d), vec![Level::Normal, Level::Normal, Level::Error]);
    assert_eq!(
        told(&d)[2],
        (Level::Error, "运营商接入链路", "网关正常，但所有公网地址均不可达（ICMP 与 TCP 均失败）")
    );
    assert_eq!(
        d.conclusion,
        "瓶颈定位：运营商接入链路 —— 本机与网关正常，但无法到达任何公网地址，疑似宽带断网或运营商侧故障。"
    );
}

#[test]
fn filtered_pings_are_no_broken_network() {
    let mut c = dead();
    c.publics_quality[0].1 = samples(4, 4, 20);
    c.target_quality = Some(samples(20, 20, 20));
    c.http = Some(page(Some(204), ""));
    c.system = healthy().system;
    c.hops = vec![];
    let d = judge(&c);
    assert_eq!(
        of(&d, "公网可达性"),
        vec![(
            Level::Warn,
            "所有公网 ICMP 探测丢失，但 TCP 连接 / HTTP / DNS 验证公网实际可达"
        )]
    );
    assert_eq!(
        of(&d, "逐跳链路"),
        vec![(
            Level::Normal,
            "ICMP 被屏蔽，逐跳探测无数据，但 TCP / HTTP / DNS 验证链路实际可达"
        )]
    );
    assert_eq!(d.conclusion, CLEAR);
}

#[test]
fn a_resolver_that_works_shows_that_the_network_is_up() {
    let mut c = dead();
    c.system = healthy().system;
    let d = judge(&c);
    assert_eq!(d.findings[2].level, Level::Warn);
    assert_eq!(d.findings[2].segment, "公网可达性");
}

#[test]
fn public_addresses_that_do_not_answer_are_named() {
    let mut c = healthy();
    c.publics[1].2 = pings(4, 0, 0);
    c.publics[2].2 = pings(4, 0, 0);
    c.publics_quality = vec![(c.publics[1].0, samples(4, 0, 0)), (c.publics[2].0, samples(4, 0, 0))];
    let d = judge(&c);
    assert_eq!(
        of(&d, "公网可达性"),
        vec![(
            Level::Warn,
            "部分公网地址不可达：119.29.29.29 (DNSPod)、8.8.8.8 (Google DNS)"
        )]
    );
    c.publics_quality[0].1 = samples(4, 1, 30);
    let d = judge(&c);
    assert_eq!(
        of(&d, "公网可达性"),
        vec![(Level::Warn, "部分公网地址不可达：8.8.8.8 (Google DNS)")]
    );
    c.publics_quality[1].1 = samples(4, 1, 30);
    let d = judge(&c);
    assert_eq!(of(&d, "公网可达性"), vec![(Level::Normal, "全部 3 个公网地址可达")]);
}

#[test]
fn a_bottleneck_on_the_route_is_concluded() {
    let mut c = healthy();
    c.hops = vec![hop(1, gw(), 10, 2), hop(2, target(), 10, 80)];
    let d = judge(&c);
    let msg = "第 2 跳 223.5.5.5（目标侧）时延突增：第 1 跳 2ms → 第 2 跳 80ms";
    assert_eq!(of(&d, "逐跳链路"), vec![(Level::Error, msg)]);
    assert_eq!(d.conclusion, format!("瓶颈定位：{}", msg));
}

#[test]
fn a_break_on_the_route_is_concluded() {
    let mut c = healthy();
    c.gateway = None;
    c.publics = vec![(target(), "阿里 DNS", pings(4, 0, 0))];
    c.target_stats = None;
    c.http = None;
    c.system = None;
    c.dns = vec![];
    c.target_quality = None;
    c.hops = vec![hop(1, gw(), 10, 2), hop(2, target(), 0, 0)];
    let d = judge(&c);
    let msg = "到目标 223.5.5.5 的链路在第 2 跳之后中断，最后可达节点为第 1 跳 192.168.1.1（本地网络段）";
    assert_eq!(of(&d, "逐跳链路"), vec![(Level::Error, msg)]);
    assert_eq!(d.conclusion, format!("瓶颈定位：{}", msg));
    assert_eq!(
        of(&d, "DNS 解析"),
        vec![(Level::Warn, "DNS 查询失败（当前公网本身不可达，待网络恢复后再验证 DNS）")]
    );
}

#[test]
fn loss_in_the_local_part_is_concluded() {
    let mut c = healthy();
    c.gateway_quality = Some(samples(10, 8, 5));
    let d = judge(&c);
    assert_eq!(
        of(&d, "网络质量")[0],
        (
            Level::Error,
            "本地段（本机→网关）TCP 丢包 20%（采样成功 8/10，丢包 20%，时延 平均 5 / 最小 5 / 最大 5 ms），丢包严重"
        )
    );
    assert_eq!(
        d.conclusion,
        "瓶颈定位：本地网络段 —— 网关段 TCP 采样丢包 20%，质量瓶颈在本地链路。"
    );
    c.gateway_quality = Some(samples(10, 9, 5));
    let d = judge(&c);
    assert_eq!(
        of(&d, "网络质量")[0],
        (Level::Warn, "本地段（本机→网关）TCP 丢包 10%，质量偏差")
    );
    assert_eq!(d.conclusion, CLEAR);
}

#[test]
fn loss_behind_the_gateway_is_concluded() {
    let mut c = healthy();
    c.target_quality = Some(samples(20, 15, 30));
    let d = judge(&c);
    assert_eq!(
        of(&d, "网络质量"),
        vec![(
            Level::Error,
            "端到端 TCP 丢包 25%（采样成功 15/20，丢包 25%，时延 平均 30 / 最小 30 / 最大 30 ms），而本地段质量良好，丢包发生在网关之后"
        )]
    );
    assert_eq!(d.conclusion, "瓶颈定位：运营商网络/目标侧 —— 端到端 TCP 采样丢包 25%。");
    c.gateway_quality = Some(samples(20, 19, 30));
    let d = judge(&c);
    assert_eq!(d.conclusion, "瓶颈定位：链路丢包严重 —— 端到端 TCP 采样丢包 25%。");
    c.gateway_quality = None;
    c.target_quality = Some(samples(20, 19, 30));
    let d = judge(&c);
    assert_eq!(of(&d, "网络质量"), vec![(Level::Warn, "端到端 TCP 丢包 5%，质量偏差")]);
    assert_eq!(d.conclusion, CLEAR);
}

#[test]
fn round_trips_are_compared_where_little_is_lost() {
    let mut c = healthy();
    c.gateway_quality = Some(samples(20, 20, 5));
    c.target_quality = Some(samples(20, 20, 50));
    let d = judge(&c);
    assert_eq!(
        of(&d, "网络质量"),
        vec![(Level::Warn, "时延主要在网关之后产生：本地段 5ms → 端到端 50ms")]
    );
    c.target_quality = Some(samples(20, 20, 30));
    let d = judge(&c);
    assert_eq!(
        of(&d, "网络质量"),
        vec![(
            Level::Normal,
            "TCP 采样质量良好：本地段丢包 0%、端到端丢包 0%，端到端时延 30ms"
        )]
    );
}

#[test]
fn samples_of_the_gateway_are_not_read_without_those_of_the_target() {
    let mut c = healthy();
    c.gateway_quality = Some(samples(10, 1, 5));
    c.target_quality = None;
    assert!(of(&judge(&c), "网络质量").is_empty());
}

#[test]
fn a_resolver_that_fails_where_servers_answer_is_misconfigured() {
    let mut c = healthy();
    c.system = None;
    c.dns.push(answer([8, 8, 8, 8], "Google DNS", true));
    c.dns.push(answer([1, 1, 1, 1], "x", false));
    let d = judge(&c);
    assert_eq!(
        of(&d, "DNS 配置"),
        vec![(
            Level::Error,
            "系统 DNS 无法解析 www.baidu.com，但直连公共 DNS（223.5.5.5 阿里 DNS、8.8.8.8 Google DNS）可以解析"
        )]
    );
    assert_eq!(
        d.conclusion,
        "瓶颈定位：DNS 配置 —— 系统配置的 DNS 服务器失效，而公共 DNS 可用，网页打不开是 DNS 的问题。"
    );
}

#[test]
fn dns_that_fails_in_a_working_network_is_blamed() {
    let mut c = healthy();
    c.system = Some(vec![]);
    c.dns = vec![answer([223, 5, 5, 5], "阿里 DNS", false)];
    let d = judge(&c);
    assert_eq!(
        of(&d, "DNS 解析"),
        vec![(Level::Error, "所有 DNS 服务器查询 www.baidu.com 均失败，但 IP 直连公网正常")]
    );
    assert_eq!(
        d.conclusion,
        "瓶颈定位：DNS 解析链路 —— 全部 DNS 查询失败，域名无法打开但 IP 直连正常。"
    );
}

#[test]
fn a_page_with_other_contents_is_a_warning() {
    let mut c = healthy();
    c.http = Some(page(Some(302), "不符"));
    let d = judge(&c);
    assert_eq!(
        of(&d, "应用层 HTTP"),
        vec![(
            Level::Warn,
            "访问 captive.apple.com 成功（HTTP 302），总耗时 40ms；不符"
        )]
    );
    assert_eq!(d.conclusion, CLEAR);
}

#[test]
fn a_page_that_fails_in_a_working_network_is_blamed() {
    let mut c = healthy();
    c.http = Some(page(None, ""));
    let d = judge(&c);
    assert_eq!(
        of(&d, "应用层 HTTP"),
        vec![(
            Level::Error,
            "IP 层连通但 HTTP 访问 captive.apple.com 失败（未获得有效响应）"
        )]
    );
    assert_eq!(
        d.conclusion,
        "瓶颈定位：应用层 / 代理配置 —— 网络链路正常但 HTTP 请求失败，多为代理、防火墙或 Web 认证问题。"
    );
    c.http = Some(page(Some(503), "忙"));
    assert_eq!(
        of(&judge(&c), "应用层 HTTP")[0].1,
        "IP 层连通但 HTTP 访问 captive.apple.com 失败（忙）"
    );
}

#[test]
fn the_first_thing_to_blame_is_concluded() {
    let mut c = healthy();
    c.hops = vec![hop(1, gw(), 10, 2), hop(2, target(), 10, 80)];
    c.target_quality = Some(samples(20, 10, 30));
    c.system = None;
    c.http = Some(page(None, ""));
    let d = judge(&c);
    assert_eq!(d.findings.iter().filter(|f| f.level == Level::Error).count(), 4);
    assert_eq!(
        d.conclusion,
        "瓶颈定位：第 2 跳 223.5.5.5（目标侧）时延突增：第 1 跳 2ms → 第 2 跳 80ms"
    );
}
