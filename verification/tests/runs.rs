use zhuge_netdiag::addr::Ipv4Addr;
use zhuge_netdiag::binary64::Binary64;
use zhuge_netdiag::dns::DnsQueryResult;
use zhuge_netdiag::env::AdapterInfo;
use zhuge_netdiag::http::HttpResult;
use zhuge_netdiag::quality::QualityStats;
use zhuge_netdiag::runner::{Answer, Event, Job, Run, RunOpts, Task, DEFAULT_TARGET, TOTAL_STEPS};
use zhuge_netdiag::trace::{HopStat, PingStats};

fn gw() -> Ipv4Addr {
    Ipv4Addr::new(10, 0, 0, 1)
}

fn adapter(name: &str, gateways: Vec<Ipv4Addr>) -> AdapterInfo {
    AdapterInfo {
        name: name.to_string(),
        friendly: "WLAN".to_string(),
        description: "Intel".to_string(),
        kind: "Wi-Fi".to_string(),
        up: true,
        ipv4: Some((Ipv4Addr::new(10, 0, 0, 9), 24)),
        gateways,
        dns_servers: vec![gw(), Ipv4Addr::new(223, 5, 5, 5)],
    }
}

fn pings(received: u32) -> PingStats {
    PingStats {
        sent: 4,
        received,
        min_ms: 3,
        max_ms: 5,
        avg_ms: Binary64::from_integer(4),
    }
}

fn samples(succeeded: u32) -> QualityStats {
    QualityStats {
        sent: 4,
        succeeded,
        min_ms: 3,
        max_ms: 5,
        avg_ms: Binary64::from_integer(4),
    }
}

/// The answer of the server that the run asks.
fn asked(run: &Run, success: bool) -> DnsQueryResult {
    let Job::Query { server, name, domain, .. } = run.job() else {
        panic!("no server is asked");
    };
    DnsQueryResult {
        server,
        domain: domain.to_string(),
        label: name,
        success,
        answers: vec![Ipv4Addr::new(7, 7, 7, 7)],
        elapsed_ms: 9,
        error: if success { None } else { Some("拒绝".to_string()) },
    }
}

/// What comes of the page that the run fetches.
fn page(run: &Run, status: Option<u16>, note: &str) -> HttpResult {
    let Job::Fetch { page, .. } = run.job() else {
        panic!("no page is fetched");
    };
    HttpResult {
        host: page.host,
        connected: true,
        status_code: status,
        elapsed_ms: 6,
        note: note.to_string(),
    }
}

fn hop(ttl: u8, received: u32, reached: u32) -> HopStat {
    HopStat {
        ttl,
        responder: if received > 0 { Some(Ipv4Addr::new(10, 0, 0, ttl)) } else { None },
        responders: vec![],
        sent: 4,
        received,
        min_ms: 3,
        max_ms: 5,
        avg_ms: Binary64::from_integer(4),
        reached_dest: reached,
    }
}

fn opts(target: &str) -> RunOpts {
    RunOpts { target: target.to_string(), count: 4, quality_count: 4, ..RunOpts::default() }
}

/// The events as lines; a step is marked.
fn lines(out: &[Event]) -> Vec<String> {
    out.iter()
        .map(|e| match e {
            Event::Step { n, total, title } => format!("#{}/{} {}", n, total, title),
            Event::Log(t) => t.clone(),
        })
        .collect()
}

fn start(target: &str) -> (Run, Vec<String>) {
    let (run, out) = Run::start(opts(target), "now".to_string());
    (run, lines(&out))
}

fn give(run: &mut Run, a: Answer) -> Vec<String> {
    assert!(run.accepts(&a));
    lines(&run.advance(a))
}

fn answer(run: &mut Run, success: bool) -> Vec<String> {
    let r = asked(run, success);
    give(run, Answer::Queried(r))
}

fn fetch(run: &mut Run, status: Option<u16>, note: &str) -> Vec<String> {
    let r = page(run, status, note);
    give(run, Answer::Fetched(r))
}

/// A run at the public network.
fn at_publics(target: &str) -> Run {
    let (mut run, _) = start(target);
    give(&mut run, Answer::Adapters(vec![]));
    assert_eq!(run.task, Task::PingPublic(0));
    run
}

#[test]
fn the_default_options() {
    let o = RunOpts::default();
    assert_eq!(o.target, DEFAULT_TARGET);
    assert_eq!((o.count, o.timeout_ms, o.max_hops, o.quality_count), (8, 1500, 30, 20));
    assert_eq!(TOTAL_STEPS, 7);
}

#[test]
fn an_address_needs_no_resolving() {
    let (run, out) = start("1.2.3.4");
    assert_eq!(out, vec!["#1/7 检测本地网络环境"]);
    assert_eq!(run.task, Task::ListAdapters);
    assert_eq!(run.session.target, Ipv4Addr::new(1, 2, 3, 4));
    assert_eq!(run.session.target_input, "1.2.3.4");
    assert_eq!(run.session.time, "now");
    assert_eq!(run.session.dns_domain, "www.baidu.com");
    assert_eq!((run.session.count, run.session.timeout_ms, run.session.quality_count), (4, 1500, 4));
    assert!(matches!(run.job(), Job::ListAdapters));
}

#[test]
fn a_domain_is_resolved_first() {
    let (mut run, out) = start("www.x.com");
    assert_eq!(out, vec!["目标 \"www.x.com\" 是域名，尝试解析 ..."]);
    assert!(matches!(run.job(), Job::Resolve(t) if t == "www.x.com"));
    let out = give(&mut run, Answer::Resolved(Some(Ipv4Addr::new(5, 6, 7, 8))));
    assert_eq!(out, vec!["解析成功: 5.6.7.8", "#1/7 检测本地网络环境"]);
    assert_eq!(run.session.target, Ipv4Addr::new(5, 6, 7, 8));
}

#[test]
fn the_default_target_stands_in_for_a_name_without_an_address() {
    let (mut run, _) = start("www.x.com");
    let out = give(&mut run, Answer::Resolved(None));
    assert_eq!(
        out,
        vec![
            "警告: 无法解析目标域名，这本身说明 DNS 可能存在问题",
            "改用默认目标 223.5.5.5 继续诊断",
            "#1/7 检测本地网络环境"
        ]
    );
    assert_eq!(run.session.target.to_text(), DEFAULT_TARGET);
    assert_eq!(run.session.target_input, "www.x.com");
}

#[test]
fn without_adapters_the_public_network_comes_next() {
    let (mut run, _) = start("1.2.3.4");
    let out = give(&mut run, Answer::Adapters(vec![]));
    assert_eq!(
        out,
        vec![
            "警告: 未读取到任何网络适配器",
            "警告: 未找到可用的主用网络适配器",
            "#2/7 检查网关连通性",
            "未发现默认网关，跳过",
            "#3/7 检查公网连通性（IP 直连，排除 DNS 因素）"
        ]
    );
    assert_eq!(run.task, Task::PingPublic(0));
    assert!(run.session.gateway_addr.is_none());
}

#[test]
fn the_gateway_of_the_adapter_in_use_is_probed() {
    let (mut run, _) = start("1.2.3.4");
    let mut bare = adapter("b", vec![]);
    bare.up = false;
    bare.ipv4 = None;
    let v = vec![adapter("a", vec![gw(), Ipv4Addr::new(10, 0, 0, 2)]), bare];
    let out = give(&mut run, Answer::Adapters(v));
    assert_eq!(
        out,
        vec![
            "- Wi-Fi \"WLAN\"：Intel，IPv4 10.0.0.9/24，网关 10.0.0.1,10.0.0.2，状态 已连接",
            "- Wi-Fi \"WLAN\"：Intel，IPv4 无 IPv4，网关 ，状态 未连接",
            "主用适配器: \"WLAN\"（Wi-Fi）",
            "#2/7 检查网关连通性",
            "向网关 10.0.0.1 发送 4 个 ICMP 探测 ..."
        ]
    );
    assert_eq!(run.session.primary.as_ref().map(|a| a.name.as_str()), Some("a"));
    assert_eq!(run.session.gateway_addr, Some(gw()));
    assert!(matches!(
        run.job(),
        Job::Ping { addr, count: 4, timeout_ms: 1500 } if addr == gw()
    ));
    let out = give(&mut run, Answer::Pinged(Ok(pings(0))));
    assert_eq!(out, vec!["收到 0/4 个应答，丢包 100%"]);
    assert!(matches!(run.job(), Job::Arp(x) if x == gw()));
    let out = give(&mut run, Answer::Asked(true, Some("AA-BB".to_string())));
    assert_eq!(
        out,
        vec![
            "ARP 检测网关 10.0.0.1: 链路层可达（MAC AA-BB）",
            "TCP 采样测量网关段质量（4 次采样）..."
        ]
    );
    assert_eq!(run.session.gateway_arp, Some(true));
    assert!(matches!(
        run.job(),
        Job::Sample {
            addr,
            port: 9,
            count: 4,
            wait_ms: 1200,
            interval_ms: 200,
            label: Some("网关段")
        } if addr == gw()
    ));
    let out = give(&mut run, Answer::Sampled(samples(3)));
    assert_eq!(
        out,
        vec![
            "网关段 TCP 采样: 采样成功 3/4，丢包 25%，时延 平均 4 / 最小 3 / 最大 5 ms",
            "#3/7 检查公网连通性（IP 直连，排除 DNS 因素）"
        ]
    );
    assert_eq!(run.session.gateway_quality.map(|q| q.succeeded), Some(3));
    assert_eq!(run.task, Task::PingPublic(0));
}

#[test]
fn a_gateway_that_answers_is_not_sampled() {
    let (mut run, _) = start("1.2.3.4");
    give(&mut run, Answer::Adapters(vec![adapter("a", vec![gw()])]));
    give(&mut run, Answer::Pinged(Ok(pings(4))));
    let out = give(&mut run, Answer::Asked(false, None));
    assert_eq!(out, vec!["#3/7 检查公网连通性（IP 直连，排除 DNS 因素）"]);
    assert_eq!(run.session.gateway_arp, Some(false));
    assert!(run.session.gateway_quality.is_none());
}

#[test]
fn a_gateway_that_cannot_be_pinged_is_not_sampled() {
    let (mut run, _) = start("1.2.3.4");
    give(&mut run, Answer::Adapters(vec![adapter("a", vec![gw()])]));
    let out = give(&mut run, Answer::Pinged(Err("坏".to_string())));
    assert_eq!(out, vec!["无法初始化 ICMP 检测: 坏"]);
    let out = give(&mut run, Answer::Asked(false, None));
    assert_eq!(
        out,
        vec![
            "ARP 检测网关 10.0.0.1: 同样无应答",
            "#3/7 检查公网连通性（IP 直连，排除 DNS 因素）"
        ]
    );
    assert!(run.session.gateway.is_none());
}

#[test]
fn public_addresses_are_pinged_and_the_silent_ones_sampled() {
    let mut run = at_publics("1.2.3.4");
    assert!(matches!(
        run.job(),
        Job::Ping { addr, count: 4, timeout_ms: 1500 } if addr == Ipv4Addr::new(223, 5, 5, 5)
    ));
    let out = give(&mut run, Answer::Pinged(Ok(pings(0))));
    assert_eq!(out, vec!["223.5.5.5 (阿里 DNS): 收到 0/4 个应答，丢包 100%"]);
    let out = give(&mut run, Answer::Pinged(Err("坏".to_string())));
    assert_eq!(out, vec!["119.29.29.29 (DNSPod): 探测失败: 坏"]);
    let out = give(&mut run, Answer::Pinged(Ok(pings(0))));
    assert_eq!(out, vec!["8.8.8.8 (Google DNS): 收到 0/4 个应答，丢包 100%"]);
    assert_eq!(run.task, Task::PingTarget);
    assert!(matches!(
        run.job(),
        Job::Ping { addr, count: 4, timeout_ms: 1500 } if addr == Ipv4Addr::new(1, 2, 3, 4)
    ));
    let out = give(&mut run, Answer::Pinged(Ok(pings(4))));
    assert_eq!(
        out,
        vec!["目标 1.2.3.4: 收到 4/4 个应答，丢包 0.0%，平均 4.0ms（最小 3 / 最大 5ms）"]
    );
    assert_eq!(run.session.target_stats.map(|s| s.received), Some(4));
    assert!(matches!(
        run.job(),
        Job::Sample { addr, port: 53, count: 4, wait_ms: 1200, interval_ms: 150, label: None }
            if addr == Ipv4Addr::new(223, 5, 5, 5)
    ));
    let out = give(&mut run, Answer::Sampled(samples(4)));
    assert_eq!(
        out,
        vec!["TCP 采样 223.5.5.5 :53: 可达，采样成功 4/4，丢包 0%，时延 平均 4 / 最小 3 / 最大 5 ms"]
    );
    assert_eq!(run.task, Task::SamplePublic(1));
    let out = give(&mut run, Answer::Sampled(samples(0)));
    assert_eq!(
        out,
        vec![
            "TCP 采样 8.8.8.8 :53: 连接失败",
            "TCP 采样测量到目标 1.2.3.4 的端到端质量（4 次采样）..."
        ]
    );
    assert_eq!(run.session.publics.len(), 2);
    assert_eq!(run.session.publics_quality.len(), 2);
    assert_eq!(run.session.publics_quality[1].0, Ipv4Addr::new(8, 8, 8, 8));
    assert!(matches!(
        run.job(),
        Job::Sample {
            addr,
            port: 80,
            count: 4,
            wait_ms: 1500,
            interval_ms: 200,
            label: Some("端到端")
        } if addr == Ipv4Addr::new(1, 2, 3, 4)
    ));
}

#[test]
fn a_target_among_the_public_addresses_is_not_pinged_again() {
    let mut run = at_publics("8.8.8.8");
    give(&mut run, Answer::Pinged(Ok(pings(4))));
    give(&mut run, Answer::Pinged(Ok(pings(4))));
    let out = give(&mut run, Answer::Pinged(Ok(pings(3))));
    assert_eq!(
        out,
        vec![
            "8.8.8.8 (Google DNS): 收到 3/4 个应答，丢包 25.0%，平均 4.0ms（最小 3 / 最大 5ms）",
            "TCP 采样测量到目标 8.8.8.8 的端到端质量（4 次采样）..."
        ]
    );
    assert_eq!(run.task, Task::SampleTarget);
    assert_eq!(run.session.target_stats.map(|s| s.received), Some(3));
}

#[test]
fn a_target_that_cannot_be_pinged_has_no_pings() {
    let mut run = at_publics("8.8.8.8");
    for _ in 0..3 {
        give(&mut run, Answer::Pinged(Err("坏".to_string())));
    }
    assert_eq!(run.task, Task::PingTarget);
    let out = give(&mut run, Answer::Pinged(Err("坏".to_string())));
    assert_eq!(
        out,
        vec![
            "目标 8.8.8.8: 探测失败: 坏",
            "TCP 采样测量到目标 8.8.8.8 的端到端质量（4 次采样）..."
        ]
    );
    assert!(run.session.target_stats.is_none());
}

/// A run at DNS, with an adapter whose servers are the gateway and 223.5.5.5.
fn at_dns(target: &str) -> Run {
    let (mut run, _) = start(target);
    if run.task == Task::ResolveTarget {
        give(&mut run, Answer::Resolved(Some(Ipv4Addr::new(5, 6, 7, 8))));
    }
    give(&mut run, Answer::Adapters(vec![adapter("a", vec![gw()])]));
    give(&mut run, Answer::Pinged(Ok(pings(4))));
    give(&mut run, Answer::Asked(true, Some("AA".to_string())));
    for _ in 0..4 {
        give(&mut run, Answer::Pinged(Ok(pings(4))));
    }
    let out = give(&mut run, Answer::Sampled(samples(4)));
    assert_eq!(
        out,
        vec![
            "端到端 TCP 采样: 采样成功 4/4，丢包 0%，时延 平均 4 / 最小 3 / 最大 5 ms",
            "#4/7 检查 DNS 解析"
        ]
    );
    run
}

#[test]
fn servers_that_follow_each_other_are_asked_once() {
    let run = at_dns("1.2.3.4");
    let v: Vec<(String, &str)> =
        run.servers.iter().map(|s| (s.0.to_text(), s.1.as_str())).collect();
    assert_eq!(
        v,
        vec![
            ("10.0.0.1".to_string(), "系统 DNS - WLAN"),
            ("223.5.5.5".to_string(), "系统 DNS - WLAN"),
            ("8.8.8.8".to_string(), "Google DNS"),
        ]
    );
}

#[test]
fn servers_and_the_resolver_are_asked() {
    let mut run = at_dns("1.2.3.4");
    assert!(matches!(
        run.job(),
        Job::Query { server, name, domain: "www.baidu.com", wait_ms: 3000 }
            if server == gw() && name == "系统 DNS - WLAN"
    ));
    let out = answer(&mut run, true);
    assert_eq!(out, vec!["10.0.0.1 (系统 DNS - WLAN) 解析 www.baidu.com: 成功（9ms）-> 7.7.7.7"]);
    let out = answer(&mut run, false);
    assert_eq!(out, vec!["223.5.5.5 (系统 DNS - WLAN) 解析 www.baidu.com: 失败（拒绝）"]);
    answer(&mut run, false);
    assert_eq!(run.session.dns.len(), 3);
    assert!(matches!(
        run.job(),
        Job::ResolveSystem { domain: "www.baidu.com", wait_ms: 5000 }
    ));
    let out = give(&mut run, Answer::System(Ok(vec![Ipv4Addr::new(7, 7, 7, 7), gw()])));
    assert_eq!(
        out,
        vec![
            "系统解析器解析 www.baidu.com: 成功 -> 7.7.7.7, 10.0.0.1",
            "#5/7 逐跳链路探测（目标 1.2.3.4，每跳 4 次探测）"
        ]
    );
    assert_eq!(run.session.system_dns, Some(vec![Ipv4Addr::new(7, 7, 7, 7), gw()]));
    assert!(matches!(
        run.job(),
        Job::Trace { target, count: 4, timeout_ms: 1500, max_hops: 30 }
            if target == Ipv4Addr::new(1, 2, 3, 4)
    ));
}

#[test]
fn a_resolver_that_fails_is_told() {
    let mut run = at_dns("1.2.3.4");
    for _ in 0..3 {
        answer(&mut run, false);
    }
    let out = give(&mut run, Answer::System(Err("无".to_string())));
    assert_eq!(out[0], "系统解析器解析 www.baidu.com: 失败（无）");
    assert!(run.session.system_dns.is_none());
}

/// A run at its first page.
fn at_pages(target: &str) -> (Run, Vec<String>) {
    let mut run = at_dns(target);
    for _ in 0..3 {
        answer(&mut run, true);
    }
    give(&mut run, Answer::System(Ok(vec![gw()])));
    let out = give(&mut run, Answer::Traced(vec![hop(1, 3, 0), hop(2, 0, 0), hop(3, 4, 4)]));
    (run, out)
}

#[test]
fn hops_are_told_in_rows() {
    let (run, out) = at_pages("1.2.3.4");
    assert_eq!(
        out,
        vec![
            "跳数  节点地址            应答/发出  丢包率   时延 平均/最小/最大 (ms)".to_string(),
            format!("{:<4}  {:<16}  3/4  25%  4.0 / 3 / 5", 1, "10.0.0.1"),
            format!("{:<4}  {:<16}  0/4  100%  -  (不回应 ICMP，但其后节点可达)", 2, "*"),
            format!("{:<4}  {:<16}  4/4  0%  4.0 / 3 / 5  <- 目标", 3, "10.0.0.3"),
            "#6/7 检查应用层 HTTP 连通性".to_string(),
            "访问 http://www.msftconnecttest.com/connect.txt ...".to_string(),
        ]
    );
    assert_eq!(run.session.hops.len(), 3);
    assert!(matches!(
        run.job(),
        Job::Fetch { page, wait_ms: 8000 } if page.host == "www.msftconnecttest.com"
    ));
}

#[test]
fn no_hops_are_told_so() {
    let mut run = at_dns("1.2.3.4");
    for _ in 0..3 {
        answer(&mut run, true);
    }
    give(&mut run, Answer::System(Ok(vec![gw()])));
    let out = give(&mut run, Answer::Traced(vec![]));
    assert_eq!(out[0], "未获得任何链路数据");
}

#[test]
fn the_first_good_page_ends_the_fetching() {
    let (mut run, _) = at_pages("1.2.3.4");
    let out = fetch(&mut run, None, "收到空响应");
    assert_eq!(
        out,
        vec!["失败：收到空响应", "访问 http://captive.apple.com/hotspot-detect.html ..."]
    );
    let out = fetch(&mut run, Some(302), "不符");
    assert_eq!(out, vec!["HTTP 302，耗时 6ms", "备注：不符"]);
    assert_eq!(run.task, Task::Conclude);
    assert_eq!(run.session.http.as_ref().and_then(|h| h.status_code), Some(302));
}

#[test]
fn the_first_failure_is_kept_where_no_page_is_good() {
    let (mut run, _) = at_pages("www.x.com");
    fetch(&mut run, Some(500), "一");
    fetch(&mut run, None, "二");
    let out = fetch(&mut run, None, "三");
    assert_eq!(out, vec!["失败：三", "访问 http://www.x.com/ ..."]);
    assert!(matches!(run.job(), Job::Fetch { page, .. } if page.host == "www.x.com"));
    let out = fetch(&mut run, None, "四");
    assert_eq!(out, vec!["失败：四"]);
    assert_eq!(run.task, Task::Conclude);
    assert_eq!(run.session.http.as_ref().map(|h| h.note.as_str()), Some("一"));
}

#[test]
fn a_run_ends_with_its_diagnosis() {
    let (mut run, _) = at_pages("1.2.3.4");
    fetch(&mut run, Some(200), "");
    assert!(matches!(run.job(), Job::Conclude));
    assert!(run.can_conclude());
    let out = lines(&run.conclude());
    assert_eq!(out, vec!["#7/7 综合分析，定位瓶颈"]);
    assert!(matches!(run.job(), Job::Done));
    let d = run.session.diagnosis.as_ref().unwrap();
    assert_eq!(d.findings[0].detail, "适配器 \"WLAN\"（Wi-Fi）已获得 IPv4 10.0.0.9/24");
    assert_eq!(
        d.conclusion,
        "瓶颈定位：第 1 跳 10.0.0.1（本地网络段）丢包 25%（其后节点正常，也可能是该节点限速 ICMP）"
    );
}

#[test]
fn a_whole_run_announces_every_step_once() {
    let (run, out) = Run::start(opts("www.x.com"), "now".to_string());
    let mut run = run;
    let mut all = out;
    let mut jobs = 0;
    loop {
        jobs += 1;
        assert!(jobs < 50);
        let answer = match run.job() {
            Job::Resolve(_) => Answer::Resolved(None),
            Job::ListAdapters => Answer::Adapters(vec![adapter("a", vec![gw()])]),
            Job::Ping { .. } => Answer::Pinged(Ok(pings(0))),
            Job::Arp(_) => Answer::Asked(false, None),
            Job::Sample { .. } => Answer::Sampled(samples(1)),
            Job::Query { .. } => Answer::Queried(asked(&run, true)),
            Job::ResolveSystem { .. } => Answer::System(Ok(vec![gw()])),
            Job::Trace { .. } => Answer::Traced(vec![]),
            Job::Fetch { .. } => Answer::Fetched(page(&run, None, "x")),
            Job::Conclude => {
                all.extend(run.conclude());
                continue;
            }
            Job::Done => break,
        };
        assert!(run.accepts(&answer));
        all.extend(run.advance(answer));
    }
    let steps: Vec<u8> = all
        .iter()
        .filter_map(|e| match e {
            Event::Step { n, .. } => Some(*n),
            Event::Log(_) => None,
        })
        .collect();
    assert_eq!(steps, vec![1, 2, 3, 4, 5, 6, 7]);
    let s = &run.session;
    assert!(s.diagnosis.is_some());
    assert_eq!(s.gateway_addr, s.primary.as_ref().and_then(|a| a.gateways.first().copied()));
    assert!(s.gateway_arp.is_some());
    assert!(s.gateway_quality.is_some());
    let silent: Vec<Ipv4Addr> =
        s.publics.iter().filter(|p| p.2.received == 0).map(|p| p.0).collect();
    let sampled: Vec<Ipv4Addr> = s.publics_quality.iter().map(|p| p.0).collect();
    assert_eq!(sampled, silent);
    let servers: Vec<Ipv4Addr> = run.servers.iter().map(|p| p.0).collect();
    let answered: Vec<Ipv4Addr> = s.dns.iter().map(|r| r.server).collect();
    assert_eq!(answered, servers);
}

#[test]
fn only_an_answer_to_the_job_is_accepted() {
    let (mut run, _) = start("1.2.3.4");
    assert!(!run.accepts(&Answer::Resolved(None)));
    give(&mut run, Answer::Adapters(vec![adapter("a", vec![gw()])]));
    assert!(run.accepts(&Answer::Pinged(Err("x".to_string()))));
    assert!(!run.accepts(&Answer::Pinged(Ok(PingStats { sent: 5, ..pings(4) }))));
    assert!(!run.accepts(&Answer::Pinged(Ok(pings(5)))));
    give(&mut run, Answer::Pinged(Ok(pings(0))));
    give(&mut run, Answer::Asked(true, None));
    assert_eq!(run.task, Task::SampleGateway(gw()));
    assert!(!run.accepts(&Answer::Sampled(samples(5))));
    assert!(!run.accepts(&Answer::Sampled(QualityStats { sent: 3, ..samples(1) })));
}

#[test]
fn only_the_server_and_the_page_asked_for_are_accepted() {
    let mut run = at_dns("1.2.3.4");
    let right = asked(&run, true);
    let other = Ipv4Addr::new(1, 1, 1, 1);
    assert!(!run.accepts(&Answer::Queried(DnsQueryResult { server: other, ..right.clone() })));
    let label = "x".to_string();
    assert!(!run.accepts(&Answer::Queried(DnsQueryResult { label, ..right.clone() })));
    let domain = "x".to_string();
    assert!(!run.accepts(&Answer::Queried(DnsQueryResult { domain, ..right })));
    while run.task != Task::AskSystem {
        answer(&mut run, true);
    }
    give(&mut run, Answer::System(Ok(vec![gw()])));
    for hops in [
        vec![hop(2, 1, 0), hop(2, 1, 0)],
        vec![hop(1, 1, 1), hop(2, 1, 0)],
        vec![hop(1, 5, 0)],
        vec![hop(31, 1, 0)],
    ] {
        assert!(!run.accepts(&Answer::Traced(hops)));
    }
    give(&mut run, Answer::Traced(vec![hop(1, 1, 0), hop(30, 1, 1)]));
    let right = page(&run, Some(200), "");
    assert!(!run.accepts(&Answer::Fetched(HttpResult { host: "x".to_string(), ..right })));
}
