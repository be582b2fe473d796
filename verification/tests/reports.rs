use zhuge_netdiag::addr::Ipv4Addr;
use zhuge_netdiag::binary64::Binary64;
use zhuge_netdiag::diagnose::{finding, Diagnosis, Level};
use zhuge_netdiag::dns::DnsQueryResult;
use zhuge_netdiag::env::AdapterInfo;
use zhuge_netdiag::http::HttpResult;
use zhuge_netdiag::quality::QualityStats;
use zhuge_netdiag::report::{
    conclusion, default_report_path, local_stamp, render, report_path, seconds_stamp, timestamp,
    LocalTime, Session, VERSION,
};
use zhuge_netdiag::trace::{HopStat, PingStats};

fn adapter(name: &str) -> AdapterInfo {
    AdapterInfo {
        name: name.to_string(),
        friendly: "以太网".to_string(),
        description: "Realtek".to_string(),
        kind: "以太网".to_string(),
        up: true,
        ipv4: Some((Ipv4Addr::new(10, 0, 0, 2), 24)),
        gateways: vec![Ipv4Addr::new(10, 0, 0, 1), Ipv4Addr::new(10, 0, 0, 254)],
        dns_servers: vec![],
    }
}

fn pings(received: u32) -> PingStats {
    PingStats {
        sent: 4,
        received,
        min_ms: 3,
        max_ms: 5,
        avg_ms: Binary64::from_integer(4),
    }
}

fn samples(succeeded: u32) -> QualityStats {
    QualityStats {
        sent: 4,
        succeeded,
        min_ms: 3,
        max_ms: 5,
        avg_ms: Binary64::from_integer(4),
    }
}

fn session() -> Session {
    let mut s = Session::default();
    s.time = "20240102_030405".to_string();
    s.target = Ipv4Addr::new(1, 2, 3, 4);
    s.target_input = "www.x.com".to_string();
    s.count = 8;
    s.timeout_ms = 1500;
    s.quality_count = 20;
    s.dns_domain = "www.baidu.com".to_string();
    s
}

#[test]
fn an_empty_session_has_a_report() {
    let expected = format!(
        "# 诸葛网络问题诊断报告\n\n- 诊断时间：20240102_030405\n- 诊断目标：1.2.3.4（www.x.com）\n- 参数：每跳探测 8 次，单次超时 1500ms，质量采样 20 次\n\n\
         ## 1. 本地网络环境\n- 未读取到任何网络适配器\n\n\
         ## 2. 网关连通性\n- 未发现默认网关\n\n\
         ## 3. 公网可达性\n\n\
         ## 4. DNS 解析（域名 www.baidu.com）\n- 系统解析器：失败\n\n\
         ## 5. 逐跳链路探测\n- 无数据\n\n\
         ## 6. 应用层 HTTP 连通性\n- 未执行\n\n\
         ## 7. 诊断结论\n\n---\n本报告由 诸葛网络问题诊断器 v{} 自动生成（MIT 开源协议）。\n",
        VERSION
    );
    assert_eq!(render(&session()), expected);
}

#[test]
fn a_full_session_has_a_report() {
    let mut s = session();
    let mut bare = adapter("b");
    bare.friendly = String::new();
    bare.description = String::new();
    bare.up = false;
    bare.ipv4 = None;
    bare.gateways = vec![];
    bare.dns_servers = vec![Ipv4Addr::new(8, 8, 8, 8)];
    s.adapters = vec![adapter("a"), bare];
    s.primary = Some(adapter("a"));
    s.gateway_addr = Some(Ipv4Addr::new(10, 0, 0, 1));
    s.gateway = Some(pings(0));
    s.gateway_arp = Some(true);
    s.gateway_quality = Some(samples(3));
    s.publics = vec![
        (Ipv4Addr::new(223, 5, 5, 5), "阿里 DNS", pings(4)),
        (Ipv4Addr::new(119, 29, 29, 29), "DNSPod", pings(0)),
        (Ipv4Addr::new(8, 8, 8, 8), "Google DNS", pings(0)),
        (Ipv4Addr::new(9, 9, 9, 9), "Quad9", pings(0)),
    ];
    s.publics_quality = vec![
        (Ipv4Addr::new(119, 29, 29, 29), samples(4)),
        (Ipv4Addr::new(8, 8, 8, 8), samples(0)),
    ];
    s.target_stats = Some(pings(2));
    s.target_quality = Some(samples(4));
    s.system_dns = Some(vec![Ipv4Addr::new(7, 7, 7, 7), Ipv4Addr::new(6, 6, 6, 6)]);
    let ask = |success: bool, error: Option<&str>| DnsQueryResult {
        server: Ipv4Addr::new(223, 5, 5, 5),
        domain: "www.baidu.com".to_string(),
        label: "阿里 DNS".to_string(),
        success,
        answers: if success { vec![Ipv4Addr::new(7, 7, 7, 7)] } else { vec![] },
        elapsed_ms: 18,
        error: error.map(|e| e.to_string()),
    };
    s.dns = vec![ask(true, None), ask(false, Some("应答报文过短")), ask(false, None)];
    s.hops = vec![
        HopStat {
            ttl: 1,
            responder: Some(Ipv4Addr::new(10, 0, 0, 1)),
            responders: vec![],
            sent: 8,
            received: 6,
            min_ms: 1,
            max_ms: 3,
            avg_ms: Binary64::from_integer(2),
            reached_dest: 0,
        },
        HopStat {
            ttl: 2,
            responder: None,
            responders: vec![],
            sent: 8,
            received: 0,
            min_ms: 0,
            max_ms: 0,
            avg_ms: Binary64::zero(),
            reached_dest: 0,
        },
    ];
    s.http = Some(HttpResult {
        host: "captive.apple.com".to_string(),
        connected: true,
        status_code: Some(200),
        elapsed_ms: 40,
        note: "不符".to_string(),
    });
    s.diagnosis = Some(Diagnosis {
        findings: vec![
            finding(Level::Normal, "本机网络接口", "好".to_string(), None),
            finding(Level::Error, "DNS 解析", "坏".to_string(), Some("换".to_string())),
        ],
        conclusion: "瓶颈定位：DNS".to_string(),
    });
    let t = render(&s);
    for line in [
        "- 以太网 \"以太网\"（主用）：状态=已连接，IPv4=10.0.0.2/24，网关=10.0.0.1, 10.0.0.254，DNS=无\n  - 设备：Realtek\n",
        "- 以太网 \"b\"：状态=未连接，IPv4=无 IPv4，网关=无，DNS=8.8.8.8\n\n## 2.",
        "- 网关 10.0.0.1：收到 0/4 个应答，丢包 100%\n  - ARP 交叉验证：网关在链路层可达（路由器可能禁用了 ICMP ping 应答，不影响上网）\n  - 网关段 TCP 采样：采样成功 3/4，丢包 25%，时延 平均 4 / 最小 3 / 最大 5 ms\n\n",
        "- 223.5.5.5（阿里 DNS）：收到 4/4 个应答，丢包 0.0%，平均 4.0ms（最小 3 / 最大 5ms）\n",
        "- 119.29.29.29（DNSPod）：收到 0/4 个应答，丢包 100%（TCP 采样：采样成功 4/4，丢包 0%，时延 平均 4 / 最小 3 / 最大 5 ms）\n",
        "- 8.8.8.8（Google DNS）：收到 0/4 个应答，丢包 100%（TCP 采样：不可达）\n",
        "- 9.9.9.9（Quad9）：收到 0/4 个应答，丢包 100%\n",
        "- 目标 1.2.3.4：收到 2/4 个应答，丢包 50.0%，平均 4.0ms（最小 3 / 最大 5ms）\n",
        "- 端到端 TCP 采样（目标 1.2.3.4 :80）：采样成功 4/4，丢包 0%，时延 平均 4 / 最小 3 / 最大 5 ms\n\n## 4. DNS 解析（域名 www.baidu.com）\n- 系统解析器：成功 -> 7.7.7.7, 6.6.6.6\n",
        "- 223.5.5.5（阿里 DNS）：成功，18ms -> 7.7.7.7\n- 223.5.5.5（阿里 DNS）：失败（应答报文过短）\n- 223.5.5.5（阿里 DNS）：失败（未知错误）\n\n",
        "## 5. 逐跳链路探测\n| 跳数 | 节点地址 | 应答/发出 | 丢包率 | 时延 平均/最小/最大 (ms) |\n|---|---|---|---|---|\n| 1 | 10.0.0.1 | 6/8 | 25% | 2.0 / 1 / 3 |\n| 2 | * | 0/8 | 100% | - |\n\n",
        "- captive.apple.com：HTTP 200，耗时 40ms\n  - 备注：不符\n\n",
        "## 7. 诊断结论\n- [正常] 本机网络接口：好\n- [异常] DNS 解析：坏\n  - 建议：换\n\n**瓶颈定位：DNS**\n\n---\n",
    ] {
        assert!(t.contains(line), "{}\n---\n{}", line, t);
    }
}

#[test]
fn a_gateway_is_told_as_far_as_it_is_known() {
    let mut s = session();
    s.gateway_addr = Some(Ipv4Addr::new(10, 0, 0, 1));
    assert!(render(&s).contains("- 网关 10.0.0.1：未能探测\n\n"));
    s.gateway = Some(pings(0));
    s.gateway_arp = Some(false);
    assert!(render(&s).contains("丢包 100%\n  - ARP 交叉验证：网关同样无应答\n\n"));
    s.gateway_arp = None;
    assert!(render(&s).contains("- 网关 10.0.0.1：收到 0/4 个应答，丢包 100%\n\n"));
    s.gateway = Some(pings(4));
    s.gateway_arp = Some(true);
    assert!(!render(&s).contains("ARP"));
}

#[test]
fn a_page_without_a_status_is_told_so() {
    let mut s = session();
    s.http = Some(HttpResult {
        host: "h".to_string(),
        connected: false,
        status_code: None,
        elapsed_ms: 0,
        note: String::new(),
    });
    assert!(render(&s).contains("## 6. 应用层 HTTP 连通性\n- h：无有效响应，耗时 0ms\n\n"));
}

#[test]
fn the_conclusion_is_shown() {
    let mut s = session();
    assert_eq!(conclusion(&s), "");
    s.diagnosis = Some(Diagnosis {
        findings: vec![
            finding(Level::Normal, "甲", "好".to_string(), None),
            finding(Level::Warn, "乙", "差".to_string(), Some("看".to_string())),
        ],
        conclusion: "完".to_string(),
    });
    let bar = "=".repeat(62);
    let rule = "-".repeat(62);
    assert_eq!(
        conclusion(&s),
        format!(
            "\n{}\n                         诊断结论\n{}\n  [正常] 甲：好\n  [注意] 乙：差\n         建议：看\n{}\n  >> 完\n{}\n",
            bar, bar, rule, bar
        )
    );
}

#[test]
fn moments_are_written() {
    assert_eq!(seconds_stamp(Some(1700000000)), "1700000000");
    assert_eq!(seconds_stamp(None), "unknown");
    let t = LocalTime { year: 2024, month: 1, day: 2, hour: 3, minute: 4, second: 5 };
    assert_eq!(local_stamp(t), "20240102_030405");
    let t = LocalTime { year: 987, month: 12, day: 31, hour: 23, minute: 59, second: 59 };
    assert_eq!(local_stamp(t), "09871231_235959");
}

#[test]
fn the_present_moment_is_the_time_since_1970() {
    let stamp: u64 = timestamp(None).parse().unwrap();
    let now = std::time::SystemTime::now()
        .duration_since(std::time::UNIX_EPOCH)
        .unwrap()
        .as_secs();
    assert!(stamp <= now && now - stamp < 60);
}

#[test]
fn reports_are_named_by_their_moment() {
    assert_eq!(report_path("20240102_030405"), "网络诊断报告_20240102_030405.md");
    let path = default_report_path(None);
    let stamp = path.strip_prefix("网络诊断报告_").unwrap().strip_suffix(".md").unwrap();
    assert!(stamp.parse::<u64>().unwrap() > 1700000000);
}

#[test]
fn the_local_time_is_written_where_the_system_tells_it() {
    let t = LocalTime { year: 2024, month: 1, day: 2, hour: 3, minute: 4, second: 5 };
    assert_eq!(timestamp(Some(t)), "20240102_030405");
    assert_eq!(default_report_path(Some(t)), "网络诊断报告_20240102_030405.md");
}
