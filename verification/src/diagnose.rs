//! The diagnosis: what all the measurements say together, where the bottleneck
//! is and what to do about it.
//!
//! The network is judged from the bottom up: the adapter, the way to the gateway,
//! the public network, the hops to the target, the quality of sampled
//! connections, DNS and HTTP. Many routers and carriers filter ICMP; lost pings
//! alone therefore prove nothing where other evidence says that the network works.

use crate::addr;
use crate::addr::Ipv4Addr;
use crate::binary64;
use crate::dns::DnsQueryResult;
use crate::env;
use crate::env::AdapterInfo;
use crate::http::HttpResult;
use crate::quality;
use crate::quality::{fmt_quality, QualityStats};
use crate::rounding;
use crate::route;
use crate::route::{analyze_route, is_countable, RouteVerdict};
use crate::text;
use crate::trace;
use crate::trace::{fmt_stats, HopStat, PingStats};
use vstd::prelude::*;

verus! {

/// How serious a finding is.
#[derive(Clone, Copy, Debug, PartialEq, Eq, Structural)]
pub enum Level {
    Normal,
    Warn,
    Error,
}

impl Level {
    /// The mark that stands before a finding of this level.
    pub open spec fn mark(self) -> Seq<char> {
        match self {
            Level::Normal => "[正常]"@,
            Level::Warn => "[注意]"@,
            Level::Error => "[异常]"@,
        }
    }

    /// The mark that stands before a finding of this level.
    pub fn tag(&self) -> (t: &'static str)
        ensures
            t@ == self.mark(),
    {
        match self {
            Level::Normal => "[正常]",
            Level::Warn => "[注意]",
            Level::Error => "[异常]",
        }
    }
}

/// What was found about one part of the network.
#[derive(Clone, Debug)]
pub struct Finding {
    pub level: Level,
    pub segment: String,
    pub detail: String,
    pub suggestion: Option<String>,
}

/// A finding, its strings as sequences.
pub ghost struct Note {
    pub level: Level,
    pub segment: Seq<char>,
    pub detail: Seq<char>,
    pub suggestion: Option<Seq<char>>,
}

impl Finding {
    /// The finding, its strings as sequences.
    pub open spec fn view(&self) -> Note {
        Note {
            level: self.level,
            segment: self.segment@,
            detail: self.detail@,
            suggestion: text::optional(self.suggestion),
        }
    }
}

/// The findings and a conclusion in one sentence.
#[derive(Clone, Debug)]
pub struct Diagnosis {
    pub findings: Vec<Finding>,
    pub conclusion: String,
}

/// A diagnosis, its strings and lists as sequences.
pub ghost struct Opinion {
    pub findings: Seq<Note>,
    pub conclusion: Seq<char>,
}

/// The findings, each by its contents.
pub open spec fn notes(v: Seq<Finding>) -> Seq<Note> {
    v.map_values(|f: Finding| f@)
}

impl Diagnosis {
    /// The diagnosis, its strings and lists as sequences.
    pub open spec fn view(&self) -> Opinion {
        Opinion { findings: notes(self.findings@), conclusion: self.conclusion@ }
    }
}

impl Default for Diagnosis {
    /// No findings and no conclusion.
    fn default() -> (d: Self)
        ensures
            d.findings@.len() == 0,
            d.conclusion@ == Seq::<char>::empty(),
    {
        Diagnosis { findings: Vec::new(), conclusion: String::new() }
    }
}

/// All that a diagnosis rests on.
pub struct Inputs<'a> {
    /// The adapter in use.
    pub adapter: Option<&'a AdapterInfo>,
    pub adapters: &'a [AdapterInfo],
    pub gateway_addr: Option<Ipv4Addr>,
    /// The pings of the gateway.
    pub gateway: Option<&'a PingStats>,
    /// Whether the gateway answered on the link layer.
    pub gateway_arp: Option<bool>,
    /// Public addresses with their names and their pings.
    pub publics: &'a [(Ipv4Addr, &'static str, PingStats)],
    /// Sampled connections to the public addresses that do not answer pings.
    pub publics_quality: &'a [(Ipv4Addr, QualityStats)],
    /// Sampled connections to the gateway.
    pub gateway_quality: Option<&'a QualityStats>,
    /// Sampled connections to the target.
    pub target_quality: Option<&'a QualityStats>,
    pub target: Ipv4Addr,
    /// The pings of the target.
    pub target_stats: Option<&'a PingStats>,
    pub dns: &'a [DnsQueryResult],
    pub dns_domain: &'a str,
    /// What the resolver of the system answered.
    pub system_dns: &'a Option<Vec<Ipv4Addr>>,
    pub hops: &'a [HopStat],
    pub http: Option<&'a HttpResult>,
}

/// All that a diagnosis rests on, its lists and texts as sequences.
pub ghost struct Evidence {
    pub adapter: Option<AdapterInfo>,
    pub gateway_addr: Option<Ipv4Addr>,
    pub gateway: Option<PingStats>,
    pub gateway_arp: Option<bool>,
    pub publics: Seq<(Ipv4Addr, &'static str, PingStats)>,
    pub publics_quality: Seq<(Ipv4Addr, QualityStats)>,
    pub gateway_quality: Option<QualityStats>,
    pub target_quality: Option<QualityStats>,
    pub target: Ipv4Addr,
    pub target_stats: Option<PingStats>,
    pub dns: Seq<DnsQueryResult>,
    pub dns_domain: Seq<char>,
    pub system_dns: Option<Seq<Ipv4Addr>>,
    pub hops: Seq<HopStat>,
    pub http: Option<HttpResult>,
}

/// What a reference that may be missing refers to.
pub open spec fn referred<T>(x: Option<&T>) -> Option<T> {
    match x {
        Some(v) => Some(*v),
        None => None,
    }
}

/// The contents of a list of addresses that may be missing.
pub open spec fn listed(v: Option<Vec<Ipv4Addr>>) -> Option<Seq<Ipv4Addr>> {
    match v {
        Some(v) => Some(v@),
        None => None,
    }
}

impl<'a> Inputs<'a> {
    /// What the diagnosis rests on, its lists and texts as sequences.
    pub open spec fn view(&self) -> Evidence {
        Evidence {
            adapter: referred(self.adapter),
            gateway_addr: self.gateway_addr,
            gateway: referred(self.gateway),
            gateway_arp: self.gateway_arp,
            publics: self.publics@,
            publics_quality: self.publics_quality@,
            gateway_quality: referred(self.gateway_quality),
            target_quality: referred(self.target_quality),
            target: self.target,
            target_stats: referred(self.target_stats),
            dns: self.dns@,
            dns_domain: self.dns_domain@,
            system_dns: listed(*self.system_dns),
            hops: self.hops@,
            http: referred(self.http),
        }
    }
}

/// A finding without a suggestion.
pub open spec fn plain(level: Level, segment: Seq<char>, detail: Seq<char>) -> Note {
    Note { level, segment, detail, suggestion: None }
}

/// A finding with a suggestion.
pub open spec fn advised(
    level: Level,
    segment: Seq<char>,
    detail: Seq<char>,
    suggestion: Seq<char>,
) -> Note {
    Note { level, segment, detail, suggestion: Some(suggestion) }
}

/// Makes a finding.
pub fn finding(level: Level, segment: &str, detail: String, suggestion: Option<String>) -> (r:
    Finding)
    ensures
        r@ == (Note {
            level,
            segment: segment@,
            detail: detail@,
            suggestion: text::optional(suggestion),
        }),
{
    Finding { level, segment: segment.to_string(), detail, suggestion }
}

// ---- evidence ----

/// How many of the public addresses answered pings.
pub open spec fn pinged(publics: Seq<(Ipv4Addr, &'static str, PingStats)>) -> nat
    decreases publics.len(),
{
    if publics.len() == 0 {
        0
    } else {
        pinged(publics.drop_last()) + if publics.last().2.received > 0 {
            1nat
        } else {
            0nat
        }
    }
}

/// How many of the sampled addresses accepted or refused a connection.
pub open spec fn connected(samples: Seq<(Ipv4Addr, QualityStats)>) -> nat
    decreases samples.len(),
{
    if samples.len() == 0 {
        0
    } else {
        connected(samples.drop_last()) + if samples.last().1.succeeded > 0 {
            1nat
        } else {
            0nat
        }
    }
}

/// Some sampled connection shows that `x` is there.
pub open spec fn sampled_at(samples: Seq<(Ipv4Addr, QualityStats)>, x: Ipv4Addr) -> bool {
    exists|k: int|
        #![trigger samples[k]]
        0 <= k < samples.len() && samples[k].0 == x && samples[k].1.succeeded > 0
}

/// The public address answers pings or connections.
pub open spec fn present(
    p: (Ipv4Addr, &'static str, PingStats),
    samples: Seq<(Ipv4Addr, QualityStats)>,
) -> bool {
    p.2.received > 0 || sampled_at(samples, p.0)
}

/// How many of the public addresses answer pings or connections.
pub open spec fn present_count(
    publics: Seq<(Ipv4Addr, &'static str, PingStats)>,
    samples: Seq<(Ipv4Addr, QualityStats)>,
) -> nat
    decreases publics.len(),
{
    if publics.len() == 0 {
        0
    } else {
        present_count(publics.drop_last(), samples) + if present(publics.last(), samples) {
            1nat
        } else {
            0nat
        }
    }
}

/// The public addresses that answer neither, with their names.
pub open spec fn absent(
    publics: Seq<(Ipv4Addr, &'static str, PingStats)>,
    samples: Seq<(Ipv4Addr, QualityStats)>,
) -> Seq<Seq<char>>
    decreases publics.len(),
{
    if publics.len() == 0 {
        Seq::empty()
    } else {
        let init = absent(publics.drop_last(), samples);
        let p = publics.last();
        if present(p, samples) {
            init
        } else {
            init.push(p.0.text() + " ("@ + p.1@ + ")"@)
        }
    }
}

impl Evidence {
    /// How many of the public addresses answer.
    pub open spec fn reachable(self) -> nat {
        present_count(self.publics, self.publics_quality)
    }

    /// The target answers pings.
    pub open spec fn target_answers(self) -> bool {
        self.target_stats matches Some(s) && s.received > 0
    }

    /// A page could be fetched.
    pub open spec fn web_works(self) -> bool {
        self.http matches Some(h) && h.good()
    }

    /// The resolver of the system answered.
    pub open spec fn resolver_works(self) -> bool {
        self.system_dns matches Some(v) && v.len() > 0
    }

    /// Something behind the gateway was reached.
    pub open spec fn beyond(self) -> bool {
        self.reachable() > 0 || self.target_answers() || self.web_works()
    }

    /// Some application could use the network.
    pub open spec fn applications(self) -> bool {
        self.web_works() || some_server(self.dns) || self.resolver_works()
    }

    /// The sampled connections to the gateway, where any succeeded.
    pub open spec fn gateway_samples(self) -> Option<quality::Quality> {
        match self.gateway_quality {
            Some(q) => if q.succeeded > 0 {
                Some(q@)
            } else {
                None
            },
            None => None,
        }
    }
}

/// Some DNS server answered.
pub open spec fn some_server(dns: Seq<DnsQueryResult>) -> bool {
    exists|k: int| 0 <= k < dns.len() && (#[trigger] dns[k]).success
}

/// The DNS servers that answered, with their names.
pub open spec fn servers(dns: Seq<DnsQueryResult>) -> Seq<Seq<char>>
    decreases dns.len(),
{
    if dns.len() == 0 {
        Seq::empty()
    } else {
        let init = servers(dns.drop_last());
        if dns.last().success {
            init.push(dns.last().server.text() + " "@ + dns.last().label@)
        } else {
            init
        }
    }
}

fn count_pinged(publics: &[(Ipv4Addr, &'static str, PingStats)]) -> (n: usize)
    ensures
        n == pinged(publics@),
{
    let mut n: usize = 0;
    let mut i: usize = 0;
    while i < publics.len()
        invariant
            n <= i <= publics@.len(),
            n == pinged(publics@.take(i as int)),
        decreases publics.len() - i,
    {
        assert(publics@.take(i + 1).drop_last() == publics@.take(i as int));
        if publics[i].2.received > 0 {
            n = n + 1;
        }
        i = i + 1;
    }
    assert(publics@.take(i as int) == publics@);
    n
}

fn count_connected(samples: &[(Ipv4Addr, QualityStats)]) -> (n: usize)
    ensures
        n == connected(samples@),
{
    let mut n: usize = 0;
    let mut i: usize = 0;
    while i < samples.len()
        invariant
            n <= i <= samples@.len(),
            n == connected(samples@.take(i as int)),
        decreases samples.len() - i,
    {
        assert(samples@.take(i + 1).drop_last() == samples@.take(i as int));
        if samples[i].1.succeeded > 0 {
            n = n + 1;
        }
        i = i + 1;
    }
    assert(samples@.take(i as int) == samples@);
    n
}

fn is_sampled_at(samples: &[(Ipv4Addr, QualityStats)], x: Ipv4Addr) -> (r: bool)
    ensures
        r == sampled_at(samples@, x),
{
    let mut i: usize = 0;
    while i < samples.len()
        invariant
            i <= samples@.len(),
            forall|k: int|
                #![trigger samples@[k]]
                0 <= k < i ==> !(samples@[k].0 == x && samples@[k].1.succeeded > 0),
        decreases samples.len() - i,
    {
        if samples[i].0 == x && samples[i].1.succeeded > 0 {
            return true;
        }
        i = i + 1;
    }
    false
}

fn count_present(
    publics: &[(Ipv4Addr, &'static str, PingStats)],
    samples: &[(Ipv4Addr, QualityStats)],
) -> (n: usize)
    ensures
        n == present_count(publics@, samples@),
{
    let mut n: usize = 0;
    let mut i: usize = 0;
    while i < publics.len()
        invariant
            n <= i <= publics@.len(),
            n == present_count(publics@.take(i as int), samples@),
        decreases publics.len() - i,
    {
        assert(publics@.take(i + 1).drop_last() == publics@.take(i as int));
        if publics[i].2.received > 0 || is_sampled_at(samples, publics[i].0) {
            n = n + 1;
        }
        i = i + 1;
    }
    assert(publics@.take(i as int) == publics@);
    n
}

fn list_absent(
    publics: &[(Ipv4Addr, &'static str, PingStats)],
    samples: &[(Ipv4Addr, QualityStats)],
) -> (v: Vec<String>)
    ensures
        text::contents(v@) == absent(publics@, samples@),
{
    let mut v: Vec<String> = Vec::new();
    let mut i: usize = 0;
    while i < publics.len()
        invariant
            i <= publics@.len(),
            text::contents(v@) == absent(publics@.take(i as int), samples@),
        decreases publics.len() - i,
    {
        assert(publics@.take(i + 1).drop_last() == publics@.take(i as int));
        if !(publics[i].2.received > 0 || is_sampled_at(samples, publics[i].0)) {
            let mut t = publics[i].0.to_text();
            t.append(" (");
            t.append(publics[i].1);
            t.append(")");
            assert(text::contents(v@.push(t)) == text::contents(v@).push(t@));
            v.push(t);
        }
        i = i + 1;
    }
    assert(publics@.take(i as int) == publics@);
    v
}

fn list_servers(dns: &[DnsQueryResult]) -> (v: Vec<String>)
    ensures
        text::contents(v@) == servers(dns@),
        v@.len() > 0 <==> some_server(dns@),
{
    let mut v: Vec<String> = Vec::new();
    let mut i: usize = 0;
    while i < dns.len()
        invariant
            i <= dns@.len(),
            text::contents(v@) == servers(dns@.take(i as int)),
            v@.len() > 0 ==> some_server(dns@),
            v@.len() == 0 ==> forall|k: int| 0 <= k < i ==> !(#[trigger] dns@[k]).success,
        decreases dns.len() - i,
    {
        assert(dns@.take(i + 1).drop_last() == dns@.take(i as int));
        if dns[i].success {
            let mut t = dns[i].server.to_text();
            t.append(" ");
            t.append(dns[i].label.as_str());
            assert(text::contents(v@.push(t)) == text::contents(v@).push(t@));
            v.push(t);
        }
        i = i + 1;
    }
    assert(dns@.take(i as int) == dns@);
    v
}

// ---- the stages ----

/// A stage that may end the diagnosis: its finding, the conclusion where it ends
/// here, and whether the way to the gateway may be counted as working.
pub ghost struct Stage {
    pub note: Note,
    pub stop: Option<Seq<char>>,
    pub ok: bool,
}

/// A stage that does not end the diagnosis: its findings, and what it blames.
pub ghost struct Part {
    pub notes: Seq<Note>,
    pub blame: Option<Seq<char>>,
}

struct Step {
    finding: Finding,
    stop: Option<String>,
    ok: bool,
}

struct Piece {
    findings: Vec<Finding>,
    blame: Option<String>,
}

impl Step {
    spec fn view(&self) -> Stage {
        Stage { note: self.finding@, stop: text::optional(self.stop), ok: self.ok }
    }

    fn go_on(level: Level, segment: &str, detail: String, suggestion: Option<String>, ok: bool) -> (r:
        Self)
        ensures
            r@ == (Stage {
                note: Note {
                    level,
                    segment: segment@,
                    detail: detail@,
                    suggestion: text::optional(suggestion),
                },
                stop: None,
                ok,
            }),
    {
        Step { finding: finding(level, segment, detail, suggestion), stop: None, ok }
    }

    fn halt(segment: &str, detail: String, suggestion: &str, conclusion: String) -> (r: Self)
        ensures
            r@ == (Stage {
                note: advised(Level::Error, segment@, detail@, suggestion@),
                stop: Some(conclusion@),
                ok: false,
            }),
    {
        Step {
            finding: finding(Level::Error, segment, detail, Some(suggestion.to_string())),
            stop: Some(conclusion),
            ok: false,
        }
    }
}

impl Piece {
    spec fn view(&self) -> Part {
        Part { notes: notes(self.findings@), blame: text::optional(self.blame) }
    }

    fn empty() -> (r: Self)
        ensures
            r@ == nothing(),
    {
        let r = Piece { findings: Vec::new(), blame: None };
        assert(notes(r.findings@) == Seq::<Note>::empty());
        r
    }

    fn one(f: Finding, blame: Option<String>) -> (r: Self)
        ensures
            r@ == (Part { notes: seq![f@], blame: text::optional(blame) }),
    {
        let mut findings: Vec<Finding> = Vec::new();
        findings.push(f);
        assert(notes(findings@) == seq![f@]);
        Piece { findings, blame }
    }
}

/// No findings.
pub open spec fn nothing() -> Part {
    Part { notes: Seq::empty(), blame: None }
}

/// One finding, nothing to blame.
pub open spec fn harmless(note: Note) -> Part {
    Part { notes: seq![note], blame: None }
}

/// One finding that is to blame.
pub open spec fn blaming(note: Note, blame: Seq<char>) -> Part {
    Part { notes: seq![note], blame: Some(blame) }
}

/// What is found of the adapter in use.
pub open spec fn adapter_note(a: env::Adapter) -> Note {
    let (ip, prefix) = match a.ipv4 {
        Some(p) => p,
        None => (Ipv4Addr { a: 0, b: 0, c: 0, d: 0 }, 0u8),
    };
    plain(
        Level::Normal,
        "本机网络接口"@,
        "适配器 \""@ + env::shown_name(a) + "\"（"@ + a.kind + "）已获得 IPv4 "@ + ip.text() + "/"@
            + text::dec(prefix as nat),
    )
}

fn judge_adapter(a: &AdapterInfo) -> (f: Finding)
    ensures
        f@ == adapter_note(a@),
{
    let (ip, prefix) = match a.ipv4 {
        Some(p) => p,
        None => (Ipv4Addr::unspecified(), 0u8),
    };
    let mut t = "适配器 \"".to_string();
    t.append(a.friendly_name());
    t.append("\"（");
    t.append(a.kind.as_str());
    t.append("）已获得 IPv4 ");
    t.append(ip.to_text().as_str());
    t.append("/");
    t.append(text::decimal(prefix as u128).as_str());
    finding(Level::Normal, "本机网络接口", t, None)
}

/// The diagnosis without a usable adapter.
pub open spec fn no_adapter() -> Opinion {
    Opinion {
        findings: seq![
            advised(
                Level::Error,
                "本机网络接口"@,
                "未找到处于工作状态、拥有 IPv4 地址的网络适配器"@,
                "检查网线是否插好 / Wi-Fi 是否已连接；在 设置 → 网络和 Internet → 高级网络设置 中查看被禁用的适配器并启用"@,
            ),
        ],
        conclusion: "瓶颈定位：本机网络接口层 —— 没有可用的网络连接，链路诊断无法继续。"@,
    }
}

/// What is found of a gateway that answers no ping.
pub open spec fn silent_gateway(inp: Evidence, gw: Ipv4Addr, s: trace::Pings) -> Stage {
    if inp.gateway_arp == Some(true) || inp.beyond() {
        Stage {
            note: advised(
                Level::Warn,
                "本机→网关"@,
                if inp.gateway_arp == Some(true) {
                    "网关 "@ + gw.text() + " 不响应 ICMP ping（"@ + text::dec(s.sent)
                        + " 个探测全部丢失），但 ARP 显示网关在链路层在线"@
                } else {
                    "网关 "@ + gw.text() + " 的 ICMP 探测全部丢失，但网关之后的公网可达，链路实际是通的"@
                },
                "这通常是路由器禁用了 ICMP 应答或做了限速，不影响上网，无需处理"@,
            ),
            stop: None,
            ok: true,
        }
    } else {
        Stage {
            note: advised(
                Level::Error,
                "本机→网关"@,
                "网关 "@ + gw.text() + " 完全不可达（"@ + text::dec(s.sent)
                    + " 个 ICMP 探测全部丢失，ARP 也无应答）"@,
                "检查网线 / Wi-Fi 连接状态与路由器电源；Wi-Fi 用户尝试重连或靠近路由器、更换信道；仍不行则重启光猫和路由器"@,
            ),
            stop: Some(
                "瓶颈定位：本地网络段（本机→网关 "@ + gw.text()
                    + "）。ICMP 与 ARP 均无法到达网关，问题几乎一定出在本地网络环境（信号、网线、路由器）。"@,
            ),
            ok: false,
        }
    }
}

/// What is found of a gateway that answers pings.
pub open spec fn talking_gateway(inp: Evidence, gw: Ipv4Addr, s: trace::Pings) -> Stage {
    let loss = trace::loss(s.sent, s.received);
    if loss > 5 * rounding::one() || s.avg > 50 * rounding::one() {
        if inp.beyond() {
            Stage {
                note: advised(
                    Level::Warn,
                    "本机→网关"@,
                    "网关 ICMP 探测质量不佳："@ + trace::stats_text(s)
                        + "，但网关之后的公网可达（可能是路由器 ICMP 限速）"@,
                    "若实际上网体验正常可忽略；否则检查 Wi-Fi 信号、网线与路由器负载"@,
                ),
                stop: None,
                ok: true,
            }
        } else {
            Stage {
                note: advised(
                    Level::Error,
                    "本机→网关"@,
                    "到网关的链路质量差："@ + trace::stats_text(s),
                    "本地链路质量问题：Wi-Fi 信号弱 / 干扰大、网线或水晶头接触不良、路由器负载过高。建议改用有线或更换 5GHz 频段、靠近路由器、重启路由器"@,
                ),
                stop: Some(
                    "瓶颈定位：本地网络段（本机→网关 "@ + gw.text() + "），丢包 "@ + binary64::fixed1(loss)
                        + "%、平均时延 "@ + binary64::fixed0(s.avg) + "ms，瓶颈在本地链路。"@,
                ),
                ok: false,
            }
        }
    } else {
        Stage {
            note: plain(
                Level::Normal,
                "本机→网关"@,
                "网关 "@ + gw.text() + " 连通良好："@ + trace::stats_text(s),
            ),
            stop: None,
            ok: true,
        }
    }
}

/// What is found of the way to the gateway.
pub open spec fn gateway_stage(inp: Evidence) -> Stage {
    match (inp.gateway_addr, inp.gateway) {
        (None, _) => Stage {
            note: advised(
                Level::Error,
                "本地网络配置"@,
                "网卡没有默认网关，流量无法离开本机"@,
                "将 IPv4 设为自动获取（DHCP）；若使用静态 IP 请补全网关配置；然后重启网卡或路由器重试"@,
            ),
            stop: Some("瓶颈定位：本地网络配置 —— 缺少默认网关，流量无法离开本机。"@),
            ok: false,
        },
        (Some(gw), None) => Stage {
            note: advised(
                Level::Error,
                "本机→网关"@,
                "无法初始化 ICMP 检测（网关 "@ + gw.text() + " 未探测）"@,
                "请确认系统 ICMP 组件可用，或稍后重试"@,
            ),
            stop: None,
            ok: false,
        },
        (Some(gw), Some(s)) => if s.received == 0 {
            silent_gateway(inp, gw, s@)
        } else {
            talking_gateway(inp, gw, s@)
        },
    }
}

fn judge_silent_gateway(inp: &Inputs, gw: Ipv4Addr, s: &PingStats, beyond: bool) -> (r: Step)
    requires
        beyond == inp@.beyond(),
    ensures
        r@ == silent_gateway(inp@, gw, s@),
{
    let arp = match inp.gateway_arp {
        Some(b) => b,
        None => false,
    };
    if arp || beyond {
        let mut t = "网关 ".to_string();
        t.append(gw.to_text().as_str());
        if arp {
            t.append(" 不响应 ICMP ping（");
            t.append(text::decimal(s.sent as u128).as_str());
            t.append(" 个探测全部丢失），但 ARP 显示网关在链路层在线");
        } else {
            t.append(" 的 ICMP 探测全部丢失，但网关之后的公网可达，链路实际是通的");
        }
        Step::go_on(
            Level::Warn,
            "本机→网关",
            t,
            Some("这通常是路由器禁用了 ICMP 应答或做了限速，不影响上网，无需处理".to_string()),
            true,
        )
    } else {
        let mut t = "网关 ".to_string();
        t.append(gw.to_text().as_str());
        t.append(" 完全不可达（");
        t.append(text::decimal(s.sent as u128).as_str());
        t.append(" 个 ICMP 探测全部丢失，ARP 也无应答）");
        let mut c = "瓶颈定位：本地网络段（本机→网关 ".to_string();
        c.append(gw.to_text().as_str());
        c.append("）。ICMP 与 ARP 均无法到达网关，问题几乎一定出在本地网络环境（信号、网线、路由器）。");
        Step::halt(
            "本机→网关",
            t,
            "检查网线 / Wi-Fi 连接状态与路由器电源；Wi-Fi 用户尝试重连或靠近路由器、更换信道；仍不行则重启光猫和路由器",
            c,
        )
    }
}

fn judge_talking_gateway(inp: &Inputs, gw: Ipv4Addr, s: &PingStats, beyond: bool) -> (r: Step)
    requires
        beyond == inp@.beyond(),
        s.wf(),
    ensures
        r@ == talking_gateway(inp@, gw, s@),
{
    let loss = s.loss_pct();
    if loss.exceeds(5) || s.avg_ms.exceeds(50) {
        if beyond {
            let mut t = "网关 ICMP 探测质量不佳：".to_string();
            t.append(fmt_stats(s).as_str());
            t.append("，但网关之后的公网可达（可能是路由器 ICMP 限速）");
            Step::go_on(
                Level::Warn,
                "本机→网关",
                t,
                Some("若实际上网体验正常可忽略；否则检查 Wi-Fi 信号、网线与路由器负载".to_string()),
                true,
            )
        } else {
            let mut t = "到网关的链路质量差：".to_string();
            t.append(fmt_stats(s).as_str());
            let mut c = "瓶颈定位：本地网络段（本机→网关 ".to_string();
            c.append(gw.to_text().as_str());
            c.append("），丢包 ");
            c.append(loss.fixed1().as_str());
            c.append("%、平均时延 ");
            c.append(s.avg_ms.fixed0().as_str());
            c.append("ms，瓶颈在本地链路。");
            Step::halt(
                "本机→网关",
                t,
                "本地链路质量问题：Wi-Fi 信号弱 / 干扰大、网线或水晶头接触不良、路由器负载过高。建议改用有线或更换 5GHz 频段、靠近路由器、重启路由器",
                c,
            )
        }
    } else {
        let mut t = "网关 ".to_string();
        t.append(gw.to_text().as_str());
        t.append(" 连通良好：");
        t.append(fmt_stats(s).as_str());
        Step::go_on(Level::Normal, "本机→网关", t, None, true)
    }
}

fn judge_gateway(inp: &Inputs, beyond: bool) -> (r: Step)
    requires
        beyond == inp@.beyond(),
        inp.gateway_addr is Some ==> (inp.gateway matches Some(s) ==> s.wf()),
    ensures
        r@ == gateway_stage(inp@),
{
    match (inp.gateway_addr, inp.gateway) {
        (None, _) => Step::halt(
            "本地网络配置",
            "网卡没有默认网关，流量无法离开本机".to_string(),
            "将 IPv4 设为自动获取（DHCP）；若使用静态 IP 请补全网关配置；然后重启网卡或路由器重试",
            "瓶颈定位：本地网络配置 —— 缺少默认网关，流量无法离开本机。".to_string(),
        ),
        (Some(gw), None) => {
            let mut t = "无法初始化 ICMP 检测（网关 ".to_string();
            t.append(gw.to_text().as_str());
            t.append(" 未探测）");
            Step::go_on(
                Level::Error,
                "本机→网关",
                t,
                Some("请确认系统 ICMP 组件可用，或稍后重试".to_string()),
                false,
            )
        },
        (Some(gw), Some(s)) => if s.received == 0 {
            judge_silent_gateway(inp, gw, s, beyond)
        } else {
            judge_talking_gateway(inp, gw, s, beyond)
        },
    }
}

/// What is found of the public network.
pub open spec fn public_stage(inp: Evidence, gateway_ok: bool) -> Stage {
    if inp.reachable() == 0 && gateway_ok && !inp.applications() {
        Stage {
            note: advised(
                Level::Error,
                "运营商接入链路"@,
                "网关正常，但所有公网地址均不可达（ICMP 与 TCP 均失败）"@,
                "本地网络到公网中断：检查光猫指示灯（LOS 红灯通常为光纤故障）、重启光猫与路由器；仍不行请联系运营商报修"@,
            ),
            stop: Some("瓶颈定位：运营商接入链路 —— 本机与网关正常，但无法到达任何公网地址，疑似宽带断网或运营商侧故障。"@),
            ok: false,
        }
    } else {
        Stage {
            note: if pinged(inp.publics) == 0 && gateway_ok && (connected(inp.publics_quality) > 0
                || inp.applications()) {
                advised(
                    Level::Warn,
                    "公网可达性"@,
                    "所有公网 ICMP 探测丢失，但 TCP 连接 / HTTP / DNS 验证公网实际可达"@,
                    "当前网络屏蔽了 ICMP（ping）流量，属路由器或运营商的过滤策略，不影响上网，无需处理"@,
                )
            } else if inp.reachable() < inp.publics.len() {
                plain(
                    Level::Warn,
                    "公网可达性"@,
                    "部分公网地址不可达："@ + text::joined(
                        absent(inp.publics, inp.publics_quality),
                        "、"@,
                    ),
                )
            } else {
                plain(
                    Level::Normal,
                    "公网可达性"@,
                    "全部 "@ + text::dec(inp.reachable()) + " 个公网地址可达"@,
                )
            },
            stop: None,
            ok: true,
        }
    }
}

fn judge_publics(inp: &Inputs, gateway_ok: bool, reachable: usize, applications: bool) -> (r: Step)
    requires
        reachable == inp@.reachable(),
        applications == inp@.applications(),
    ensures
        r@ == public_stage(inp@, gateway_ok),
{
    if reachable == 0 && gateway_ok && !applications {
        return Step::halt(
            "运营商接入链路",
            "网关正常，但所有公网地址均不可达（ICMP 与 TCP 均失败）".to_string(),
            "本地网络到公网中断：检查光猫指示灯（LOS 红灯通常为光纤故障）、重启光猫与路由器；仍不行请联系运营商报修",
            "瓶颈定位：运营商接入链路 —— 本机与网关正常，但无法到达任何公网地址，疑似宽带断网或运营商侧故障。".to_string(),
        );
    }
    if count_pinged(inp.publics) == 0 && gateway_ok && (count_connected(inp.publics_quality) > 0
        || applications) {
        Step::go_on(
            Level::Warn,
            "公网可达性",
            "所有公网 ICMP 探测丢失，但 TCP 连接 / HTTP / DNS 验证公网实际可达".to_string(),
            Some(
                "当前网络屏蔽了 ICMP（ping）流量，属路由器或运营商的过滤策略，不影响上网，无需处理".to_string(),
            ),
            true,
        )
    } else if reachable < inp.publics.len() {
        let failed = list_absent(inp.publics, inp.publics_quality);
        let mut t = "部分公网地址不可达：".to_string();
        t.append(text::join(&failed, "、").as_str());
        Step::go_on(Level::Warn, "公网可达性", t, None, true)
    } else {
        let mut t = "全部 ".to_string();
        t.append(text::decimal(reachable as u128).as_str());
        t.append(" 个公网地址可达");
        Step::go_on(Level::Normal, "公网可达性", t, None, true)
    }
}

/// What the hops say.
pub open spec fn route_part(inp: Evidence) -> Part {
    match route::fate(
        inp.hops,
        inp.target_answers(),
        inp.target,
        inp.beyond() || inp.applications(),
    ) {
        route::Fate::Clean(m) => harmless(plain(Level::Normal, "逐跳链路"@, m)),
        route::Fate::Bottleneck(m, s) => blaming(
            advised(Level::Error, "逐跳链路"@, m, s),
            "瓶颈定位："@ + m,
        ),
        route::Fate::Unreachable(m, s) => blaming(
            advised(Level::Error, "逐跳链路"@, m, s),
            "瓶颈定位："@ + m,
        ),
    }
}

fn blame_route(msg: String, suggestion: String) -> (r: Piece)
    ensures
        r@ == blaming(
            advised(Level::Error, "逐跳链路"@, msg@, suggestion@),
            "瓶颈定位："@ + msg@,
        ),
{
    let mut c = "瓶颈定位：".to_string();
    c.append(msg.as_str());
    Piece::one(finding(Level::Error, "逐跳链路", msg, Some(suggestion)), Some(c))
}

fn judge_route(inp: &Inputs, target_answers: bool, evidence: bool) -> (r: Piece)
    requires
        target_answers == inp@.target_answers(),
        evidence == (inp@.beyond() || inp@.applications()),
        target_answers ==> trace::all_wf(inp@.hops),
        route::countable(inp@.hops, target_answers, evidence),
    ensures
        r@ == route_part(inp@),
{
    match analyze_route(inp.hops, target_answers, inp.target, evidence) {
        RouteVerdict::Clean(m) => Piece::one(finding(Level::Normal, "逐跳链路", m, None), None),
        RouteVerdict::Bottleneck { msg, suggestion } => blame_route(msg, suggestion),
        RouteVerdict::Unreachable { msg, suggestion } => blame_route(msg, suggestion),
    }
}

/// What the sampled connections to the gateway say. They are read only beside
/// those to the target.
pub open spec fn local_quality_part(inp: Evidence) -> Part {
    match (inp.target_quality, inp.gateway_samples()) {
        (Some(_), Some(g)) => {
            let loss = quality::loss(g);
            if loss >= 20 * rounding::one() {
                blaming(
                    advised(
                        Level::Error,
                        "网络质量"@,
                        "本地段（本机→网关）TCP 丢包 "@ + binary64::fixed0(loss) + "%（"@
                            + quality::quality_text(g) + "），丢包严重"@,
                        "丢包集中在本地段：Wi-Fi 信号弱/干扰大、网线接触不良或路由器过载。建议改用有线或 5GHz、靠近路由器、重启路由器"@,
                    ),
                    "瓶颈定位：本地网络段 —— 网关段 TCP 采样丢包 "@ + binary64::fixed0(loss)
                        + "%，质量瓶颈在本地链路。"@,
                )
            } else if loss > 5 * rounding::one() {
                harmless(
                    advised(
                        Level::Warn,
                        "网络质量"@,
                        "本地段（本机→网关）TCP 丢包 "@ + binary64::fixed0(loss) + "%，质量偏差"@,
                        "关注 Wi-Fi 信号与路由器负载；若上网体验正常可忽略"@,
                    ),
                )
            } else {
                nothing()
            }
        },
        _ => nothing(),
    }
}

fn judge_local_quality(inp: &Inputs) -> (r: Piece)
    requires
        inp.target_quality is Some ==> (inp.gateway_quality matches Some(q) ==> q.wf()),
    ensures
        r@ == local_quality_part(inp@),
{
    match (inp.target_quality, inp.gateway_quality) {
        (Some(_), Some(g)) => {
            if g.succeeded == 0 {
                return Piece::empty();
            }
            let loss = g.loss_pct();
            if !loss.below(20) {
                let mut t = "本地段（本机→网关）TCP 丢包 ".to_string();
                t.append(loss.fixed0().as_str());
                t.append("%（");
                t.append(fmt_quality(g).as_str());
                t.append("），丢包严重");
                let mut c = "瓶颈定位：本地网络段 —— 网关段 TCP 采样丢包 ".to_string();
                c.append(loss.fixed0().as_str());
                c.append("%，质量瓶颈在本地链路。");
                Piece::one(
                    finding(
                        Level::Error,
                        "网络质量",
                        t,
                        Some(
                            "丢包集中在本地段：Wi-Fi 信号弱/干扰大、网线接触不良或路由器过载。建议改用有线或 5GHz、靠近路由器、重启路由器".to_string(),
                        ),
                    ),
                    Some(c),
                )
            } else if loss.exceeds(5) {
                let mut t = "本地段（本机→网关）TCP 丢包 ".to_string();
                t.append(loss.fixed0().as_str());
                t.append("%，质量偏差");
                Piece::one(
                    finding(
                        Level::Warn,
                        "网络质量",
                        t,
                        Some("关注 Wi-Fi 信号与路由器负载；若上网体验正常可忽略".to_string()),
                    ),
                    None,
                )
            } else {
                Piece::empty()
            }
        },
        _ => Piece::empty(),
    }
}

/// What heavy loss on the way to the target says; `local_fine` where the gateway
/// is not the one that loses.
pub open spec fn heavy_loss(t: quality::Quality, local_fine: bool) -> Part {
    let loss = quality::loss(t);
    blaming(
        advised(
            Level::Error,
            "网络质量"@,
            "端到端 TCP 丢包 "@ + binary64::fixed0(loss) + "%（"@ + quality::quality_text(t) + "）"@
                + if local_fine {
                "，而本地段质量良好，丢包发生在网关之后"@
            } else {
                ""@
            },
            if local_fine {
                "丢包在运营商网络或目标侧：建议联系运营商报修并附上本报告；若只有特定目标丢包，也可能是对方服务器繁忙"@
            } else {
                "整体丢包严重：先排除本地段问题（Wi-Fi/路由器），再联系运营商"@
            },
        ),
        "瓶颈定位："@ + (if local_fine {
            "运营商网络/目标侧"@
        } else {
            "链路丢包严重"@
        }) + " —— 端到端 TCP 采样丢包 "@ + binary64::fixed0(loss) + "%。"@,
    )
}

/// What round trips say where little is lost.
pub open spec fn round_trip_note(g: quality::Quality, t: quality::Quality) -> Note {
    if binary64::rises(g.avg, t.avg) {
        advised(
            Level::Warn,
            "网络质量"@,
            "时延主要在网关之后产生：本地段 "@ + binary64::fixed0(g.avg) + "ms → 端到端 "@
                + binary64::fixed0(t.avg) + "ms"@,
            "额外时延来自运营商网络或目标侧；若影响体验可向运营商反馈"@,
        )
    } else {
        plain(
            Level::Normal,
            "网络质量"@,
            "TCP 采样质量良好：本地段丢包 "@ + binary64::fixed0(quality::loss(g)) + "%、端到端丢包 "@
                + binary64::fixed0(quality::loss(t)) + "%，端到端时延 "@ + binary64::fixed0(t.avg)
                + "ms"@,
        )
    }
}

/// What the sampled connections to the target say.
pub open spec fn end_quality_part(inp: Evidence) -> Part {
    match inp.target_quality {
        None => nothing(),
        Some(t) => {
            let loss = quality::loss(t@);
            if loss >= 20 * rounding::one() {
                heavy_loss(
                    t@,
                    match inp.gateway_samples() {
                        Some(g) => quality::loss(g) < 5 * rounding::one(),
                        None => true,
                    },
                )
            } else if loss >= 5 * rounding::one() {
                harmless(
                    advised(
                        Level::Warn,
                        "网络质量"@,
                        "端到端 TCP 丢包 "@ + binary64::fixed0(loss) + "%，质量偏差"@,
                        "间歇性丢包：若感知明显，建议在问题高发时段重新采样并联系运营商"@,
                    ),
                )
            } else {
                match inp.gateway_samples() {
                    Some(g) => harmless(round_trip_note(g, t@)),
                    None => if t.succeeded > 0 {
                        harmless(
                            plain(
                                Level::Normal,
                                "网络质量"@,
                                "端到端 TCP 采样质量良好：丢包 "@ + binary64::fixed0(loss) + "%，时延 "@
                                    + binary64::fixed0(t.avg_ms@) + "ms（本地段以 ICMP 统计为准）"@,
                            ),
                        )
                    } else {
                        nothing()
                    },
                }
            }
        },
    }
}

fn judge_heavy_loss(t: &QualityStats, local_fine: bool) -> (r: Piece)
    requires
        t.wf(),
    ensures
        r@ == heavy_loss(t@, local_fine),
{
    let loss = t.loss_pct();
    let mut m = "端到端 TCP 丢包 ".to_string();
    m.append(loss.fixed0().as_str());
    m.append("%（");
    m.append(fmt_quality(t).as_str());
    m.append("）");
    m.append(
        if local_fine {
            "，而本地段质量良好，丢包发生在网关之后"
        } else {
            ""
        },
    );
    let advice = if local_fine {
        "丢包在运营商网络或目标侧：建议联系运营商报修并附上本报告；若只有特定目标丢包，也可能是对方服务器繁忙"
    } else {
        "整体丢包严重：先排除本地段问题（Wi-Fi/路由器），再联系运营商"
    };
    let mut c = "瓶颈定位：".to_string();
    c.append(
        if local_fine {
            "运营商网络/目标侧"
        } else {
            "链路丢包严重"
        },
    );
    c.append(" —— 端到端 TCP 采样丢包 ");
    c.append(loss.fixed0().as_str());
    c.append("%。");
    Piece::one(finding(Level::Error, "网络质量", m, Some(advice.to_string())), Some(c))
}

fn judge_round_trips(g: &QualityStats, t: &QualityStats) -> (f: Finding)
    requires
        g.wf(),
        t.wf(),
    ensures
        f@ == round_trip_note(g@, t@),
{
    if g.avg_ms.rises_to(t.avg_ms) {
        let mut m = "时延主要在网关之后产生：本地段 ".to_string();
        m.append(g.avg_ms.fixed0().as_str());
        m.append("ms → 端到端 ");
        m.append(t.avg_ms.fixed0().as_str());
        m.append("ms");
        finding(
            Level::Warn,
            "网络质量",
            m,
            Some("额外时延来自运营商网络或目标侧；若影响体验可向运营商反馈".to_string()),
        )
    } else {
        let mut m = "TCP 采样质量良好：本地段丢包 ".to_string();
        m.append(g.loss_pct().fixed0().as_str());
        m.append("%、端到端丢包 ");
        m.append(t.loss_pct().fixed0().as_str());
        m.append("%，端到端时延 ");
        m.append(t.avg_ms.fixed0().as_str());
        m.append("ms");
        finding(Level::Normal, "网络质量", m, None)
    }
}

fn judge_end_quality(inp: &Inputs) -> (r: Piece)
    requires
        inp.target_quality is Some ==> (inp.gateway_quality matches Some(q) ==> q.wf()),
        inp.target_quality matches Some(q) ==> q.wf(),
    ensures
        r@ == end_quality_part(inp@),
{
    let t = match inp.target_quality {
        Some(t) => t,
        None => {
            return Piece::empty();
        },
    };
    let g: Option<&QualityStats> = match inp.gateway_quality {
        Some(q) => if q.succeeded > 0 {
            Some(q)
        } else {
            None
        },
        None => None,
    };
    let loss = t.loss_pct();
    if !loss.below(20) {
        let local_fine = match g {
            Some(q) => q.loss_pct().below(5),
            None => true,
        };
        judge_heavy_loss(t, local_fine)
    } else if !loss.below(5) {
        let mut m = "端到端 TCP 丢包 ".to_string();
        m.append(loss.fixed0().as_str());
        m.append("%，质量偏差");
        Piece::one(
            finding(
                Level::Warn,
                "网络质量",
                m,
                Some("间歇性丢包：若感知明显，建议在问题高发时段重新采样并联系运营商".to_string()),
            ),
            None,
        )
    } else if let Some(q) = g {
        Piece::one(judge_round_trips(q, t), None)
    } else if t.succeeded > 0 {
        let mut m = "端到端 TCP 采样质量良好：丢包 ".to_string();
        m.append(loss.fixed0().as_str());
        m.append("%，时延 ");
        m.append(t.avg_ms.fixed0().as_str());
        m.append("ms（本地段以 ICMP 统计为准）");
        Piece::one(finding(Level::Normal, "网络质量", m, None), None)
    } else {
        Piece::empty()
    }
}

/// What is found of DNS.
pub open spec fn dns_part(inp: Evidence) -> Part {
    if inp.resolver_works() {
        harmless(
            plain(
                Level::Normal,
                "DNS 解析"@,
                "系统解析 "@ + inp.dns_domain + " 正常（"@ + addr::list_text(
                    inp.system_dns->0,
                    ", "@,
                ) + "）"@,
            ),
        )
    } else if some_server(inp.dns) {
        blaming(
            advised(
                Level::Error,
                "DNS 配置"@,
                "系统 DNS 无法解析 "@ + inp.dns_domain + "，但直连公共 DNS（"@ + text::joined(
                    servers(inp.dns),
                    "、"@,
                ) + "）可以解析"@,
                "当前系统配置的 DNS 服务器失效或被阻断。建议把 DNS 改为 223.5.5.5（阿里 DNS）或 119.29.29.29（DNSPod）"@,
            ),
            "瓶颈定位：DNS 配置 —— 系统配置的 DNS 服务器失效，而公共 DNS 可用，网页打不开是 DNS 的问题。"@,
        )
    } else if inp.reachable() > 0 {
        blaming(
            advised(
                Level::Error,
                "DNS 解析"@,
                "所有 DNS 服务器查询 "@ + inp.dns_domain + " 均失败，但 IP 直连公网正常"@,
                "DNS 查询被拦截或污染：更换 DNS 为 223.5.5.5 / 8.8.8.8；检查本机防火墙、安全软件或代理设置；路由器侧也可统一修改 DNS"@,
            ),
            "瓶颈定位：DNS 解析链路 —— 全部 DNS 查询失败，域名无法打开但 IP 直连正常。"@,
        )
    } else {
        harmless(
            plain(
                Level::Warn,
                "DNS 解析"@,
                "DNS 查询失败（当前公网本身不可达，待网络恢复后再验证 DNS）"@,
            ),
        )
    }
}

fn judge_dns(inp: &Inputs, reachable: usize) -> (r: Piece)
    requires
        reachable == inp@.reachable(),
    ensures
        r@ == dns_part(inp@),
{
    if let Some(v) = inp.system_dns {
        if v.len() > 0 {
            let mut t = "系统解析 ".to_string();
            t.append(inp.dns_domain);
            t.append(" 正常（");
            t.append(addr::join(v, ", ").as_str());
            t.append("）");
            return Piece::one(finding(Level::Normal, "DNS 解析", t, None), None);
        }
    }
    let direct = list_servers(inp.dns);
    if direct.len() > 0 {
        let mut t = "系统 DNS 无法解析 ".to_string();
        t.append(inp.dns_domain);
        t.append("，但直连公共 DNS（");
        t.append(text::join(&direct, "、").as_str());
        t.append("）可以解析");
        Piece::one(
            finding(
                Level::Error,
                "DNS 配置",
                t,
                Some(
                    "当前系统配置的 DNS 服务器失效或被阻断。建议把 DNS 改为 223.5.5.5（阿里 DNS）或 119.29.29.29（DNSPod）".to_string(),
                ),
            ),
            Some(
                "瓶颈定位：DNS 配置 —— 系统配置的 DNS 服务器失效，而公共 DNS 可用，网页打不开是 DNS 的问题。".to_string(),
            ),
        )
    } else if reachable > 0 {
        let mut t = "所有 DNS 服务器查询 ".to_string();
        t.append(inp.dns_domain);
        t.append(" 均失败，但 IP 直连公网正常");
        Piece::one(
            finding(
                Level::Error,
                "DNS 解析",
                t,
                Some(
                    "DNS 查询被拦截或污染：更换 DNS 为 223.5.5.5 / 8.8.8.8；检查本机防火墙、安全软件或代理设置；路由器侧也可统一修改 DNS".to_string(),
                ),
            ),
            Some("瓶颈定位：DNS 解析链路 —— 全部 DNS 查询失败，域名无法打开但 IP 直连正常。".to_string()),
        )
    } else {
        Piece::one(
            finding(
                Level::Warn,
                "DNS 解析",
                "DNS 查询失败（当前公网本身不可达，待网络恢复后再验证 DNS）".to_string(),
                None,
            ),
            None,
        )
    }
}

/// What is found of HTTP.
pub open spec fn http_part(inp: Evidence) -> Part {
    match inp.http {
        None => nothing(),
        Some(h) => if h.good() {
            let told = "访问 "@ + h.host@ + " 成功（HTTP "@ + text::dec(h.status_code->0 as nat)
                + "），总耗时 "@ + text::dec(h.elapsed_ms as nat) + "ms"@;
            harmless(
                if h.note@.len() == 0 {
                    plain(Level::Normal, "应用层 HTTP"@, told)
                } else {
                    advised(
                        Level::Warn,
                        "应用层 HTTP"@,
                        told + "；"@ + h.note@,
                        "若打开网页仍被跳转到认证页，请完成网络认证（如校园网 / 酒店 Wi-Fi 登录）"@,
                    )
                },
            )
        } else if inp.reachable() > 0 {
            blaming(
                advised(
                    Level::Error,
                    "应用层 HTTP"@,
                    "IP 层连通但 HTTP 访问 "@ + h.host@ + " 失败（"@ + (if h.note@.len() == 0 {
                        "未获得有效响应"@
                    } else {
                        h.note@
                    }) + "）"@,
                    "检查系统代理设置（设置 → 网络和 Internet → 代理）、防火墙 / 安全软件拦截，或确认所在网络是否需要网页认证"@,
                ),
                "瓶颈定位：应用层 / 代理配置 —— 网络链路正常但 HTTP 请求失败，多为代理、防火墙或 Web 认证问题。"@,
            )
        } else {
            nothing()
        },
    }
}

fn judge_http(inp: &Inputs, reachable: usize) -> (r: Piece)
    requires
        reachable == inp@.reachable(),
    ensures
        r@ == http_part(inp@),
{
    let h = match inp.http {
        Some(h) => h,
        None => {
            return Piece::empty();
        },
    };
    if h.ok() {
        let code: u16 = match h.status_code {
            Some(c) => c,
            None => 0,
        };
        let mut t = "访问 ".to_string();
        t.append(h.host.as_str());
        t.append(" 成功（HTTP ");
        t.append(text::decimal(code as u128).as_str());
        t.append("），总耗时 ");
        t.append(text::decimal(h.elapsed_ms as u128).as_str());
        t.append("ms");
        if h.note.as_str().is_empty() {
            Piece::one(finding(Level::Normal, "应用层 HTTP", t, None), None)
        } else {
            t.append("；");
            t.append(h.note.as_str());
            Piece::one(
                finding(
                    Level::Warn,
                    "应用层 HTTP",
                    t,
                    Some("若打开网页仍被跳转到认证页，请完成网络认证（如校园网 / 酒店 Wi-Fi 登录）".to_string()),
                ),
                None,
            )
        }
    } else if reachable > 0 {
        let mut t = "IP 层连通但 HTTP 访问 ".to_string();
        t.append(h.host.as_str());
        t.append(" 失败（");
        t.append(
            if h.note.as_str().is_empty() {
                "未获得有效响应"
            } else {
                h.note.as_str()
            },
        );
        t.append("）");
        Piece::one(
            finding(
                Level::Error,
                "应用层 HTTP",
                t,
                Some(
                    "检查系统代理设置（设置 → 网络和 Internet → 代理）、防火墙 / 安全软件拦截，或确认所在网络是否需要网页认证".to_string(),
                ),
            ),
            Some(
                "瓶颈定位：应用层 / 代理配置 —— 网络链路正常但 HTTP 请求失败，多为代理、防火墙或 Web 认证问题。".to_string(),
            ),
        )
    } else {
        Piece::empty()
    }
}

// ---- the whole ----

/// The conclusion where nothing is to blame.
pub open spec fn all_clear() -> Seq<char> {
    "未发现明显瓶颈：本机到公网链路各环节检查正常。若问题间歇性出现，建议在问题发生时重新诊断，或针对具体应用 / 目标再测一次。"@
}

/// The first of the two that is there.
pub open spec fn either(a: Option<Seq<char>>, b: Option<Seq<char>>) -> Option<Seq<char>> {
    if a is Some {
        a
    } else {
        b
    }
}

/// The first part that blames something.
pub open spec fn blamed(inp: Evidence) -> Option<Seq<char>> {
    either(
        either(
            either(
                either(route_part(inp).blame, local_quality_part(inp).blame),
                end_quality_part(inp).blame,
            ),
            dns_part(inp).blame,
        ),
        http_part(inp).blame,
    )
}

/// The diagnosis: stage by stage, until one of them ends it. What is found first
/// is concluded.
pub open spec fn opinion(inp: Evidence) -> Opinion {
    match inp.adapter {
        None => no_adapter(),
        Some(a) => {
            let g = gateway_stage(inp);
            let p = public_stage(inp, g.ok);
            match (g.stop, p.stop) {
                (Some(c), _) => Opinion {
                    findings: seq![adapter_note(a@), g.note],
                    conclusion: c,
                },
                (None, Some(c)) => Opinion {
                    findings: seq![adapter_note(a@), g.note, p.note],
                    conclusion: c,
                },
                (None, None) => Opinion {
                    findings: seq![adapter_note(a@), g.note, p.note] + route_part(inp).notes
                        + local_quality_part(inp).notes + end_quality_part(inp).notes + dns_part(
                        inp,
                    ).notes + http_part(inp).notes,
                    conclusion: match blamed(inp) {
                        Some(c) => c,
                        None => all_clear(),
                    },
                },
            }
        },
    }
}

/// No stage before the hops ends the diagnosis.
pub open spec fn reaches_route(inp: Evidence) -> bool {
    &&& inp.adapter is Some
    &&& gateway_stage(inp).stop is None
    &&& public_stage(inp, gateway_stage(inp).ok).stop is None
}

impl Evidence {
    /// The measurements that the diagnosis reads are well-formed, and the hops that
    /// it names have numbers. What it does not come to may be anything.
    pub open spec fn wf(self) -> bool {
        &&& self.adapter is Some && self.gateway_addr is Some ==> (self.gateway matches Some(s)
            ==> s.wf())
        &&& reaches_route(self) ==> {
            &&& self.target_quality matches Some(q) ==> q.wf()
            &&& self.target_quality is Some ==> (self.gateway_quality matches Some(q) ==> q.wf())
            &&& self.target_answers() ==> trace::all_wf(self.hops)
            &&& route::countable(
                self.hops,
                self.target_answers(),
                self.beyond() || self.applications(),
            )
        }
    }
}

impl<'a> Inputs<'a> {
    /// Whether something behind the gateway was reached, given how many public
    /// addresses answer.
    fn is_beyond(&self, reachable: usize) -> (r: bool)
        requires
            reachable == self@.reachable(),
        ensures
            r == self@.beyond(),
    {
        reachable > 0 || self.does_target_answer() || self.does_web_work()
    }

    fn does_target_answer(&self) -> (r: bool)
        ensures
            r == self@.target_answers(),
    {
        match self.target_stats {
            Some(s) => s.received > 0,
            None => false,
        }
    }

    fn does_web_work(&self) -> (r: bool)
        ensures
            r == self@.web_works(),
    {
        match self.http {
            Some(h) => h.ok(),
            None => false,
        }
    }

    fn can_applications_work(&self) -> (r: bool)
        ensures
            r == self@.applications(),
    {
        if self.does_web_work() {
            return true;
        }
        let resolver = match self.system_dns {
            Some(v) => v.len() > 0,
            None => false,
        };
        resolver || list_servers(self.dns).len() > 0
    }
}

fn take_findings(findings: &mut Vec<Finding>, more: Vec<Finding>)
    ensures
        notes(final(findings)@) == notes(old(findings)@) + notes(more@),
{
    let mut rest = more;
    findings.append(&mut rest);
    assert(notes(findings@) == notes(old(findings)@) + notes(more@));
}

fn first_of(a: Option<String>, b: Option<String>) -> (r: Option<String>)
    ensures
        text::optional(r) == either(text::optional(a), text::optional(b)),
{
    if a.is_some() {
        a
    } else {
        b
    }
}

/// Judges the network by all the measurements.
pub fn run(inp: &Inputs) -> (d: Diagnosis)
    requires
        inp@.wf(),
    ensures
        d@ == opinion(inp@),
{
    let adapter = match inp.adapter {
        Some(a) => a,
        None => {
            let mut findings: Vec<Finding> = Vec::new();
            findings.push(
                finding(
                    Level::Error,
                    "本机网络接口",
                    "未找到处于工作状态、拥有 IPv4 地址的网络适配器".to_string(),
                    Some(
                        "检查网线是否插好 / Wi-Fi 是否已连接；在 设置 → 网络和 Internet → 高级网络设置 中查看被禁用的适配器并启用".to_string(),
                    ),
                ),
            );
            assert(notes(findings@) == no_adapter().findings);
            return Diagnosis {
                findings,
                conclusion: "瓶颈定位：本机网络接口层 —— 没有可用的网络连接，链路诊断无法继续。".to_string(),
            };
        },
    };
    let mut findings: Vec<Finding> = Vec::new();
    findings.push(judge_adapter(adapter));

    let reachable = count_present(inp.publics, inp.publics_quality);
    let beyond = inp.is_beyond(reachable);
    let gateway = judge_gateway(inp, beyond);
    findings.push(gateway.finding);
    if let Some(c) = gateway.stop {
        assert(notes(findings@) == seq![adapter_note(adapter@), gateway_stage(inp@).note]);
        return Diagnosis { findings, conclusion: c };
    }
    let applications = inp.can_applications_work();
    let public = judge_publics(inp, gateway.ok, reachable, applications);
    findings.push(public.finding);
    let ghost so_far = seq![
        adapter_note(adapter@),
        gateway_stage(inp@).note,
        public_stage(inp@, gateway.ok).note,
    ];
    assert(notes(findings@) == so_far);
    if let Some(c) = public.stop {
        return Diagnosis { findings, conclusion: c };
    }
    let hops = judge_route(inp, inp.does_target_answer(), beyond || applications);
    let local = judge_local_quality(inp);
    let end = judge_end_quality(inp);
    let dns = judge_dns(inp, reachable);
    let http = judge_http(inp, reachable);
    take_findings(&mut findings, hops.findings);
    take_findings(&mut findings, local.findings);
    take_findings(&mut findings, end.findings);
    take_findings(&mut findings, dns.findings);
    take_findings(&mut findings, http.findings);
    let blame = first_of(
        first_of(first_of(first_of(hops.blame, local.blame), end.blame), dns.blame),
        http.blame,
    );
    let conclusion = match blame {
        Some(c) => c,
        None => "未发现明显瓶颈：本机到公网链路各环节检查正常。若问题间歇性出现，建议在问题发生时重新诊断，或针对具体应用 / 目标再测一次。".to_string(),
    };
    Diagnosis { findings, conclusion }
}

fn are_all_wf(hops: &[HopStat]) -> (r: bool)
    ensures
        r == trace::all_wf(hops@),
{
    let mut i: usize = 0;
    while i < hops.len()
        invariant
            i <= hops@.len(),
            forall|k: int| 0 <= k < i ==> (#[trigger] hops@[k]).wf(),
        decreases hops.len() - i,
    {
        if hops[i].received > hops[i].sent {
            return false;
        }
        i = i + 1;
    }
    true
}

fn is_quality_wf(q: Option<&QualityStats>) -> (r: bool)
    ensures
        r == (q matches Some(q) ==> q.wf()),
{
    match q {
        Some(q) => q.succeeded <= q.sent,
        None => true,
    }
}

/// Whether the measurements can be judged: those that are read are well-formed, and
/// the hop behind the last one that answers has a number where it is named.
pub fn can_run(inp: &Inputs) -> (r: bool)
    ensures
        r == inp@.wf(),
{
    if inp.adapter.is_none() {
        return true;
    }
    if inp.gateway_addr.is_some() {
        if let Some(s) = inp.gateway {
            if s.received > s.sent {
                return false;
            }
        }
    }
    let reachable = count_present(inp.publics, inp.publics_quality);
    let beyond = inp.is_beyond(reachable);
    let gateway = judge_gateway(inp, beyond);
    if gateway.stop.is_some() {
        return true;
    }
    let applications = inp.can_applications_work();
    if judge_publics(inp, gateway.ok, reachable, applications).stop.is_some() {
        return true;
    }
    if inp.target_quality.is_some() && !(is_quality_wf(inp.target_quality) && is_quality_wf(
        inp.gateway_quality,
    )) {
        return false;
    }
    let target_answers = inp.does_target_answer();
    if target_answers && !are_all_wf(inp.hops) {
        return false;
    }
    is_countable(inp.hops, target_answers, beyond || applications)
}

// ---- laws ----

/// A conclusion that blames something: it starts with the words that say so.
pub open spec fn accuses(c: Seq<char>) -> bool {
    c.len() > 5 && c.take(5) == "瓶颈定位："@
}

/// Some finding is an error.
pub open spec fn has_error(v: Seq<Note>) -> bool {
    exists|i: int| 0 <= i < v.len() && (#[trigger] v[i]).level == Level::Error
}

/// Each public address is either counted as reachable or named as one that is not.
pub proof fn law_absent_named(
    publics: Seq<(Ipv4Addr, &'static str, PingStats)>,
    samples: Seq<(Ipv4Addr, QualityStats)>,
)
    ensures
        present_count(publics, samples) + absent(publics, samples).len() == publics.len(),
    decreases publics.len(),
{
    if publics.len() > 0 {
        law_absent_named(publics.drop_last(), samples);
    }
}

/// A part blames something exactly where it has a finding that is an error, and
/// what it says then accuses.
spec fn consistent(p: Part) -> bool {
    &&& p.blame is Some <==> has_error(p.notes)
    &&& p.blame matches Some(c) ==> accuses(c)
}

proof fn lemma_harmless(n: Note)
    requires
        n.level != Level::Error,
    ensures
        consistent(harmless(n)),
{
    let v = harmless(n).notes;
    assert(forall|i: int| 0 <= i < v.len() ==> #[trigger] v[i] == n);
}

proof fn lemma_blaming(n: Note, c: Seq<char>)
    requires
        n.level == Level::Error,
        accuses(c),
    ensures
        consistent(blaming(n, c)),
{
    assert(blaming(n, c).notes[0] == n);
}

proof fn lemma_accuses_prefix(rest: Seq<char>)
    requires
        rest.len() > 0,
    ensures
        accuses("瓶颈定位："@ + rest),
{
    reveal_strlit("瓶颈定位：");
    assert(("瓶颈定位："@ + rest).take(5) == "瓶颈定位："@);
}

proof fn lemma_accuses_longer(a: Seq<char>, b: Seq<char>)
    requires
        accuses(a),
    ensures
        accuses(a + b),
{
    assert((a + b).take(5) == a.take(5));
}

proof fn lemma_all_clear()
    ensures
        !accuses(all_clear()),
        all_clear().len() > 0,
{
    reveal_strlit("瓶颈定位：");
    reveal_strlit(
        "未发现明显瓶颈：本机到公网链路各环节检查正常。若问题间歇性出现，建议在问题发生时重新诊断，或针对具体应用 / 目标再测一次。",
    );
    assert("瓶颈定位："@[0] != all_clear()[0]);
    if accuses(all_clear()) {
        assert(all_clear().take(5)[0] == all_clear()[0]);
    }
}

proof fn lemma_errors_concat(a: Seq<Note>, b: Seq<Note>)
    ensures
        has_error(a + b) <==> has_error(a) || has_error(b),
{
    let c = a + b;
    if has_error(a) {
        let i = choose|i: int| 0 <= i < a.len() && (#[trigger] a[i]).level == Level::Error;
        assert(c[i] == a[i]);
    }
    if has_error(b) {
        let i = choose|i: int| 0 <= i < b.len() && (#[trigger] b[i]).level == Level::Error;
        assert(c[a.len() + i] == b[i]);
    }
    if has_error(c) {
        let i = choose|i: int| 0 <= i < c.len() && (#[trigger] c[i]).level == Level::Error;
        if i < a.len() {
            assert(a[i] == c[i]);
        } else {
            assert(b[i - a.len()] == c[i]);
        }
    }
}

/// A verdict that finds fault says something.
proof fn lemma_fate_told(
    hops: Seq<HopStat>,
    target_reachable: bool,
    target: Ipv4Addr,
    evidence: bool,
)
    ensures
        match route::fate(hops, target_reachable, target, evidence) {
            route::Fate::Clean(_) => true,
            route::Fate::Bottleneck(m, _) => m.len() > 0,
            route::Fate::Unreachable(m, _) => m.len() > 0,
        },
{
    reveal_strlit("逐跳探测没有任何数据，目标 ");
    reveal_strlit("链路从第 1 跳起即中断，没有任何中间节点应答");
    reveal_strlit("到目标 ");
    reveal_strlit("第 ");
}

proof fn lemma_route_consistent(inp: Evidence)
    ensures
        consistent(route_part(inp)),
{
    let evidence = inp.beyond() || inp.applications();
    lemma_fate_told(inp.hops, inp.target_answers(), inp.target, evidence);
    match route::fate(inp.hops, inp.target_answers(), inp.target, evidence) {
        route::Fate::Clean(m) => {
            lemma_harmless(plain(Level::Normal, "逐跳链路"@, m));
        },
        route::Fate::Bottleneck(m, s) => {
            lemma_accuses_prefix(m);
            lemma_blaming(advised(Level::Error, "逐跳链路"@, m, s), "瓶颈定位："@ + m);
        },
        route::Fate::Unreachable(m, s) => {
            lemma_accuses_prefix(m);
            lemma_blaming(advised(Level::Error, "逐跳链路"@, m, s), "瓶颈定位："@ + m);
        },
    }
}

proof fn lemma_local_quality_consistent(inp: Evidence)
    ensures
        consistent(local_quality_part(inp)),
{
    let p = local_quality_part(inp);
    assert(!has_error(nothing().notes));
    if p.notes.len() > 0 {
        if p.blame is Some {
            let head = "瓶颈定位：本地网络段 —— 网关段 TCP 采样丢包 "@;
            let loss = binary64::fixed0(quality::loss(inp.gateway_samples()->0));
            reveal_strlit("瓶颈定位：");
            reveal_strlit("瓶颈定位：本地网络段 —— 网关段 TCP 采样丢包 ");
            assert(head.take(5) == "瓶颈定位："@);
            lemma_accuses_longer(head, loss);
            lemma_accuses_longer(head + loss, "%，质量瓶颈在本地链路。"@);
            lemma_blaming(p.notes[0], p.blame->0);
            assert(p == blaming(p.notes[0], p.blame->0));
        } else {
            lemma_harmless(p.notes[0]);
            assert(p == harmless(p.notes[0]));
        }
    }
}

proof fn lemma_end_quality_consistent(inp: Evidence)
    ensures
        consistent(end_quality_part(inp)),
{
    let p = end_quality_part(inp);
    assert(!has_error(nothing().notes));
    if p.notes.len() > 0 {
        if p.blame is Some {
            let t = inp.target_quality->0@;
            let local_fine = match inp.gateway_samples() {
                Some(g) => quality::loss(g) < 5 * rounding::one(),
                None => true,
            };
            let where_ = if local_fine {
                "运营商网络/目标侧"@
            } else {
                "链路丢包严重"@
            };
            reveal_strlit("运营商网络/目标侧");
            reveal_strlit("链路丢包严重");
            lemma_accuses_prefix(where_);
            let head = "瓶颈定位："@ + where_;
            lemma_accuses_longer(head, " —— 端到端 TCP 采样丢包 "@);
            let long = head + " —— 端到端 TCP 采样丢包 "@;
            lemma_accuses_longer(long, binary64::fixed0(quality::loss(t)));
            lemma_accuses_longer(long + binary64::fixed0(quality::loss(t)), "%。"@);
            lemma_blaming(p.notes[0], p.blame->0);
            assert(p == blaming(p.notes[0], p.blame->0));
        } else {
            lemma_harmless(p.notes[0]);
            assert(p == harmless(p.notes[0]));
        }
    }
}

proof fn lemma_dns_consistent(inp: Evidence)
    ensures
        consistent(dns_part(inp)),
{
    let p = dns_part(inp);
    if let Some(c) = p.blame {
        reveal_strlit("瓶颈定位：");
        reveal_strlit("瓶颈定位：DNS 配置 —— 系统配置的 DNS 服务器失效，而公共 DNS 可用，网页打不开是 DNS 的问题。");
        reveal_strlit("瓶颈定位：DNS 解析链路 —— 全部 DNS 查询失败，域名无法打开但 IP 直连正常。");
        assert(c.take(5) =~= "瓶颈定位："@);
        lemma_blaming(p.notes[0], c);
        assert(p == blaming(p.notes[0], c));
    } else {
        lemma_harmless(p.notes[0]);
        assert(p == harmless(p.notes[0]));
    }
}

proof fn lemma_http_consistent(inp: Evidence)
    ensures
        consistent(http_part(inp)),
{
    let p = http_part(inp);
    assert(!has_error(nothing().notes));
    if p.notes.len() > 0 {
        if let Some(c) = p.blame {
            reveal_strlit("瓶颈定位：");
            reveal_strlit(
                "瓶颈定位：应用层 / 代理配置 —— 网络链路正常但 HTTP 请求失败，多为代理、防火墙或 Web 认证问题。",
            );
            assert(c.take(5) =~= "瓶颈定位："@);
            lemma_blaming(p.notes[0], c);
            assert(p == blaming(p.notes[0], c));
        } else {
            lemma_harmless(p.notes[0]);
            assert(p == harmless(p.notes[0]));
        }
    }
}

/// A stage that ends the diagnosis has found an error and accuses.
proof fn lemma_stops_accuse(inp: Evidence, gateway_ok: bool)
    ensures
        gateway_stage(inp).stop matches Some(c) ==> accuses(c) && gateway_stage(inp).note.level
            == Level::Error,
        public_stage(inp, gateway_ok).stop matches Some(c) ==> accuses(c) && public_stage(
            inp,
            gateway_ok,
        ).note.level == Level::Error,
        gateway_stage(inp).stop is None && gateway_stage(inp).note.level == Level::Error ==> {
            inp.gateway_addr is Some && inp.gateway is None
        },
        public_stage(inp, gateway_ok).stop is None ==> public_stage(inp, gateway_ok).note.level
            != Level::Error,
{
    reveal_strlit("瓶颈定位：");
    if let Some(c) = public_stage(inp, gateway_ok).stop {
        reveal_strlit("瓶颈定位：运营商接入链路 —— 本机与网关正常，但无法到达任何公网地址，疑似宽带断网或运营商侧故障。");
        assert(c.take(5) =~= "瓶颈定位："@);
    }
    if let Some(c) = gateway_stage(inp).stop {
        match inp.gateway_addr {
            None => {
                reveal_strlit("瓶颈定位：本地网络配置 —— 缺少默认网关，流量无法离开本机。");
                assert(c.take(5) =~= "瓶颈定位："@);
            },
            Some(gw) => {
                let head = "瓶颈定位：本地网络段（本机→网关 "@;
                reveal_strlit("瓶颈定位：本地网络段（本机→网关 ");
                assert(head.take(5) =~= "瓶颈定位："@);
                let s = inp.gateway->0@;
                lemma_accuses_longer(head, gw.text());
                if s.received == 0 {
                    lemma_accuses_longer(
                        head + gw.text(),
                        "）。ICMP 与 ARP 均无法到达网关，问题几乎一定出在本地网络环境（信号、网线、路由器）。"@,
                    );
                } else {
                    let c1 = head + gw.text() + "），丢包 "@;
                    let c2 = c1 + binary64::fixed1(trace::loss(s.sent, s.received));
                    let c3 = c2 + "%、平均时延 "@;
                    let c4 = c3 + binary64::fixed0(s.avg);
                    lemma_accuses_longer(head + gw.text(), "），丢包 "@);
                    lemma_accuses_longer(c1, binary64::fixed1(trace::loss(s.sent, s.received)));
                    lemma_accuses_longer(c2, "%、平均时延 "@);
                    lemma_accuses_longer(c3, binary64::fixed0(s.avg));
                    lemma_accuses_longer(c4, "ms，瓶颈在本地链路。"@);
                }
            },
        }
    }
}

/// Every diagnosis has a finding and a conclusion, which either accuses something
/// or says that all is clear. It accuses exactly where some finding is an error;
/// the one exception is a gateway that could not be probed, which is an error and
/// accuses nothing.
#[verifier::rlimit(60)]
#[verifier::spinoff_prover]
pub proof fn law_conclusion_follows_findings(inp: Evidence)
    ensures
        opinion(inp).findings.len() > 0,
        opinion(inp).conclusion.len() > 0,
        opinion(inp).conclusion == all_clear() || accuses(opinion(inp).conclusion),
        accuses(opinion(inp).conclusion) ==> has_error(opinion(inp).findings),
        has_error(opinion(inp).findings) ==> accuses(opinion(inp).conclusion) || (
        inp.gateway_addr is Some && inp.gateway is None),
        !accuses(all_clear()),
{
    lemma_all_clear();
    match inp.adapter {
        None => {
            reveal_strlit("瓶颈定位：");
            reveal_strlit("瓶颈定位：本机网络接口层 —— 没有可用的网络连接，链路诊断无法继续。");
            assert(no_adapter().conclusion.take(5) =~= "瓶颈定位："@);
            assert(no_adapter().findings[0].level == Level::Error);
        },
        Some(a) => {
            let g = gateway_stage(inp);
            let p = public_stage(inp, g.ok);
            lemma_stops_accuse(inp, g.ok);
            if g.stop is Some {
                assert(opinion(inp).findings[1].level == Level::Error);
            } else if p.stop is Some {
                assert(opinion(inp).findings[2].level == Level::Error);
            } else {
                let first = seq![adapter_note(a@), g.note, p.note];
                let f1 = first + route_part(inp).notes;
                let f2 = f1 + local_quality_part(inp).notes;
                let f3 = f2 + end_quality_part(inp).notes;
                let f4 = f3 + dns_part(inp).notes;
                lemma_errors_concat(first, route_part(inp).notes);
                lemma_errors_concat(f1, local_quality_part(inp).notes);
                lemma_errors_concat(f2, end_quality_part(inp).notes);
                lemma_errors_concat(f3, dns_part(inp).notes);
                lemma_errors_concat(f4, http_part(inp).notes);
                lemma_route_consistent(inp);
                lemma_local_quality_consistent(inp);
                lemma_end_quality_consistent(inp);
                lemma_dns_consistent(inp);
                lemma_http_consistent(inp);
                if has_error(first) {
                    let i = choose|i: int|
                        0 <= i < first.len() && (#[trigger] first[i]).level == Level::Error;
                    assert(i == 1);
                }
            }
        },
    }
}

/// A diagnosis that ends early ends with an error and accuses it.
pub proof fn law_early_end_is_an_error(inp: Evidence)
    requires
        !reaches_route(inp),
    ensures
        opinion(inp).findings.last().level == Level::Error,
        accuses(opinion(inp).conclusion),
{
    law_conclusion_follows_findings(inp);
    if inp.adapter is Some {
        lemma_stops_accuse(inp, gateway_stage(inp).ok);
    } else {
        assert(has_error(no_adapter().findings)) by {
            assert(no_adapter().findings[0].level == Level::Error);
        }
        reveal_strlit("瓶颈定位：");
        reveal_strlit("瓶颈定位：本机网络接口层 —— 没有可用的网络连接，链路诊断无法继续。");
        assert(no_adapter().conclusion.take(5) =~= "瓶颈定位："@);
    }
}

/// Filtered pings are no broken network. A gateway that answers on the link layer,
/// or behind which something was reached, is never called unreachable for its lost
/// pings; the public network is never called down where an application works or
/// some public address answers connections; and the route is then never called
/// broken.
pub proof fn law_filtered_pings_are_no_break(inp: Evidence)
    ensures
        inp.gateway_addr is Some && inp.gateway is Some && inp.gateway->0.received == 0 && (
        inp.gateway_arp == Some(true) || inp.beyond()) ==> {
            &&& gateway_stage(inp).note.level == Level::Warn
            &&& gateway_stage(inp).stop is None
            &&& gateway_stage(inp).ok
        },
        inp.gateway_addr is Some && inp.beyond() ==> gateway_stage(inp).stop is None,
        inp.applications() || inp.reachable() > 0 ==> public_stage(
            inp,
            gateway_stage(inp).ok,
        ).stop is None,
        inp.beyond() || inp.applications() ==> !(route::fate(
            inp.hops,
            inp.target_answers(),
            inp.target,
            inp.beyond() || inp.applications(),
        ) is Unreachable),
{
}

/// Where names resolve, pages that were tried can be fetched and sampled connections
/// lose less than a fifth, a network that answers no ping at all is all clear: the
/// gateway is on the link layer, and lost pings accuse nothing.
pub proof fn law_lost_pings_accuse_nothing(inp: Evidence)
    requires
        inp.adapter is Some,
        inp.gateway_addr is Some,
        inp.gateway matches Some(s) && s.received == 0,
        inp.gateway_arp == Some(true),
        !inp.target_answers(),
        inp.resolver_works(),
        inp.http matches Some(h) ==> h.good(),
        inp.target_quality matches Some(t) ==> quality::loss(t@) < 20 * rounding::one(),
        inp.gateway_samples() matches Some(g) ==> quality::loss(g) < 20 * rounding::one(),
    ensures
        opinion(inp).conclusion == all_clear(),
        !has_error(opinion(inp).findings),
{
    law_filtered_pings_are_no_break(inp);
    law_conclusion_follows_findings(inp);
    assert(blamed(inp) is None);
}

/// The public address answered a ping, or accepted or refused a sampled connection.
pub open spec fn answers(
    p: (Ipv4Addr, &'static str, PingStats),
    samples: Seq<(Ipv4Addr, QualityStats)>,
) -> bool {
    p.2.received > 0 || exists|k: int|
        0 <= k < samples.len() && (#[trigger] samples[k]).0 == p.0 && samples[k].1.succeeded > 0
}

/// The public addresses that answer are counted, each of them once and no other, and
/// those that do not are listed with their names, in their order.
pub proof fn law_public_addresses_counted(
    publics: Seq<(Ipv4Addr, &'static str, PingStats)>,
    samples: Seq<(Ipv4Addr, QualityStats)>,
)
    ensures
        present_count(publics, samples) == publics.filter(
            |p: (Ipv4Addr, &'static str, PingStats)| answers(p, samples),
        ).len(),
        absent(publics, samples) == publics.filter(
            |p: (Ipv4Addr, &'static str, PingStats)| !answers(p, samples),
        ).map_values(
            |p: (Ipv4Addr, &'static str, PingStats)| p.0.text() + " ("@ + p.1@ + ")"@,
        ),
        present_count(publics, samples) > 0 <==> exists|i: int|
            0 <= i < publics.len() && answers(#[trigger] publics[i], samples),
        present_count(publics, samples) == publics.len() <==> forall|i: int|
            0 <= i < publics.len() ==> answers(#[trigger] publics[i], samples),
        present_count(publics, samples) <= publics.len(),
        pinged(publics) == 0 <==> forall|i: int|
            0 <= i < publics.len() ==> (#[trigger] publics[i]).2.received == 0,
    decreases publics.len(),
{
    reveal(Seq::filter);
    let f = |p: (Ipv4Addr, &'static str, PingStats)| answers(p, samples);
    let g = |p: (Ipv4Addr, &'static str, PingStats)| !answers(p, samples);
    let h = |p: (Ipv4Addr, &'static str, PingStats)| p.0.text() + " ("@ + p.1@ + ")"@;
    if publics.len() == 0 {
        assert(publics.filter(g).map_values(h) =~= Seq::empty());
    } else {
        let init = publics.drop_last();
        let last = publics.len() - 1;
        law_public_addresses_counted(init, samples);
        assert(publics[last] == publics.last());
        assert(forall|i: int| 0 <= i < last ==> #[trigger] publics[i] == init[i]);
        assert(forall|i: int| 0 <= i < last ==> #[trigger] init[i] == publics[i]);
        assert(present(publics.last(), samples) == answers(publics.last(), samples));
        assert(publics.filter(g).map_values(h) =~= absent(publics, samples));
    }
}

/// Some sampled public address accepted or refused a connection.
pub open spec fn some_connected(samples: Seq<(Ipv4Addr, QualityStats)>) -> bool {
    exists|k: int| 0 <= k < samples.len() && (#[trigger] samples[k]).1.succeeded > 0
}

proof fn lemma_connected(samples: Seq<(Ipv4Addr, QualityStats)>)
    ensures
        connected(samples) > 0 <==> some_connected(samples),
    decreases samples.len(),
{
    if samples.len() > 0 {
        let init = samples.drop_last();
        let last = samples.len() - 1;
        lemma_connected(init);
        assert(samples[last] == samples.last());
        assert(forall|i: int| 0 <= i < last ==> #[trigger] samples[i] == init[i]);
        assert(forall|i: int| 0 <= i < last ==> #[trigger] init[i] == samples[i]);
    }
}

/// A page was fetched with a status from 200 to 399.
pub open spec fn page_came(h: Option<HttpResult>) -> bool {
    h is Some && h->0.status_code is Some && 200 <= h->0.status_code->0 <= 399
}

/// What counts as evidence. Something behind the gateway was reached exactly where a
/// public address answers pings or connections, the target answers pings, or a page
/// came. An application works exactly where a page came, a DNS server answered, or the
/// resolver of the system gave an address.
pub proof fn law_evidence_from_measurements(inp: Evidence)
    ensures
        inp.reachable() > 0 <==> exists|i: int|
            0 <= i < inp.publics.len() && answers(#[trigger] inp.publics[i], inp.publics_quality),
        inp.target_answers() <==> inp.target_stats is Some && inp.target_stats->0.received > 0,
        inp.web_works() <==> page_came(inp.http),
        inp.resolver_works() <==> inp.system_dns is Some && inp.system_dns->0.len() > 0,
        inp.beyond() <==> inp.reachable() > 0 || inp.target_answers() || page_came(inp.http),
        inp.applications() <==> page_came(inp.http) || inp.resolver_works() || exists|k: int|
            0 <= k < inp.dns.len() && (#[trigger] inp.dns[k]).success,
{
    law_public_addresses_counted(inp.publics, inp.publics_quality);
}

/// The gateway answers, but loses more than a twentieth of its pings or takes more than
/// 50 ms on average.
pub open spec fn answers_poorly(s: PingStats) -> bool {
    0 < s.received && (20 * (s.sent - s.received) > s.sent || s.avg_ms@ > 50 * rounding::one())
}

/// The way to the gateway is down or poor, and nothing shows otherwise: there is no
/// gateway; or nothing behind it was reached, and it either answers neither pings nor
/// on the link layer, or answers pings poorly.
pub open spec fn gateway_is_out(inp: Evidence) -> bool {
    inp.gateway_addr is None || (inp.gateway is Some && !inp.beyond() && (answers_poorly(
        inp.gateway->0,
    ) || (inp.gateway->0.received == 0 && inp.gateway_arp != Some(true))))
}

/// Nothing public can be reached over a gateway that was probed: no public address
/// answers and no application works.
pub open spec fn public_is_out(inp: Evidence) -> bool {
    inp.gateway is Some && inp.reachable() == 0 && !inp.applications()
}

proof fn lemma_gateway_threshold(s: PingStats)
    requires
        0 < s.received <= s.sent,
    ensures
        trace::loss(s.sent as nat, s.received as nat) > 5 * rounding::one() <==> 20 * (s.sent
            - s.received) > s.sent,
{
    binary64::law_percent_compares_as_counts((s.sent - s.received) as nat, s.sent as nat, 5);
}

/// A text starts with another.
pub open spec fn starts_with(t: Seq<char>, head: Seq<char>) -> bool {
    t.len() >= head.len() && t.take(head.len() as int) == head
}

proof fn lemma_starts(a: Seq<char>, b: Seq<char>)
    ensures
        starts_with(a + b, a),
{
    assert((a + b).take(a.len() as int) =~= a);
}

proof fn lemma_starts_longer(t: Seq<char>, head: Seq<char>, b: Seq<char>)
    requires
        starts_with(t, head),
    ensures
        starts_with(t + b, head),
{
    assert((t + b).take(head.len() as int) =~= t.take(head.len() as int));
}

/// Where a diagnosis ends. Without an adapter there is one finding and the adapter is
/// accused. With the gateway out there are two and the way to the gateway is accused,
/// or the configuration where there is none. With the public network out there are
/// three and the access line is accused. In every other case the diagnosis goes on to
/// the hops, and nothing else makes it stop before them.
#[verifier::rlimit(40)]
pub proof fn law_where_a_diagnosis_ends(inp: Evidence)
    requires
        inp.adapter is Some && inp.gateway_addr is Some ==> (inp.gateway matches Some(s)
            ==> s.received <= s.sent),
    ensures
        reaches_route(inp) <==> inp.adapter is Some && !gateway_is_out(inp) && !public_is_out(inp),
        inp.adapter is None ==> {
            &&& opinion(inp).findings.len() == 1
            &&& opinion(inp).findings[0].level == Level::Error
            &&& opinion(inp).findings[0].segment == "本机网络接口"@
            &&& starts_with(opinion(inp).conclusion, "瓶颈定位：本机网络接口层"@)
        },
        inp.adapter is Some && gateway_is_out(inp) ==> {
            &&& opinion(inp).findings.len() == 2
            &&& opinion(inp).findings[1].level == Level::Error
            &&& match inp.gateway_addr {
                None => {
                    &&& opinion(inp).findings[1].segment == "本地网络配置"@
                    &&& starts_with(opinion(inp).conclusion, "瓶颈定位：本地网络配置"@)
                },
                Some(gw) => {
                    &&& opinion(inp).findings[1].segment == "本机→网关"@
                    &&& starts_with(
                        opinion(inp).conclusion,
                        "瓶颈定位：本地网络段（本机→网关 "@ + gw.text(),
                    )
                },
            }
        },
        inp.adapter is Some && !gateway_is_out(inp) && public_is_out(inp) ==> {
            &&& opinion(inp).findings.len() == 3
            &&& opinion(inp).findings[2].level == Level::Error
            &&& opinion(inp).findings[2].segment == "运营商接入链路"@
            &&& starts_with(opinion(inp).conclusion, "瓶颈定位：运营商接入链路"@)
        },
        reaches_route(inp) ==> opinion(inp).findings.len() >= 5,
{
    if let Some(s) = inp.gateway {
        if inp.adapter is Some && inp.gateway_addr is Some && s.received > 0 {
            lemma_gateway_threshold(s);
        }
    }
    reveal_strlit("瓶颈定位：本机网络接口层");
    reveal_strlit("瓶颈定位：本机网络接口层 —— 没有可用的网络连接，链路诊断无法继续。");
    reveal_strlit("瓶颈定位：本地网络配置");
    reveal_strlit("瓶颈定位：本地网络配置 —— 缺少默认网关，流量无法离开本机。");
    reveal_strlit("瓶颈定位：运营商接入链路");
    reveal_strlit("瓶颈定位：运营商接入链路 —— 本机与网关正常，但无法到达任何公网地址，疑似宽带断网或运营商侧故障。");
    let c = opinion(inp).conclusion;
    if inp.adapter is None {
        assert(c.take(12) =~= "瓶颈定位：本机网络接口层"@);
    } else if gateway_is_out(inp) {
        match inp.gateway_addr {
            None => {
                assert(c.take(11) =~= "瓶颈定位：本地网络配置"@);
            },
            Some(gw) => {
                let head = "瓶颈定位：本地网络段（本机→网关 "@ + gw.text();
                let s = inp.gateway->0@;
                if s.received == 0 {
                    lemma_starts(
                        head,
                        "）。ICMP 与 ARP 均无法到达网关，问题几乎一定出在本地网络环境（信号、网线、路由器）。"@,
                    );
                } else {
                    let c1 = head + "），丢包 "@;
                    let c2 = c1 + binary64::fixed1(trace::loss(s.sent, s.received));
                    let c3 = c2 + "%、平均时延 "@;
                    let c4 = c3 + binary64::fixed0(s.avg);
                    lemma_starts(head, "），丢包 "@);
                    lemma_starts_longer(
                        c1,
                        head,
                        binary64::fixed1(trace::loss(s.sent, s.received)),
                    );
                    lemma_starts_longer(c2, head, "%、平均时延 "@);
                    lemma_starts_longer(c3, head, binary64::fixed0(s.avg));
                    lemma_starts_longer(c4, head, "ms，瓶颈在本地链路。"@);
                }
            },
        }
    } else if public_is_out(inp) {
        assert(c.take(12) =~= "瓶颈定位：运营商接入链路"@);
    } else {
        assert(route_part(inp).notes.len() == 1);
        assert(dns_part(inp).notes.len() == 1);
    }
}

/// What is found of the adapter and of the gateway. The adapter is shown with its name
/// and its address. The gateway is an error exactly where it is out or could not be
/// probed; else it is worth a warning where it answers no ping or answers poorly, and
/// it is normal where it answers well. Its address or its numbers are told.
#[verifier::rlimit(40)]
pub proof fn law_gateway_is_judged(inp: Evidence)
    requires
        inp.adapter is Some,
        inp.gateway_addr is Some ==> (inp.gateway matches Some(s) ==> s.received <= s.sent),
    ensures
        opinion(inp).findings[0].level == Level::Normal,
        opinion(inp).findings[0].segment == "本机网络接口"@,
        text::holds(opinion(inp).findings[0].detail, env::shown_name(inp.adapter->0@)),
        inp.adapter->0.ipv4 matches Some(p) ==> text::holds(
            opinion(inp).findings[0].detail,
            p.0.text() + "/"@ + text::dec(p.1 as nat),
        ),
        opinion(inp).findings[1].level == Level::Error <==> gateway_is_out(inp) || inp.gateway
            is None,
        opinion(inp).findings[1].level == Level::Normal <==> inp.gateway_addr is Some
            && inp.gateway is Some && inp.gateway->0.received > 0 && !answers_poorly(
            inp.gateway->0,
        ),
        inp.gateway_addr is Some ==> opinion(inp).findings[1].segment == "本机→网关"@,
        inp.gateway_addr is Some && (inp.gateway is None || inp.gateway->0.received == 0)
            ==> text::holds(opinion(inp).findings[1].detail, inp.gateway_addr->0.text()),
        inp.gateway_addr is Some && inp.gateway is Some && inp.gateway->0.received > 0
            ==> text::holds(opinion(inp).findings[1].detail, trace::stats_text(inp.gateway->0@)),
        opinion(inp).findings[1].level == Level::Normal ==> opinion(inp).findings[1].suggestion
            is None,
        opinion(inp).findings[1].level != Level::Normal ==> opinion(inp).findings[1].suggestion
            is Some,
{
    let a = inp.adapter->0@;
    let name = env::shown_name(a);
    let (ip, prefix) = match a.ipv4 {
        Some(p) => p,
        None => (Ipv4Addr { a: 0, b: 0, c: 0, d: 0 }, 0u8),
    };
    let t1 = "适配器 \""@ + name;
    let t4 = t1 + "\"（"@ + a.kind + "）已获得 IPv4 "@;
    let addr = ip.text() + "/"@ + text::dec(prefix as nat);
    assert(adapter_note(a).detail =~= t4 + addr);
    text::lemma_holds_itself(name);
    text::lemma_holds_concat("适配器 \""@, name, name);
    text::lemma_holds_concat(t1, "\"（"@, name);
    text::lemma_holds_concat(t1 + "\"（"@, a.kind, name);
    text::lemma_holds_concat(t1 + "\"（"@ + a.kind, "）已获得 IPv4 "@, name);
    text::lemma_holds_concat(t4, addr, name);
    text::lemma_holds_itself(addr);
    text::lemma_holds_concat(t4, addr, addr);
    assert(opinion(inp).findings[0] == adapter_note(a));
    assert(opinion(inp).findings[1] == gateway_stage(inp).note);
    let d = gateway_stage(inp).note.detail;
    if let Some(gw) = inp.gateway_addr {
        let g = gw.text();
        text::lemma_holds_itself(g);
        if let Some(s) = inp.gateway {
            if s.received > 0 {
                lemma_gateway_threshold(s);
                let st = trace::stats_text(s@);
                text::lemma_holds_itself(st);
                text::lemma_holds_concat("网关 ICMP 探测质量不佳："@, st, st);
                text::lemma_holds_concat(
                    "网关 ICMP 探测质量不佳："@ + st,
                    "，但网关之后的公网可达（可能是路由器 ICMP 限速）"@,
                    st,
                );
                text::lemma_holds_concat("到网关的链路质量差："@, st, st);
                text::lemma_holds_concat("网关 "@ + g + " 连通良好："@, st, st);
            } else {
                let n = text::dec(s.sent as nat);
                let h = "网关 "@ + g;
                text::lemma_holds_concat("网关 "@, g, g);
                text::lemma_holds_concat(h, " 不响应 ICMP ping（"@, g);
                text::lemma_holds_concat(h + " 不响应 ICMP ping（"@, n, g);
                text::lemma_holds_concat(
                    h + " 不响应 ICMP ping（"@ + n,
                    " 个探测全部丢失），但 ARP 显示网关在链路层在线"@,
                    g,
                );
                text::lemma_holds_concat(
                    h,
                    " 的 ICMP 探测全部丢失，但网关之后的公网可达，链路实际是通的"@,
                    g,
                );
                text::lemma_holds_concat(h, " 完全不可达（"@, g);
                text::lemma_holds_concat(h + " 完全不可达（"@, n, g);
                text::lemma_holds_concat(
                    h + " 完全不可达（"@ + n,
                    " 个 ICMP 探测全部丢失，ARP 也无应答）"@,
                    g,
                );
            }
        } else {
            text::lemma_holds_concat("无法初始化 ICMP 检测（网关 "@, g, g);
            text::lemma_holds_concat("无法初始化 ICMP 检测（网关 "@ + g, " 未探测）"@, g);
        }
    }
}

/// What is found of the public network where the diagnosis goes on: normal exactly
/// where all public addresses answer, and not just connections; else a warning. Where
/// no public address answers pings but connections or applications show that the
/// network works, pings are filtered; else every address that does not answer is
/// named.
#[verifier::rlimit(40)]
pub proof fn law_public_network_is_judged(inp: Evidence)
    requires
        reaches_route(inp),
    ensures
        ({
            let n = opinion(inp).findings[2];
            let filtered = inp.gateway is Some && (some_connected(inp.publics_quality)
                || inp.applications()) && forall|i: int|
                0 <= i < inp.publics.len() ==> (#[trigger] inp.publics[i]).2.received == 0;
            &&& n.segment == "公网可达性"@
            &&& n.level == Level::Normal <==> !filtered && forall|i: int|
                0 <= i < inp.publics.len() ==> answers(
                    #[trigger] inp.publics[i],
                    inp.publics_quality,
                )
            &&& n.level != Level::Error
            &&& n.level == Level::Normal ==> n.detail == "全部 "@ + text::dec(inp.publics.len())
                + " 个公网地址可达"@
            &&& filtered ==> n.detail == "所有公网 ICMP 探测丢失，但 TCP 连接 / HTTP / DNS 验证公网实际可达"@
            &&& n.level != Level::Normal && !filtered ==> n.detail == "部分公网地址不可达："@ + text::joined(
                inp.publics.filter(
                    |p: (Ipv4Addr, &'static str, PingStats)| !answers(p, inp.publics_quality),
                ).map_values(
                    |p: (Ipv4Addr, &'static str, PingStats)| p.0.text() + " ("@ + p.1@ + ")"@,
                ),
                "、"@,
            )
        }),
{
    law_public_addresses_counted(inp.publics, inp.publics_quality);
    lemma_connected(inp.publics_quality);
    lemma_gateway_ok(inp);
    assert(opinion(inp).findings[2] == public_stage(inp, gateway_stage(inp).ok).note);
}

proof fn lemma_gateway_ok(inp: Evidence)
    requires
        inp.adapter is Some,
        gateway_stage(inp).stop is None,
    ensures
        gateway_stage(inp).ok <==> inp.gateway is Some,
{
}

/// Of the samples that were taken, at least one in five is lost.
pub open spec fn a_fifth_lost(q: QualityStats) -> bool {
    0 < q.sent <= 5 * (q.sent - q.succeeded)
}

/// Of the samples that were taken, at least one in twenty is lost.
pub open spec fn a_twentieth_lost(q: QualityStats) -> bool {
    0 < q.sent <= 20 * (q.sent - q.succeeded)
}

/// Of the samples that were taken, more than one in twenty is lost.
pub open spec fn more_than_a_twentieth_lost(q: QualityStats) -> bool {
    q.sent < 20 * (q.sent - q.succeeded)
}

proof fn lemma_quality_thresholds(q: QualityStats)
    requires
        q.succeeded <= q.sent,
    ensures
        quality::loss(q@) >= 20 * rounding::one() <==> a_fifth_lost(q),
        quality::loss(q@) >= 5 * rounding::one() <==> a_twentieth_lost(q),
        quality::loss(q@) > 5 * rounding::one() <==> more_than_a_twentieth_lost(q),
{
    if q.sent > 0 {
        binary64::law_percent_compares_as_counts(
            (q.sent - q.succeeded) as nat,
            q.sent as nat,
            20,
        );
        binary64::law_percent_compares_as_counts((q.sent - q.succeeded) as nat, q.sent as nat, 5);
    } else {
        vstd::arithmetic::power2::lemma_pow2_pos(1074);
    }
}

/// Sampled connections to the gateway are there to be read: some succeeded, and the
/// target was sampled too.
pub open spec fn gateway_was_sampled(inp: Evidence) -> bool {
    inp.target_quality is Some && inp.gateway_quality is Some && inp.gateway_quality->0.succeeded
        > 0
}

/// The samples of the gateway are bad enough to be blamed.
pub open spec fn local_link_loses(inp: Evidence) -> bool {
    gateway_was_sampled(inp) && a_fifth_lost(inp.gateway_quality->0)
}

/// The samples of the target are bad enough to be blamed.
pub open spec fn far_link_loses(inp: Evidence) -> bool {
    inp.target_quality is Some && a_fifth_lost(inp.target_quality->0)
}

/// The hops are bad enough to be blamed.
pub open spec fn route_fails(inp: Evidence) -> bool {
    !(route::fate(
        inp.hops,
        inp.target_answers(),
        inp.target,
        inp.beyond() || inp.applications(),
    ) is Clean)
}

/// Names do not resolve though the public network can be reached: some DNS server
/// answers, or some public address does.
pub open spec fn names_fail(inp: Evidence) -> bool {
    !inp.resolver_works() && (inp.reachable() > 0 || exists|k: int|
        0 <= k < inp.dns.len() && (#[trigger] inp.dns[k]).success)
}

/// No page comes though some public address answers.
pub open spec fn pages_fail(inp: Evidence) -> bool {
    inp.http is Some && !page_came(inp.http) && inp.reachable() > 0
}

/// The findings hold one of this level, on this part of the network.
pub open spec fn finds(v: Seq<Note>, level: Level, segment: Seq<char>) -> bool {
    exists|i: int| 0 <= i < v.len() && (#[trigger] v[i]).level == level && v[i].segment == segment
}

proof fn lemma_finds_concat(a: Seq<Note>, b: Seq<Note>, level: Level, segment: Seq<char>)
    ensures
        finds(a + b, level, segment) <==> finds(a, level, segment) || finds(b, level, segment),
{
    let c = a + b;
    assert(forall|i: int| 0 <= i < a.len() ==> #[trigger] c[i] == a[i]);
    assert(forall|i: int| 0 <= i < a.len() ==> #[trigger] a[i] == c[i]);
    assert(forall|i: int| 0 <= i < b.len() ==> #[trigger] b[i] == c[a.len() + i]);
    assert(forall|i: int| a.len() <= i < c.len() ==> #[trigger] c[i] == b[i - a.len()]);
}

/// The parts that follow the public network, by what they must be.
spec fn later_notes(inp: Evidence) -> Seq<Note> {
    route_part(inp).notes + local_quality_part(inp).notes + end_quality_part(inp).notes + dns_part(
        inp,
    ).notes + http_part(inp).notes
}

/// Levels and parts of the network of findings.
pub open spec fn kinds(v: Seq<Note>) -> Seq<(Level, Seq<char>)> {
    v.map_values(|n: Note| (n.level, n.segment))
}

/// The kinds of findings on the hops, by the verdict on them.
pub open spec fn route_kinds(inp: Evidence) -> Seq<(Level, Seq<char>)> {
    seq![
        (
            if route_fails(inp) {
                Level::Error
            } else {
                Level::Normal
            },
            "逐跳链路"@,
        ),
    ]
}

/// The kinds of findings on the sampled connections to the gateway, by the counts.
pub open spec fn local_kinds(inp: Evidence) -> Seq<(Level, Seq<char>)> {
    if local_link_loses(inp) {
        seq![(Level::Error, "网络质量"@)]
    } else if gateway_was_sampled(inp) && more_than_a_twentieth_lost(inp.gateway_quality->0) {
        seq![(Level::Warn, "网络质量"@)]
    } else {
        Seq::empty()
    }
}

/// The kinds of findings on the sampled connections to the target, by the counts.
pub open spec fn far_kinds(inp: Evidence) -> Seq<(Level, Seq<char>)> {
    if inp.target_quality is None {
        Seq::empty()
    } else if far_link_loses(inp) {
        seq![(Level::Error, "网络质量"@)]
    } else if a_twentieth_lost(inp.target_quality->0) {
        seq![(Level::Warn, "网络质量"@)]
    } else if gateway_was_sampled(inp) && binary64::rises(
        inp.gateway_quality->0.avg_ms@,
        inp.target_quality->0.avg_ms@,
    ) {
        seq![(Level::Warn, "网络质量"@)]
    } else if gateway_was_sampled(inp) || inp.target_quality->0.succeeded > 0 {
        seq![(Level::Normal, "网络质量"@)]
    } else {
        Seq::empty()
    }
}

/// The kind of finding on DNS, by the answers.
pub open spec fn dns_kinds(inp: Evidence) -> Seq<(Level, Seq<char>)> {
    if inp.resolver_works() {
        seq![(Level::Normal, "DNS 解析"@)]
    } else if exists|k: int| 0 <= k < inp.dns.len() && (#[trigger] inp.dns[k]).success {
        seq![(Level::Error, "DNS 配置"@)]
    } else if inp.reachable() > 0 {
        seq![(Level::Error, "DNS 解析"@)]
    } else {
        seq![(Level::Warn, "DNS 解析"@)]
    }
}

/// The kinds of findings on HTTP, by the page that was tried.
pub open spec fn http_kinds(inp: Evidence) -> Seq<(Level, Seq<char>)> {
    if inp.http is None {
        Seq::empty()
    } else if page_came(inp.http) && inp.http->0.note@.len() == 0 {
        seq![(Level::Normal, "应用层 HTTP"@)]
    } else if page_came(inp.http) {
        seq![(Level::Warn, "应用层 HTTP"@)]
    } else if inp.reachable() > 0 {
        seq![(Level::Error, "应用层 HTTP"@)]
    } else {
        Seq::empty()
    }
}

/// Where the diagnosis goes on to the hops, its further findings follow from the
/// counts and answers: one on the hops, which is an error exactly where they have a
/// bottleneck or a break; one on the samples of the gateway, an error from a fifth of
/// loss on and a warning above a twentieth; one on those of the target, an error from a
/// fifth of loss on, total loss included, and a warning from a twentieth on or where
/// the round trip rises behind the gateway; one on DNS; and one on HTTP.
pub proof fn law_findings_follow_measurements(inp: Evidence)
    requires
        inp.wf(),
        reaches_route(inp),
    ensures
        kinds(opinion(inp).findings.skip(3)) == route_kinds(inp) + local_kinds(inp) + far_kinds(inp)
            + dns_kinds(inp) + http_kinds(inp),
{
    let (r, l, e) = (
        route_part(inp).notes,
        local_quality_part(inp).notes,
        end_quality_part(inp).notes,
    );
    let (d, h) = (dns_part(inp).notes, http_part(inp).notes);
    lemma_later_findings(inp);
    lemma_kinds_concat(r + l + e + d, h);
    lemma_kinds_concat(r + l + e, d);
    lemma_kinds_concat(r + l, e);
    lemma_kinds_concat(r, l);
    lemma_route_kinds(inp);
    lemma_local_kinds(inp);
    lemma_far_kinds(inp);
    lemma_dns_kinds(inp);
    lemma_http_kinds(inp);
}

proof fn lemma_later_findings(inp: Evidence)
    requires
        reaches_route(inp),
    ensures
        opinion(inp).findings.skip(3) == later_notes(inp),
{
    lemma_behind_three(
        seq![
            adapter_note(inp.adapter->0@),
            gateway_stage(inp).note,
            public_stage(inp, gateway_stage(inp).ok).note,
        ],
        route_part(inp).notes,
        local_quality_part(inp).notes,
        end_quality_part(inp).notes,
        dns_part(inp).notes,
        http_part(inp).notes,
    );
}

proof fn lemma_behind_three(
    first: Seq<Note>,
    a: Seq<Note>,
    b: Seq<Note>,
    c: Seq<Note>,
    d: Seq<Note>,
    e: Seq<Note>,
)
    requires
        first.len() == 3,
    ensures
        (first + a + b + c + d + e).skip(3) == a + b + c + d + e,
{
    assert((first + a + b + c + d + e).skip(3) =~= a + b + c + d + e);
}

proof fn lemma_kinds_concat(a: Seq<Note>, b: Seq<Note>)
    ensures
        kinds(a + b) == kinds(a) + kinds(b),
{
    assert(kinds(a + b) =~= kinds(a) + kinds(b));
}

proof fn lemma_route_kinds(inp: Evidence)
    ensures
        kinds(route_part(inp).notes) == route_kinds(inp),
{
    assert(kinds(route_part(inp).notes) =~= route_kinds(inp));
}

proof fn lemma_local_kinds(inp: Evidence)
    requires
        inp.target_quality is Some ==> (inp.gateway_quality matches Some(q) ==> q.wf()),
    ensures
        kinds(local_quality_part(inp).notes) == local_kinds(inp),
{
    if inp.target_quality is Some {
        if let Some(g) = inp.gateway_quality {
            lemma_quality_thresholds(g);
        }
    }
    assert(kinds(local_quality_part(inp).notes) =~= local_kinds(inp));
}

proof fn lemma_far_kinds(inp: Evidence)
    requires
        inp.target_quality matches Some(q) ==> q.wf(),
    ensures
        kinds(end_quality_part(inp).notes) == far_kinds(inp),
{
    if let Some(t) = inp.target_quality {
        lemma_quality_thresholds(t);
    }
    assert(kinds(end_quality_part(inp).notes) =~= far_kinds(inp));
}

proof fn lemma_dns_kinds(inp: Evidence)
    ensures
        kinds(dns_part(inp).notes) == dns_kinds(inp),
{
    assert(kinds(dns_part(inp).notes) =~= dns_kinds(inp));
}

proof fn lemma_http_kinds(inp: Evidence)
    ensures
        kinds(http_part(inp).notes) == http_kinds(inp),
{
    assert(kinds(http_part(inp).notes) =~= http_kinds(inp));
}

/// Where at least a fifth of the sampled connections to the target is lost, all of them
/// included, the findings hold an error on the quality of the network and the
/// conclusion accuses.
#[verifier::rlimit(40)]
pub proof fn law_heavy_loss_is_an_error(inp: Evidence)
    requires
        inp.wf(),
        reaches_route(inp),
        inp.target_quality matches Some(t) && 5 * (t.sent - t.succeeded) >= t.sent > 0,
    ensures
        finds(opinion(inp).findings, Level::Error, "网络质量"@),
        has_error(opinion(inp).findings),
        accuses(opinion(inp).conclusion),
{
    lemma_quality_thresholds(inp.target_quality->0);
    law_conclusion_follows_findings(inp);
    lemma_end_quality_consistent(inp);
    let e = end_quality_part(inp).notes;
    assert(e[0].level == Level::Error && e[0].segment == "网络质量"@);
    let all = opinion(inp).findings;
    let before = seq![
        adapter_note(inp.adapter->0@),
        gateway_stage(inp).note,
        public_stage(inp, gateway_stage(inp).ok).note,
    ] + route_part(inp).notes + local_quality_part(inp).notes;
    lemma_finds_concat(before, e, Level::Error, "网络质量"@);
    lemma_finds_concat(before + e, dns_part(inp).notes, Level::Error, "网络质量"@);
    lemma_finds_concat(
        before + e + dns_part(inp).notes,
        http_part(inp).notes,
        Level::Error,
        "网络质量"@,
    );
    assert(all == before + e + dns_part(inp).notes + http_part(inp).notes);
    assert(end_quality_part(inp).blame is Some);
    assert(blamed(inp) is Some);
    lemma_route_consistent(inp);
    lemma_local_quality_consistent(inp);
}

/// What is concluded where the diagnosis goes on to the hops. The first of these that
/// fails is accused: the hops, the samples of the gateway, the samples of the target,
/// the names, the pages. Where none fails, all is clear.
#[verifier::rlimit(40)]
pub proof fn law_first_failure_is_concluded(inp: Evidence)
    requires
        inp.wf(),
        reaches_route(inp),
    ensures
        ({
            let c = opinion(inp).conclusion;
            let pct = |q: QualityStats|
                binary64::fixed0(
                    binary64::product_percent((q.sent - q.succeeded) as nat, q.sent as nat),
                );
            if route_fails(inp) {
                c == "瓶颈定位："@ + opinion(inp).findings[3].detail
            } else if local_link_loses(inp) {
                c == "瓶颈定位：本地网络段 —— 网关段 TCP 采样丢包 "@ + pct(inp.gateway_quality->0)
                    + "%，质量瓶颈在本地链路。"@
            } else if far_link_loses(inp) {
                c == "瓶颈定位："@ + (if gateway_was_sampled(inp) && a_twentieth_lost(
                    inp.gateway_quality->0,
                ) {
                    "链路丢包严重"@
                } else {
                    "运营商网络/目标侧"@
                }) + " —— 端到端 TCP 采样丢包 "@ + pct(inp.target_quality->0) + "%。"@
            } else if names_fail(inp) {
                starts_with(
                    c,
                    if exists|k: int| 0 <= k < inp.dns.len() && (#[trigger] inp.dns[k]).success {
                        "瓶颈定位：DNS 配置"@
                    } else {
                        "瓶颈定位：DNS 解析链路"@
                    },
                )
            } else if pages_fail(inp) {
                starts_with(c, "瓶颈定位：应用层"@)
            } else {
                starts_with(c, "未发现明显瓶颈"@)
            }
        }),
{
    if let Some(t) = inp.target_quality {
        lemma_quality_thresholds(t);
        if let Some(g) = inp.gateway_quality {
            lemma_quality_thresholds(g);
        }
    }
    assert(opinion(inp).findings[3] == route_part(inp).notes[0]);
    reveal_strlit("瓶颈定位：DNS 配置");
    reveal_strlit("瓶颈定位：DNS 解析链路");
    reveal_strlit("瓶颈定位：应用层");
    reveal_strlit("未发现明显瓶颈");
    reveal_strlit("瓶颈定位：DNS 配置 —— 系统配置的 DNS 服务器失效，而公共 DNS 可用，网页打不开是 DNS 的问题。");
    reveal_strlit("瓶颈定位：DNS 解析链路 —— 全部 DNS 查询失败，域名无法打开但 IP 直连正常。");
    reveal_strlit(
        "瓶颈定位：应用层 / 代理配置 —— 网络链路正常但 HTTP 请求失败，多为代理、防火墙或 Web 认证问题。",
    );
    reveal_strlit(
        "未发现明显瓶颈：本机到公网链路各环节检查正常。若问题间歇性出现，建议在问题发生时重新诊断，或针对具体应用 / 目标再测一次。",
    );
    let c = opinion(inp).conclusion;
    if !route_fails(inp) && !local_link_loses(inp) && !far_link_loses(inp) {
        if names_fail(inp) {
            if some_server(inp.dns) {
                assert(c.take(11) =~= "瓶颈定位：DNS 配置"@);
            } else {
                assert(c.take(13) =~= "瓶颈定位：DNS 解析链路"@);
            }
        } else if pages_fail(inp) {
            assert(c.take(8) =~= "瓶颈定位：应用层"@);
        } else {
            assert(c.take(7) =~= "未发现明显瓶颈"@);
        }
    }
}

/// The findings hold one of this level, on this part of the network, that says these
/// words.
pub open spec fn tells(v: Seq<Note>, level: Level, segment: Seq<char>, words: Seq<char>) -> bool {
    exists|i: int|
        0 <= i < v.len() && (#[trigger] v[i]).level == level && v[i].segment == segment
            && text::holds(v[i].detail, words)
}

proof fn lemma_parts_found(inp: Evidence)
    requires
        reaches_route(inp),
    ensures
        ({
            let v = opinion(inp).findings;
            let (l, e) = (
                local_quality_part(inp).notes.len() as int,
                end_quality_part(inp).notes.len() as int,
            );
            &&& v.len() == 5 + l + e + http_part(inp).notes.len()
            &&& v[3] == route_part(inp).notes[0]
            &&& l > 0 ==> v[4] == local_quality_part(inp).notes[0]
            &&& e > 0 ==> v[4 + l] == end_quality_part(inp).notes[0]
            &&& v[4 + l + e] == dns_part(inp).notes[0]
            &&& http_part(inp).notes.len() > 0 ==> v[5 + l + e] == http_part(inp).notes[0]
        }),
{
    assert(route_part(inp).notes.len() == 1);
    assert(dns_part(inp).notes.len() == 1);
}

/// What is found of the hops is what the verdict on them says, with its advice.
pub proof fn law_route_verdict_is_told(inp: Evidence)
    requires
        reaches_route(inp),
    ensures
        ({
            let n = opinion(inp).findings[3];
            match route::fate(
                inp.hops,
                inp.target_answers(),
                inp.target,
                inp.beyond() || inp.applications(),
            ) {
                route::Fate::Clean(m) => n.detail == m && n.suggestion is None,
                route::Fate::Bottleneck(m, s) => n.detail == m && n.suggestion == Some(s),
                route::Fate::Unreachable(m, s) => n.detail == m && n.suggestion == Some(s),
            }
        }),
{
    lemma_parts_found(inp);
}

/// What is found of the sampled connections is told with their numbers. Heavy loss on
/// the way to the target is put behind the gateway exactly where the samples of the
/// gateway show nothing of it.
#[verifier::rlimit(40)]
pub proof fn law_lost_samples_are_told(inp: Evidence)
    requires
        inp.wf(),
        reaches_route(inp),
    ensures
        local_link_loses(inp) ==> tells(
            opinion(inp).findings,
            Level::Error,
            "网络质量"@,
            binary64::fixed0(
                binary64::product_percent(
                    (inp.gateway_quality->0.sent - inp.gateway_quality->0.succeeded) as nat,
                    inp.gateway_quality->0.sent as nat,
                ),
            ) + "%（"@ + quality::quality_text(inp.gateway_quality->0@),
        ),
        far_link_loses(inp) ==> tells(
            opinion(inp).findings,
            Level::Error,
            "网络质量"@,
            "端到端 TCP 丢包 "@ + binary64::fixed0(
                binary64::product_percent(
                    (inp.target_quality->0.sent - inp.target_quality->0.succeeded) as nat,
                    inp.target_quality->0.sent as nat,
                ),
            ) + "%（"@ + quality::quality_text(inp.target_quality->0@) + "）"@,
        ),
        far_link_loses(inp) && !(gateway_was_sampled(inp) && a_twentieth_lost(
            inp.gateway_quality->0,
        )) ==> tells(
            opinion(inp).findings,
            Level::Error,
            "网络质量"@,
            "，而本地段质量良好，丢包发生在网关之后"@,
        ),
{
    lemma_parts_found(inp);
    if let Some(t) = inp.target_quality {
        lemma_quality_thresholds(t);
        if let Some(g) = inp.gateway_quality {
            lemma_quality_thresholds(g);
        }
    }
    if local_link_loses(inp) {
        let n = local_quality_part(inp).notes[0];
        let g = inp.gateway_quality->0@;
        let words = binary64::fixed0(quality::loss(g)) + "%（"@ + quality::quality_text(g);
        let head = "本地段（本机→网关）TCP 丢包 "@;
        assert(n.detail =~= head + words + "），丢包严重"@);
        text::lemma_holds_itself(words);
        text::lemma_holds_concat(head, words, words);
        text::lemma_holds_concat(head + words, "），丢包严重"@, words);
        assert(opinion(inp).findings[4] == n);
    }
    if far_link_loses(inp) {
        let n = end_quality_part(inp).notes[0];
        let t = inp.target_quality->0@;
        let words = "端到端 TCP 丢包 "@ + binary64::fixed0(quality::loss(t)) + "%（"@
            + quality::quality_text(t) + "）"@;
        let tail = if gateway_was_sampled(inp) && a_twentieth_lost(inp.gateway_quality->0) {
            ""@
        } else {
            "，而本地段质量良好，丢包发生在网关之后"@
        };
        assert(n.detail =~= words + tail);
        text::lemma_holds_itself(words);
        text::lemma_holds_concat(words, tail, words);
        text::lemma_holds_itself(tail);
        text::lemma_holds_concat(words, tail, tail);
        assert(opinion(inp).findings[4int + local_quality_part(inp).notes.len()] == n);
    }
}

/// What is found of DNS and HTTP is told with who answered and what came. The addresses
/// of the resolver are told; every server that answers where the resolver does not is
/// named; a page is told with its host, its status and what is wrong with it.
#[verifier::rlimit(40)]
pub proof fn law_names_and_pages_are_told(inp: Evidence, k: int)
    requires
        reaches_route(inp),
    ensures
        inp.resolver_works() ==> tells(
            opinion(inp).findings,
            Level::Normal,
            "DNS 解析"@,
            inp.dns_domain + " 正常（"@ + addr::list_text(inp.system_dns->0, ", "@),
        ),
        !inp.resolver_works() && 0 <= k < inp.dns.len() && inp.dns[k].success ==> tells(
            opinion(inp).findings,
            Level::Error,
            "DNS 配置"@,
            inp.dns[k].server.text() + " "@ + inp.dns[k].label@,
        ),
        page_came(inp.http) ==> tells(
            opinion(inp).findings,
            if inp.http->0.note@.len() == 0 {
                Level::Normal
            } else {
                Level::Warn
            },
            "应用层 HTTP"@,
            "访问 "@ + inp.http->0.host@ + " 成功（HTTP "@ + text::dec(
                inp.http->0.status_code->0 as nat,
            ),
        ),
        page_came(inp.http) && inp.http->0.note@.len() > 0 ==> tells(
            opinion(inp).findings,
            Level::Warn,
            "应用层 HTTP"@,
            inp.http->0.note@,
        ),
        pages_fail(inp) ==> tells(
            opinion(inp).findings,
            Level::Error,
            "应用层 HTTP"@,
            inp.http->0.host@,
        ),
        pages_fail(inp) && inp.http->0.note@.len() > 0 ==> tells(
            opinion(inp).findings,
            Level::Error,
            "应用层 HTTP"@,
            inp.http->0.note@,
        ),
{
    lemma_parts_found(inp);
    let at = 4int + local_quality_part(inp).notes.len() + end_quality_part(inp).notes.len();
    let d = dns_part(inp).notes[0];
    assert(opinion(inp).findings[at] == d);
    if inp.resolver_works() {
        let list = addr::list_text(inp.system_dns->0, ", "@);
        let words = inp.dns_domain + " 正常（"@ + list;
        assert(d.detail =~= "系统解析 "@ + words + "）"@);
        text::lemma_holds_itself(words);
        text::lemma_holds_concat("系统解析 "@, words, words);
        text::lemma_holds_concat("系统解析 "@ + words, "）"@, words);
    } else if 0 <= k < inp.dns.len() && inp.dns[k].success {
        let words = inp.dns[k].server.text() + " "@ + inp.dns[k].label@;
        lemma_server_named(inp.dns, k);
        let names = servers(inp.dns);
        let j = choose|j: int| 0 <= j < names.len() && names[j] == words;
        lemma_joined_holds(names, j, "、"@);
        let t = text::joined(names, "、"@);
        let head = "系统 DNS 无法解析 "@ + inp.dns_domain + "，但直连公共 DNS（"@;
        text::lemma_holds_concat(head, t, words);
        text::lemma_holds_concat(head + t, "）可以解析"@, words);
    }
    if page_came(inp.http) || pages_fail(inp) {
        let h = inp.http->0;
        let n = http_part(inp).notes[0];
        assert(opinion(inp).findings[at + 1] == n);
        let note = h.note@;
        text::lemma_holds_itself(note);
        if page_came(inp.http) {
            let words = "访问 "@ + h.host@ + " 成功（HTTP "@ + text::dec(h.status_code->0 as nat);
            let ms = text::dec(h.elapsed_ms as nat);
            let t = words + "），总耗时 "@ + ms + "ms"@;
            text::lemma_holds_itself(words);
            text::lemma_holds_concat(words, "），总耗时 "@, words);
            text::lemma_holds_concat(words + "），总耗时 "@, ms, words);
            text::lemma_holds_concat(words + "），总耗时 "@ + ms, "ms"@, words);
            text::lemma_holds_concat(t, "；"@, words);
            text::lemma_holds_concat(t + "；"@, note, words);
            text::lemma_holds_concat(t + "；"@, note, note);
        } else {
            let host = h.host@;
            let head = "IP 层连通但 HTTP 访问 "@;
            let why = if note.len() == 0 {
                "未获得有效响应"@
            } else {
                note
            };
            text::lemma_holds_itself(host);
            text::lemma_holds_concat(head, host, host);
            text::lemma_holds_concat(head + host, " 失败（"@, host);
            text::lemma_holds_concat(head + host + " 失败（"@, why, host);
            text::lemma_holds_concat(head + host + " 失败（"@ + why, "）"@, host);
            if note.len() > 0 {
                text::lemma_holds_concat(head + host + " 失败（"@, note, note);
                text::lemma_holds_concat(head + host + " 失败（"@ + note, "）"@, note);
            }
        }
    }
}

proof fn lemma_server_named(dns: Seq<DnsQueryResult>, k: int)
    requires
        0 <= k < dns.len(),
        dns[k].success,
    ensures
        exists|j: int|
            0 <= j < servers(dns).len() && #[trigger] servers(dns)[j] == dns[k].server.text() + " "@
                + dns[k].label@,
    decreases dns.len(),
{
    let init = servers(dns.drop_last());
    let words = dns[k].server.text() + " "@ + dns[k].label@;
    if k == dns.len() - 1 {
        assert(servers(dns)[init.len() as int] == words);
    } else {
        assert(dns.drop_last()[k] == dns[k]);
        lemma_server_named(dns.drop_last(), k);
        let j = choose|j: int| 0 <= j < init.len() && #[trigger] init[j] == words;
        assert(servers(dns)[j] == words);
    }
}

proof fn lemma_joined_holds(parts: Seq<Seq<char>>, j: int, sep: Seq<char>)
    requires
        0 <= j < parts.len(),
    ensures
        text::holds(text::joined(parts, sep), parts[j]),
    decreases parts.len(),
{
    text::lemma_holds_itself(parts[j]);
    if parts.len() > 1 {
        let init = parts.drop_last();
        let t = text::joined(init, sep);
        if j < init.len() {
            lemma_joined_holds(init, j, sep);
            assert(init[j] == parts[j]);
            text::lemma_holds_concat(t, sep, parts[j]);
        }
        text::lemma_holds_concat(t + sep, parts.last(), parts[j]);
    }
}

/// What a diagnosis rests on is what it was given, each measurement taken for what it is.
pub proof fn law_inputs_are_taken_as_given(inp: &Inputs)
    ensures
        match inp.adapter {
            Some(a) => inp@.adapter == Some(*a),
            None => inp@.adapter is None,
        },
        inp@.gateway_addr == inp.gateway_addr,
        match inp.gateway {
            Some(s) => inp@.gateway == Some(*s),
            None => inp@.gateway is None,
        },
        inp@.gateway_arp == inp.gateway_arp,
        inp@.publics == inp.publics@,
        inp@.publics_quality == inp.publics_quality@,
        match inp.gateway_quality {
            Some(q) => inp@.gateway_quality == Some(*q),
            None => inp@.gateway_quality is None,
        },
        match inp.target_quality {
            Some(q) => inp@.target_quality == Some(*q),
            None => inp@.target_quality is None,
        },
        inp@.target == inp.target,
        match inp.target_stats {
            Some(s) => inp@.target_stats == Some(*s),
            None => inp@.target_stats is None,
        },
        inp@.dns == inp.dns@,
        inp@.dns_domain == inp.dns_domain@,
        match *inp.system_dns {
            Some(v) => inp@.system_dns == Some(v@),
            None => inp@.system_dns is None,
        },
        inp@.hops == inp.hops@,
        match inp.http {
            Some(h) => inp@.http == Some(*h),
            None => inp@.http is None,
        },
{
}

/// A diagnosis says exactly what follows from its inputs, finding by finding, and its
/// conclusion.
pub proof fn law_diagnosis_is_the_opinion(inp: &Inputs, d: Diagnosis)
    requires
        call_ensures(run, (inp,), d),
    ensures
        d.conclusion@ == opinion(inp@).conclusion,
        d.findings@.len() == opinion(inp@).findings.len(),
        forall|i: int|
            0 <= i < d.findings@.len() ==> {
                let (f, n) = (#[trigger] d.findings@[i], opinion(inp@).findings[i]);
                &&& f.level == n.level
                &&& f.segment@ == n.segment
                &&& f.detail@ == n.detail
                &&& f.suggestion is Some <==> n.suggestion is Some
                &&& f.suggestion matches Some(t) ==> n.suggestion == Some(t@)
            },
{
    let v = notes(d.findings@);
    assert(v == opinion(inp@).findings);
    assert(forall|i: int| 0 <= i < d.findings@.len() ==> v[i] == (#[trigger] d.findings@[i])@);
}

/// The mark before a finding tells how serious it is.
pub proof fn law_marks()
    ensures
        Level::Normal.mark() == "[正常]"@,
        Level::Warn.mark() == "[注意]"@,
        Level::Error.mark() == "[异常]"@,
{
}

/// Loss that is no error yet is told with its share: on the way to the gateway, and on
/// the way to the target.
#[verifier::rlimit(40)]
pub proof fn law_lighter_loss_is_told(inp: Evidence)
    requires
        inp.wf(),
        reaches_route(inp),
    ensures
        gateway_was_sampled(inp) && more_than_a_twentieth_lost(inp.gateway_quality->0)
            && !a_fifth_lost(inp.gateway_quality->0) ==> tells(
            opinion(inp).findings,
            Level::Warn,
            "网络质量"@,
            "本地段（本机→网关）TCP 丢包 "@ + binary64::fixed0(
                binary64::product_percent(
                    (inp.gateway_quality->0.sent - inp.gateway_quality->0.succeeded) as nat,
                    inp.gateway_quality->0.sent as nat,
                ),
            ) + "%，质量偏差"@,
        ),
        inp.target_quality is Some && a_twentieth_lost(inp.target_quality->0) && !a_fifth_lost(
            inp.target_quality->0,
        ) ==> tells(
            opinion(inp).findings,
            Level::Warn,
            "网络质量"@,
            "端到端 TCP 丢包 "@ + binary64::fixed0(
                binary64::product_percent(
                    (inp.target_quality->0.sent - inp.target_quality->0.succeeded) as nat,
                    inp.target_quality->0.sent as nat,
                ),
            ) + "%，质量偏差"@,
        ),
{
    lemma_parts_found(inp);
    let v = opinion(inp).findings;
    let at = 4int + local_quality_part(inp).notes.len();
    if let Some(t) = inp.target_quality {
        lemma_quality_thresholds(t);
        if let Some(g) = inp.gateway_quality {
            lemma_quality_thresholds(g);
        }
        if gateway_was_sampled(inp) && more_than_a_twentieth_lost(inp.gateway_quality->0)
            && !a_fifth_lost(inp.gateway_quality->0) {
            let n = local_quality_part(inp).notes[0];
            lemma_tells_at(v, 4, n.detail);
        }
        if a_twentieth_lost(t) && !a_fifth_lost(t) {
            let n = end_quality_part(inp).notes[0];
            lemma_tells_at(v, at, n.detail);
        }
    }
}

proof fn lemma_tells_at(v: Seq<Note>, i: int, words: Seq<char>)
    requires
        0 <= i < v.len(),
        v[i].detail == words,
    ensures
        tells(v, v[i].level, v[i].segment, words),
{
    text::lemma_holds_itself(words);
}

proof fn lemma_tells_within(
    v: Seq<Note>,
    i: int,
    head: Seq<char>,
    words: Seq<char>,
    foot: Seq<char>,
)
    requires
        0 <= i < v.len(),
        v[i].detail == head + words + foot,
    ensures
        tells(v, v[i].level, v[i].segment, words),
{
    text::lemma_holds_itself(words);
    text::lemma_holds_concat(head, words, words);
    text::lemma_holds_concat(head + words, foot, words);
}

/// Where little is lost, the round trips of the sampled connections are told: that to the
/// target, and beside it that to the gateway where it rises behind it.
#[verifier::rlimit(40)]
pub proof fn law_round_trips_are_told(inp: Evidence)
    requires
        inp.wf(),
        reaches_route(inp),
        inp.target_quality is Some,
        !a_twentieth_lost(inp.target_quality->0),
    ensures
        gateway_was_sampled(inp) && binary64::rises(
            inp.gateway_quality->0.avg_ms@,
            inp.target_quality->0.avg_ms@,
        ) ==> tells(
            opinion(inp).findings,
            Level::Warn,
            "网络质量"@,
            "时延主要在网关之后产生：本地段 "@ + binary64::fixed0(inp.gateway_quality->0.avg_ms@)
                + "ms → 端到端 "@ + binary64::fixed0(inp.target_quality->0.avg_ms@) + "ms"@,
        ),
        gateway_was_sampled(inp) && !binary64::rises(
            inp.gateway_quality->0.avg_ms@,
            inp.target_quality->0.avg_ms@,
        ) ==> tells(
            opinion(inp).findings,
            Level::Normal,
            "网络质量"@,
            "%，端到端时延 "@ + binary64::fixed0(inp.target_quality->0.avg_ms@),
        ),
        !gateway_was_sampled(inp) && inp.target_quality->0.succeeded > 0 ==> tells(
            opinion(inp).findings,
            Level::Normal,
            "网络质量"@,
            "%，时延 "@ + binary64::fixed0(inp.target_quality->0.avg_ms@),
        ),
{
    lemma_parts_found(inp);
    let v = opinion(inp).findings;
    let at = 4int + local_quality_part(inp).notes.len();
    let t = inp.target_quality->0;
    lemma_quality_thresholds(t);
    assert(!a_fifth_lost(t));
    let ms = binary64::fixed0(t.avg_ms@);
    if gateway_was_sampled(inp) {
        let g = inp.gateway_quality->0@;
        let n = end_quality_part(inp).notes[0];
        assert(n == round_trip_note(g, t@));
        if binary64::rises(g.avg, t.avg_ms@) {
            lemma_tells_at(v, at, n.detail);
        } else {
            let head = "TCP 采样质量良好：本地段丢包 "@ + binary64::fixed0(quality::loss(g))
                + "%、端到端丢包 "@ + binary64::fixed0(quality::loss(t@));
            lemma_grouped(head, "%，端到端时延 "@, ms, "ms"@);
            lemma_tells_within(v, at, head, "%，端到端时延 "@ + ms, "ms"@);
        }
    } else if t.succeeded > 0 {
        let head = "端到端 TCP 采样质量良好：丢包 "@ + binary64::fixed0(quality::loss(t@));
        let foot = "ms（本地段以 ICMP 统计为准）"@;
        lemma_grouped(head, "%，时延 "@, ms, foot);
        lemma_tells_within(v, at, head, "%，时延 "@ + ms, foot);
    }
}

proof fn lemma_grouped(head: Seq<char>, a: Seq<char>, b: Seq<char>, foot: Seq<char>)
    ensures
        head + a + b + foot == head + (a + b) + foot,
{
    assert(head + a + b =~= head + (a + b));
}

/// Where no server resolves the domain though the public network can be reached, the
/// domain is named.
pub proof fn law_unresolved_domain_is_told(inp: Evidence)
    requires
        reaches_route(inp),
        names_fail(inp),
        forall|k: int| 0 <= k < inp.dns.len() ==> !(#[trigger] inp.dns[k]).success,
    ensures
        tells(opinion(inp).findings, Level::Error, "DNS 解析"@, inp.dns_domain),
{
    lemma_parts_found(inp);
    let at = 4int + local_quality_part(inp).notes.len() + end_quality_part(inp).notes.len();
    lemma_tells_within(
        opinion(inp).findings,
        at,
        "所有 DNS 服务器查询 "@,
        inp.dns_domain,
        " 均失败，但 IP 直连公网正常"@,
    );
}

/// An error comes with advice, what is normal needs none.
pub open spec fn fitly_advised(n: Note) -> bool {
    &&& n.level == Level::Error ==> n.suggestion is Some
    &&& n.level == Level::Normal ==> n.suggestion is None
}

spec fn all_advised(v: Seq<Note>) -> bool {
    forall|i: int| 0 <= i < v.len() ==> fitly_advised(#[trigger] v[i])
}

proof fn lemma_advised_concat(a: Seq<Note>, b: Seq<Note>)
    requires
        all_advised(a),
        all_advised(b),
    ensures
        all_advised(a + b),
{
    assert forall|i: int| 0 <= i < (a + b).len() implies fitly_advised(#[trigger] (a + b)[i]) by {
        if i < a.len() {
            assert((a + b)[i] == a[i]);
        } else {
            assert((a + b)[i] == b[i - a.len()]);
        }
    }
}

proof fn lemma_stages_advised(inp: Evidence, gateway_ok: bool)
    ensures
        fitly_advised(gateway_stage(inp).note),
        fitly_advised(public_stage(inp, gateway_ok).note),
{
}

proof fn lemma_route_advised(inp: Evidence)
    ensures
        all_advised(route_part(inp).notes),
{
}

proof fn lemma_quality_advised(inp: Evidence)
    ensures
        all_advised(local_quality_part(inp).notes),
        all_advised(end_quality_part(inp).notes),
{
}

proof fn lemma_web_advised(inp: Evidence)
    ensures
        all_advised(dns_part(inp).notes),
        all_advised(http_part(inp).notes),
{
}

/// Whatever was measured, every error comes with advice, and nothing that is normal does.
pub proof fn law_errors_come_with_advice(inp: Evidence)
    ensures
        forall|i: int|
            0 <= i < opinion(inp).findings.len() ==> fitly_advised(
                #[trigger] opinion(inp).findings[i],
            ),
{
    let v = opinion(inp).findings;
    let ok = gateway_stage(inp).ok;
    lemma_stages_advised(inp, ok);
    if reaches_route(inp) {
        let first = seq![
            adapter_note(inp.adapter->0@),
            gateway_stage(inp).note,
            public_stage(inp, ok).note,
        ];
        assert(all_advised(first));
        lemma_route_advised(inp);
        lemma_quality_advised(inp);
        lemma_web_advised(inp);
        let (r, l, e) = (
            route_part(inp).notes,
            local_quality_part(inp).notes,
            end_quality_part(inp).notes,
        );
        let (d, h) = (dns_part(inp).notes, http_part(inp).notes);
        lemma_advised_concat(first, r);
        lemma_advised_concat(first + r, l);
        lemma_advised_concat(first + r + l, e);
        lemma_advised_concat(first + r + l + e, d);
        lemma_advised_concat(first + r + l + e + d, h);
        assert(all_advised(v));
    }
}

} // verus!
