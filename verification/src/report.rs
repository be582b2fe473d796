//! The report: all that was measured and concluded, in words.

use crate::addr;
use crate::addr::Ipv4Addr;
use crate::binary64;
use crate::diagnose;
use crate::diagnose::{Diagnosis, Finding};
use crate::dns::DnsQueryResult;
use crate::env;
use crate::env::AdapterInfo;
use crate::http::HttpResult;
use crate::quality;
use crate::quality::{fmt_quality, QualityStats};
use crate::text;
use crate::trace;
use crate::trace::{fmt_stats, HopStat, PingStats};
use vstd::prelude::*;

verus! {

/// The version of this program.
pub const VERSION: &'static str = "0.1.0";

/// All that was measured in one diagnosis.
pub struct Session {
    pub time: String,
    pub target: Ipv4Addr,
    /// The target as it was asked for.
    pub target_input: String,
    pub count: u32,
    pub timeout_ms: u32,
    pub quality_count: u32,
    pub adapters: Vec<AdapterInfo>,
    /// The adapter in use.
    pub primary: Option<AdapterInfo>,
    pub gateway_addr: Option<Ipv4Addr>,
    pub gateway: Option<PingStats>,
    /// Whether the gateway answered on the link layer.
    pub gateway_arp: Option<bool>,
    pub publics: Vec<(Ipv4Addr, &'static str, PingStats)>,
    /// Sampled connections to the public addresses that do not answer pings.
    pub publics_quality: Vec<(Ipv4Addr, QualityStats)>,
    /// Sampled connections to the gateway.
    pub gateway_quality: Option<QualityStats>,
    /// Sampled connections to the target.
    pub target_quality: Option<QualityStats>,
    pub target_stats: Option<PingStats>,
    pub dns: Vec<DnsQueryResult>,
    pub dns_domain: String,
    /// What the resolver of the system answered.
    pub system_dns: Option<Vec<Ipv4Addr>>,
    pub hops: Vec<HopStat>,
    pub http: Option<HttpResult>,
    pub diagnosis: Option<Diagnosis>,
}

impl Session {
    /// All measurements are well-formed.
    pub open spec fn wf(&self) -> bool {
        &&& self.gateway matches Some(s) ==> s.wf()
        &&& forall|i: int|
            0 <= i < self.publics@.len() ==> (#[trigger] self.publics@[i]).2.wf()
        &&& forall|i: int|
            0 <= i < self.publics_quality@.len() ==> (#[trigger] self.publics_quality@[i]).1.wf()
        &&& self.gateway_quality matches Some(q) ==> q.wf()
        &&& self.target_quality matches Some(q) ==> q.wf()
        &&& self.target_stats matches Some(s) ==> s.wf()
        &&& trace::all_wf(self.hops@)
    }
}

impl Default for Session {
    /// A diagnosis of which nothing was measured.
    fn default() -> (s: Self)
        ensures
            s.wf(),
            s.time@ == Seq::<char>::empty(),
            s.target == (Ipv4Addr { a: 0, b: 0, c: 0, d: 0 }),
            s.target_input@ == Seq::<char>::empty(),
            s.count == 0,
            s.timeout_ms == 0,
            s.quality_count == 0,
            s.adapters@.len() == 0,
            s.primary is None,
            s.gateway_addr is None,
            s.gateway is None,
            s.gateway_arp is None,
            s.publics@.len() == 0,
            s.publics_quality@.len() == 0,
            s.gateway_quality is None,
            s.target_quality is None,
            s.target_stats is None,
            s.dns@.len() == 0,
            s.dns_domain@ == Seq::<char>::empty(),
            s.system_dns is None,
            s.hops@.len() == 0,
            s.http is None,
            s.diagnosis is None,
    {
        Session {
            time: String::new(),
            target: Ipv4Addr::unspecified(),
            target_input: String::new(),
            count: 0,
            timeout_ms: 0,
            quality_count: 0,
            adapters: Vec::new(),
            primary: None,
            gateway_addr: None,
            gateway: None,
            gateway_arp: None,
            publics: Vec::new(),
            publics_quality: Vec::new(),
            gateway_quality: None,
            target_quality: None,
            target_stats: None,
            dns: Vec::new(),
            dns_domain: String::new(),
            system_dns: None,
            hops: Vec::new(),
            http: None,
            diagnosis: None,
        }
    }
}

// ---- head ----

/// The head of the report.
pub open spec fn head_text(s: &Session) -> Seq<char> {
    "# 诸葛网络问题诊断报告\n\n- 诊断时间："@ + s.time@ + "\n- 诊断目标："@ + s.target.text() + "（"@
        + s.target_input@ + "）\n- 参数：每跳探测 "@ + text::dec(s.count as nat) + " 次，单次超时 "@
        + text::dec(s.timeout_ms as nat) + "ms，质量采样 "@ + text::dec(s.quality_count as nat)
        + " 次\n\n"@
}

fn head(s: &Session) -> (t: String)
    ensures
        t@ == head_text(s),
{
    let mut t = "# 诸葛网络问题诊断报告\n\n- 诊断时间：".to_string();
    t.append(s.time.as_str());
    t.append("\n- 诊断目标：");
    t.append(s.target.to_text().as_str());
    t.append("（");
    t.append(s.target_input.as_str());
    t.append("）\n- 参数：每跳探测 ");
    t.append(text::decimal(s.count as u128).as_str());
    t.append(" 次，单次超时 ");
    t.append(text::decimal(s.timeout_ms as u128).as_str());
    t.append("ms，质量采样 ");
    t.append(text::decimal(s.quality_count as u128).as_str());
    t.append(" 次\n\n");
    t
}

// ---- adapters ----

/// An address with its prefix, or that there is none.
pub open spec fn ipv4_text(a: Option<(Ipv4Addr, u8)>) -> Seq<char> {
    match a {
        Some((ip, p)) => ip.text() + "/"@ + text::dec(p as nat),
        None => "无 IPv4"@,
    }
}

/// Writes an address with its prefix, or that there is none.
pub fn ipv4(a: Option<(Ipv4Addr, u8)>) -> (t: String)
    ensures
        t@ == ipv4_text(a),
{
    match a {
        Some((ip, p)) => {
            let mut t = ip.to_text();
            t.append("/");
            t.append(text::decimal(p as u128).as_str());
            t
        },
        None => "无 IPv4".to_string(),
    }
}

/// Whether an adapter is connected, in words.
pub open spec fn state_text(up: bool) -> Seq<char> {
    if up {
        "已连接"@
    } else {
        "未连接"@
    }
}

/// Says whether an adapter is connected.
pub fn state(up: bool) -> (t: &'static str)
    ensures
        t@ == state_text(up),
{
    if up {
        "已连接"
    } else {
        "未连接"
    }
}

/// The addresses, or that there are none.
pub open spec fn addresses_text(list: Seq<Ipv4Addr>) -> Seq<char> {
    if list.len() == 0 {
        "无"@
    } else {
        addr::list_text(list, ", "@)
    }
}

fn addresses(list: &Vec<Ipv4Addr>) -> (t: String)
    ensures
        t@ == addresses_text(list@),
{
    if list.len() == 0 {
        "无".to_string()
    } else {
        addr::join(list, ", ")
    }
}

/// The lines of one adapter; the one in use is marked.
pub open spec fn adapter_lines(a: env::Adapter, used: bool) -> Seq<char> {
    let line = "- "@ + a.kind + " \""@ + env::shown_name(a) + "\""@ + (if used {
        "（主用）"@
    } else {
        ""@
    }) + "：状态="@ + state_text(a.up) + "，IPv4="@ + ipv4_text(a.ipv4) + "，网关="@ + addresses_text(
        a.gateways,
    ) + "，DNS="@ + addresses_text(a.dns_servers) + "\n"@;
    if a.description.len() == 0 {
        line
    } else {
        line + "  - 设备："@ + a.description + "\n"@
    }
}

fn adapter(a: &AdapterInfo, used: bool) -> (t: String)
    ensures
        t@ == adapter_lines(a@, used),
{
    let mut t = "- ".to_string();
    t.append(a.kind.as_str());
    t.append(" \"");
    t.append(a.friendly_name());
    t.append("\"");
    t.append(
        if used {
            "（主用）"
        } else {
            ""
        },
    );
    t.append("：状态=");
    t.append(state(a.up));
    t.append("，IPv4=");
    t.append(ipv4(a.ipv4).as_str());
    t.append("，网关=");
    t.append(addresses(&a.gateways).as_str());
    t.append("，DNS=");
    t.append(addresses(&a.dns_servers).as_str());
    t.append("\n");
    if !a.description.as_str().is_empty() {
        t.append("  - 设备：");
        t.append(a.description.as_str());
        t.append("\n");
    }
    t
}

/// The adapter has the name of the one in use.
pub open spec fn is_used(primary: Option<AdapterInfo>, a: AdapterInfo) -> bool {
    primary matches Some(p) && p.name@ == a.name@
}

/// The lines of the adapters.
pub open spec fn adapters_text(
    adapters: Seq<AdapterInfo>,
    primary: Option<AdapterInfo>,
) -> Seq<char>
    decreases adapters.len(),
{
    if adapters.len() == 0 {
        Seq::empty()
    } else {
        adapters_text(adapters.drop_last(), primary) + adapter_lines(
            adapters.last()@,
            is_used(primary, adapters.last()),
        )
    }
}

/// The part of the report on the adapters.
pub open spec fn adapters_section(s: &Session) -> Seq<char> {
    "## 1. 本地网络环境\n"@ + (if s.adapters@.len() == 0 {
        "- 未读取到任何网络适配器\n"@
    } else {
        adapters_text(s.adapters@, s.primary)
    }) + "\n"@
}

fn write_adapters(s: &Session) -> (t: String)
    ensures
        t@ == adapters_section(s),
{
    let mut lines = String::new();
    let mut i: usize = 0;
    while i < s.adapters.len()
        invariant
            i <= s.adapters@.len(),
            lines@ == adapters_text(s.adapters@.take(i as int), s.primary),
        decreases s.adapters.len() - i,
    {
        assert(s.adapters@.take(i + 1).drop_last() == s.adapters@.take(i as int));
        let used = match &s.primary {
            Some(p) => text::same(p.name.as_str(), s.adapters[i].name.as_str()),
            None => false,
        };
        lines.append(adapter(&s.adapters[i], used).as_str());
        i = i + 1;
    }
    assert(s.adapters@.take(i as int) == s.adapters@);
    let mut t = "## 1. 本地网络环境\n".to_string();
    if s.adapters.len() == 0 {
        t.append("- 未读取到任何网络适配器\n");
    } else {
        t.append(lines.as_str());
    }
    t.append("\n");
    t
}

// ---- gateway ----

/// What else is known of a gateway that answers no ping.
pub open spec fn cross_check_text(s: &Session) -> Seq<char> {
    let arp = match s.gateway_arp {
        Some(true) => "  - ARP 交叉验证：网关在链路层可达（路由器可能禁用了 ICMP ping 应答，不影响上网）\n"@,
        Some(false) => "  - ARP 交叉验证：网关同样无应答\n"@,
        None => ""@,
    };
    match s.gateway_quality {
        Some(q) => arp + "  - 网关段 TCP 采样："@ + quality::quality_text(q@) + "\n"@,
        None => arp,
    }
}

fn cross_check(s: &Session) -> (t: String)
    requires
        s.wf(),
    ensures
        t@ == cross_check_text(s),
{
    let arp = match s.gateway_arp {
        Some(b) => if b {
            "  - ARP 交叉验证：网关在链路层可达（路由器可能禁用了 ICMP ping 应答，不影响上网）\n"
        } else {
            "  - ARP 交叉验证：网关同样无应答\n"
        },
        None => "",
    };
    let mut t = arp.to_string();
    if let Some(q) = &s.gateway_quality {
        t.append("  - 网关段 TCP 采样：");
        t.append(fmt_quality(q).as_str());
        t.append("\n");
    }
    t
}

/// The lines on the gateway.
pub open spec fn gateway_lines(s: &Session) -> Seq<char> {
    match (s.gateway_addr, s.gateway) {
        (Some(gw), Some(st)) => {
            let line = "- 网关 "@ + gw.text() + "："@ + trace::stats_text(st@) + "\n"@;
            if st.received == 0 {
                line + cross_check_text(s)
            } else {
                line
            }
        },
        (Some(gw), None) => "- 网关 "@ + gw.text() + "：未能探测\n"@,
        (None, _) => "- 未发现默认网关\n"@,
    }
}

/// The part of the report on the gateway.
pub open spec fn gateway_section(s: &Session) -> Seq<char> {
    "## 2. 网关连通性\n"@ + gateway_lines(s) + "\n"@
}

fn write_gateway(s: &Session) -> (t: String)
    requires
        s.wf(),
    ensures
        t@ == gateway_section(s),
{
    let lines: String = match (s.gateway_addr, &s.gateway) {
        (Some(gw), Some(st)) => {
            let mut t = "- 网关 ".to_string();
            t.append(gw.to_text().as_str());
            t.append("：");
            t.append(fmt_stats(st).as_str());
            t.append("\n");
            if st.received == 0 {
                t.append(cross_check(s).as_str());
            }
            t
        },
        (Some(gw), None) => {
            let mut t = "- 网关 ".to_string();
            t.append(gw.to_text().as_str());
            t.append("：未能探测\n");
            t
        },
        (None, _) => "- 未发现默认网关\n".to_string(),
    };
    let mut t = "## 2. 网关连通性\n".to_string();
    t.append(lines.as_str());
    t.append("\n");
    t
}

// ---- public network ----

/// The first samples, from `i` on, of connections to `x`.
pub open spec fn samples_of(
    samples: Seq<(Ipv4Addr, QualityStats)>,
    i: int,
    x: Ipv4Addr,
) -> Option<QualityStats>
    decreases samples.len() - i,
{
    if i < 0 || i >= samples.len() {
        None
    } else if samples[i].0 == x {
        Some(samples[i].1)
    } else {
        samples_of(samples, i + 1, x)
    }
}

/// What sampled connections say of an address that answers no ping.
pub open spec fn samples_text(q: Option<QualityStats>) -> Seq<char> {
    match q {
        Some(q) => if q.succeeded > 0 {
            "（TCP 采样："@ + quality::quality_text(q@) + "）"@
        } else {
            "（TCP 采样：不可达）"@
        },
        None => ""@,
    }
}

fn samples(s: &Session, x: Ipv4Addr) -> (t: String)
    requires
        s.wf(),
    ensures
        t@ == samples_text(samples_of(s.publics_quality@, 0, x)),
{
    let v = &s.publics_quality;
    let mut i: usize = 0;
    while i < v.len()
        invariant
            i <= v@.len(),
            v == s.publics_quality,
            s.wf(),
            samples_of(v@, i as int, x) == samples_of(v@, 0, x),
        decreases v.len() - i,
    {
        if v[i].0 == x {
            let q = &v[i].1;
            assert(s.publics_quality@[i as int].1.wf());
            if q.succeeded > 0 {
                let mut t = "（TCP 采样：".to_string();
                t.append(fmt_quality(q).as_str());
                t.append("）");
                return t;
            }
            return "（TCP 采样：不可达）".to_string();
        }
        i = i + 1;
    }
    "".to_string()
}

/// The line of a public address.
pub open spec fn public_line(
    p: (Ipv4Addr, &'static str, PingStats),
    samples: Seq<(Ipv4Addr, QualityStats)>,
) -> Seq<char> {
    let line = "- "@ + p.0.text() + "（"@ + p.1@ + "）："@ + trace::stats_text(p.2@);
    if p.2.received == 0 {
        line + samples_text(samples_of(samples, 0, p.0)) + "\n"@
    } else {
        line + "\n"@
    }
}

/// The lines of the public addresses.
pub open spec fn publics_text(
    publics: Seq<(Ipv4Addr, &'static str, PingStats)>,
    samples: Seq<(Ipv4Addr, QualityStats)>,
) -> Seq<char>
    decreases publics.len(),
{
    if publics.len() == 0 {
        Seq::empty()
    } else {
        publics_text(publics.drop_last(), samples) + public_line(publics.last(), samples)
    }
}

/// The part of the report on the public network.
pub open spec fn publics_section(s: &Session) -> Seq<char> {
    "## 3. 公网可达性\n"@ + publics_text(s.publics@, s.publics_quality@) + (match s.target_stats {
        Some(ts) => "- 目标 "@ + s.target.text() + "："@ + trace::stats_text(ts@) + "\n"@,
        None => ""@,
    }) + (match s.target_quality {
        Some(q) => "- 端到端 TCP 采样（目标 "@ + s.target.text() + " :80）："@ + quality::quality_text(
            q@,
        ) + "\n"@,
        None => ""@,
    }) + "\n"@
}

fn public(s: &Session, i: usize) -> (t: String)
    requires
        s.wf(),
        i < s.publics@.len(),
    ensures
        t@ == public_line(s.publics@[i as int], s.publics_quality@),
{
    let ip = s.publics[i].0;
    let st = &s.publics[i].2;
    let mut t = "- ".to_string();
    t.append(ip.to_text().as_str());
    t.append("（");
    t.append(s.publics[i].1);
    t.append("）：");
    t.append(fmt_stats(st).as_str());
    if st.received == 0 {
        t.append(samples(s, ip).as_str());
    }
    t.append("\n");
    t
}

fn write_publics(s: &Session) -> (t: String)
    requires
        s.wf(),
    ensures
        t@ == publics_section(s),
{
    let mut lines = String::new();
    let mut i: usize = 0;
    while i < s.publics.len()
        invariant
            i <= s.publics@.len(),
            s.wf(),
            lines@ == publics_text(s.publics@.take(i as int), s.publics_quality@),
        decreases s.publics.len() - i,
    {
        assert(s.publics@.take(i + 1).drop_last() == s.publics@.take(i as int));
        lines.append(public(s, i).as_str());
        i = i + 1;
    }
    assert(s.publics@.take(i as int) == s.publics@);
    let target: String = match &s.target_stats {
        Some(ts) => {
            let mut t = "- 目标 ".to_string();
            t.append(s.target.to_text().as_str());
            t.append("：");
            t.append(fmt_stats(ts).as_str());
            t.append("\n");
            t
        },
        None => "".to_string(),
    };
    let end: String = match &s.target_quality {
        Some(q) => {
            let mut t = "- 端到端 TCP 采样（目标 ".to_string();
            t.append(s.target.to_text().as_str());
            t.append(" :80）：");
            t.append(fmt_quality(q).as_str());
            t.append("\n");
            t
        },
        None => "".to_string(),
    };
    let mut t = "## 3. 公网可达性\n".to_string();
    t.append(lines.as_str());
    t.append(target.as_str());
    t.append(end.as_str());
    t.append("\n");
    t
}

// ---- DNS ----

/// What a failed query says of its failure.
pub open spec fn error_text(r: DnsQueryResult) -> Seq<char> {
    match r.error {
        Some(e) => e@,
        None => "未知错误"@,
    }
}

/// Says what a failed query says of its failure.
pub fn error(r: &DnsQueryResult) -> (t: &str)
    ensures
        t@ == error_text(*r),
{
    match &r.error {
        Some(e) => e.as_str(),
        None => "未知错误",
    }
}

/// The line of a DNS server.
pub open spec fn server_line(r: DnsQueryResult) -> Seq<char> {
    if r.success {
        "- "@ + r.server.text() + "（"@ + r.label@ + "）：成功，"@ + text::dec(r.elapsed_ms as nat)
            + "ms -> "@ + addr::list_text(r.answers@, ", "@) + "\n"@
    } else {
        "- "@ + r.server.text() + "（"@ + r.label@ + "）：失败（"@ + error_text(r) + "）\n"@
    }
}

fn server(r: &DnsQueryResult) -> (t: String)
    ensures
        t@ == server_line(*r),
{
    let mut t = "- ".to_string();
    t.append(r.server.to_text().as_str());
    t.append("（");
    t.append(r.label.as_str());
    if r.success {
        t.append("）：成功，");
        t.append(text::decimal(r.elapsed_ms as u128).as_str());
        t.append("ms -> ");
        t.append(addr::join(&r.answers, ", ").as_str());
        t.append("\n");
    } else {
        t.append("）：失败（");
        t.append(error(r));
        t.append("）\n");
    }
    t
}

/// The lines of the DNS servers.
pub open spec fn servers_text(dns: Seq<DnsQueryResult>) -> Seq<char>
    decreases dns.len(),
{
    if dns.len() == 0 {
        Seq::empty()
    } else {
        servers_text(dns.drop_last()) + server_line(dns.last())
    }
}

/// The part of the report on DNS.
pub open spec fn dns_section(s: &Session) -> Seq<char> {
    "## 4. DNS 解析（域名 "@ + s.dns_domain@ + "）\n"@ + (match s.system_dns {
        Some(v) => "- 系统解析器：成功 -> "@ + addr::list_text(v@, ", "@) + "\n"@,
        None => "- 系统解析器：失败\n"@,
    }) + servers_text(s.dns@) + "\n"@
}

fn write_dns(s: &Session) -> (t: String)
    ensures
        t@ == dns_section(s),
{
    let system: String = match &s.system_dns {
        Some(v) => {
            let mut t = "- 系统解析器：成功 -> ".to_string();
            t.append(addr::join(v, ", ").as_str());
            t.append("\n");
            t
        },
        None => "- 系统解析器：失败\n".to_string(),
    };
    let mut lines = String::new();
    let mut i: usize = 0;
    while i < s.dns.len()
        invariant
            i <= s.dns@.len(),
            lines@ == servers_text(s.dns@.take(i as int)),
        decreases s.dns.len() - i,
    {
        assert(s.dns@.take(i + 1).drop_last() == s.dns@.take(i as int));
        lines.append(server(&s.dns[i]).as_str());
        i = i + 1;
    }
    assert(s.dns@.take(i as int) == s.dns@);
    let mut t = "## 4. DNS 解析（域名 ".to_string();
    t.append(s.dns_domain.as_str());
    t.append("）\n");
    t.append(system.as_str());
    t.append(lines.as_str());
    t.append("\n");
    t
}

// ---- hops ----

/// The row of a hop.
pub open spec fn hop_row(h: HopStat) -> Seq<char> {
    "| "@ + text::dec(h.ttl as nat) + " | "@ + trace::node_text(h) + " | "@ + text::dec(
        h.received as nat,
    ) + "/"@ + text::dec(h.sent as nat) + " | "@ + trace::loss_text(h) + " | "@ + trace::delay_text(
        h,
    ) + " |\n"@
}

fn hop(h: &HopStat) -> (t: String)
    requires
        h.wf(),
    ensures
        t@ == hop_row(*h),
{
    let mut t = "| ".to_string();
    t.append(text::decimal(h.ttl as u128).as_str());
    t.append(" | ");
    t.append(trace::node(h).as_str());
    t.append(" | ");
    t.append(text::decimal(h.received as u128).as_str());
    t.append("/");
    t.append(text::decimal(h.sent as u128).as_str());
    t.append(" | ");
    t.append(trace::loss_percent(h).as_str());
    t.append(" | ");
    t.append(trace::delay(h).as_str());
    t.append(" |\n");
    t
}

/// The rows of the hops.
pub open spec fn hops_text(hops: Seq<HopStat>) -> Seq<char>
    decreases hops.len(),
{
    if hops.len() == 0 {
        Seq::empty()
    } else {
        hops_text(hops.drop_last()) + hop_row(hops.last())
    }
}

/// The part of the report on the hops.
pub open spec fn hops_section(s: &Session) -> Seq<char> {
    "## 5. 逐跳链路探测\n"@ + (if s.hops@.len() == 0 {
        "- 无数据\n"@
    } else {
        "| 跳数 | 节点地址 | 应答/发出 | 丢包率 | 时延 平均/最小/最大 (ms) |\n|---|---|---|---|---|\n"@
            + hops_text(s.hops@)
    }) + "\n"@
}

fn write_hops(s: &Session) -> (t: String)
    requires
        s.wf(),
    ensures
        t@ == hops_section(s),
{
    let mut rows = String::new();
    let mut i: usize = 0;
    while i < s.hops.len()
        invariant
            i <= s.hops@.len(),
            trace::all_wf(s.hops@),
            rows@ == hops_text(s.hops@.take(i as int)),
        decreases s.hops.len() - i,
    {
        assert(s.hops@.take(i + 1).drop_last() == s.hops@.take(i as int));
        rows.append(hop(&s.hops[i]).as_str());
        i = i + 1;
    }
    assert(s.hops@.take(i as int) == s.hops@);
    let table: String = if s.hops.len() == 0 {
        "- 无数据\n".to_string()
    } else {
        let mut t =
            "| 跳数 | 节点地址 | 应答/发出 | 丢包率 | 时延 平均/最小/最大 (ms) |\n|---|---|---|---|---|\n".to_string();
        t.append(rows.as_str());
        t
    };
    let mut t = "## 5. 逐跳链路探测\n".to_string();
    t.append(table.as_str());
    t.append("\n");
    t
}

// ---- HTTP ----

/// The lines on HTTP.
pub open spec fn http_lines(http: Option<HttpResult>) -> Seq<char> {
    match http {
        None => "- 未执行\n"@,
        Some(h) => {
            let line = "- "@ + h.host@ + "："@ + (match h.status_code {
                Some(c) => "HTTP "@ + text::dec(c as nat),
                None => "无有效响应"@,
            }) + "，耗时 "@ + text::dec(h.elapsed_ms as nat) + "ms\n"@;
            if h.note@.len() == 0 {
                line
            } else {
                line + "  - 备注："@ + h.note@ + "\n"@
            }
        },
    }
}

/// The part of the report on HTTP.
pub open spec fn http_section(s: &Session) -> Seq<char> {
    "## 6. 应用层 HTTP 连通性\n"@ + http_lines(s.http) + "\n"@
}

fn write_http(s: &Session) -> (t: String)
    ensures
        t@ == http_section(s),
{
    let lines: String = match &s.http {
        None => "- 未执行\n".to_string(),
        Some(h) => {
            let status: String = match h.status_code {
                Some(c) => {
                    let mut t = "HTTP ".to_string();
                    t.append(text::decimal(c as u128).as_str());
                    t
                },
                None => "无有效响应".to_string(),
            };
            let mut t = "- ".to_string();
            t.append(h.host.as_str());
            t.append("：");
            t.append(status.as_str());
            t.append("，耗时 ");
            t.append(text::decimal(h.elapsed_ms as u128).as_str());
            t.append("ms\n");
            if !h.note.as_str().is_empty() {
                t.append("  - 备注：");
                t.append(h.note.as_str());
                t.append("\n");
            }
            t
        },
    };
    let mut t = "## 6. 应用层 HTTP 连通性\n".to_string();
    t.append(lines.as_str());
    t.append("\n");
    t
}

// ---- conclusion ----

/// A finding in words: `lead` before it, `advice` before its suggestion.
pub open spec fn finding_lines(n: diagnose::Note, lead: Seq<char>, advice: Seq<char>) -> Seq<char> {
    let line = lead + n.level.mark() + " "@ + n.segment + "："@ + n.detail + "\n"@;
    match n.suggestion {
        Some(t) => line + advice + t + "\n"@,
        None => line,
    }
}

fn finding(f: &Finding, lead: &str, advice: &str) -> (t: String)
    ensures
        t@ == finding_lines(f@, lead@, advice@),
{
    let mut t = lead.to_string();
    t.append(f.level.tag());
    t.append(" ");
    t.append(f.segment.as_str());
    t.append("：");
    t.append(f.detail.as_str());
    t.append("\n");
    if let Some(s) = &f.suggestion {
        t.append(advice);
        t.append(s.as_str());
        t.append("\n");
    }
    t
}

/// The findings in words.
pub open spec fn findings_text(v: Seq<diagnose::Note>, lead: Seq<char>, advice: Seq<char>) -> Seq<
    char,
>
    decreases v.len(),
{
    if v.len() == 0 {
        Seq::empty()
    } else {
        findings_text(v.drop_last(), lead, advice) + finding_lines(v.last(), lead, advice)
    }
}

fn findings(v: &Vec<Finding>, lead: &str, advice: &str) -> (t: String)
    ensures
        t@ == findings_text(diagnose::notes(v@), lead@, advice@),
{
    let ghost all = diagnose::notes(v@);
    let mut t = String::new();
    let mut i: usize = 0;
    while i < v.len()
        invariant
            i <= v@.len(),
            all == diagnose::notes(v@),
            t@ == findings_text(all.take(i as int), lead@, advice@),
        decreases v.len() - i,
    {
        assert(all.take(i + 1).drop_last() == all.take(i as int));
        t.append(finding(&v[i], lead, advice).as_str());
        i = i + 1;
    }
    assert(all.take(i as int) == all);
    t
}

/// The part of the report on the conclusion.
pub open spec fn conclusion_section(diagnosis: Option<Diagnosis>) -> Seq<char> {
    "## 7. 诊断结论\n"@ + (match diagnosis {
        Some(d) => findings_text(d@.findings, "- "@, "  - 建议："@) + "\n**"@ + d@.conclusion
            + "**\n"@,
        None => ""@,
    }) + "\n"@
}

fn write_conclusion(s: &Session) -> (t: String)
    ensures
        t@ == conclusion_section(s.diagnosis),
{
    let lines: String = match &s.diagnosis {
        Some(d) => {
            let mut t = findings(&d.findings, "- ", "  - 建议：");
            t.append("\n**");
            t.append(d.conclusion.as_str());
            t.append("**\n");
            t
        },
        None => "".to_string(),
    };
    let mut t = "## 7. 诊断结论\n".to_string();
    t.append(lines.as_str());
    t.append("\n");
    t
}

/// The whole report.
pub open spec fn report_text(s: &Session) -> Seq<char> {
    head_text(s) + adapters_section(s) + gateway_section(s) + publics_section(s) + dns_section(s)
        + hops_section(s) + http_section(s) + conclusion_section(s.diagnosis)
        + "---\n本报告由 诸葛网络问题诊断器 v"@ + VERSION@ + " 自动生成（MIT 开源协议）。\n"@
}

/// Writes the whole report.
pub fn render(s: &Session) -> (t: String)
    requires
        s.wf(),
    ensures
        t@ == report_text(s),
{
    let mut t = head(s);
    t.append(write_adapters(s).as_str());
    t.append(write_gateway(s).as_str());
    t.append(write_publics(s).as_str());
    t.append(write_dns(s).as_str());
    t.append(write_hops(s).as_str());
    t.append(write_http(s).as_str());
    t.append(write_conclusion(s).as_str());
    t.append("---\n本报告由 诸葛网络问题诊断器 v");
    t.append(VERSION);
    t.append(" 自动生成（MIT 开源协议）。\n");
    t
}

/// The conclusion as it is shown at the end of a diagnosis.
pub open spec fn shown_conclusion(d: diagnose::Opinion) -> Seq<char> {
    "\n==============================================================\n                         诊断结论\n==============================================================\n"@
        + findings_text(d.findings, "  "@, "         建议："@)
        + "--------------------------------------------------------------\n  >> "@ + d.conclusion
        + "\n==============================================================\n"@
}

/// Writes the conclusion as it is shown at the end of a diagnosis; nothing where
/// there is none.
pub fn conclusion(s: &Session) -> (t: String)
    ensures
        t@ == match s.diagnosis {
            Some(d) => shown_conclusion(d@),
            None => Seq::empty(),
        },
{
    match &s.diagnosis {
        Some(d) => {
            let mut t =
                "\n==============================================================\n                         诊断结论\n==============================================================\n".to_string();
            t.append(findings(&d.findings, "  ", "         建议：").as_str());
            t.append("--------------------------------------------------------------\n  >> ");
            t.append(d.conclusion.as_str());
            t.append("\n==============================================================\n");
            t
        },
        None => String::new(),
    }
}

// ---- time ----

/// The declaration of `std::time::SystemTime`.
#[verifier::external_type_specification]
#[verifier::external_body]
pub struct ExSystemTime(std::time::SystemTime);

/// The declaration of `std::time::SystemTimeError`.
#[verifier::external_type_specification]
#[verifier::external_body]
pub struct ExSystemTimeError(std::time::SystemTimeError);

/// Reads the clock of the system with `std::time::SystemTime::now`; what it shows
/// depends on the moment, so nothing is claimed of it.
pub assume_specification[ std::time::SystemTime::now ]() -> std::time::SystemTime;

/// Calls `std::time::SystemTime::duration_since` with the start of 1970; what it
/// gives depends on the clock, so nothing is claimed of it.
#[verifier::external_body]
fn since_epoch(t: std::time::SystemTime) -> Result<
    std::time::Duration,
    std::time::SystemTimeError,
> {
    t.duration_since(std::time::UNIX_EPOCH)
}

/// Calls `std::time::Duration::as_secs`; the time span comes from the clock, so
/// nothing is claimed of it.
#[verifier::external_body]
fn whole_seconds(d: std::time::Duration) -> u64 {
    d.as_secs()
}

/// A moment as the seconds since the start of 1970; unknown where the clock is
/// set before that.
pub open spec fn seconds_text(seconds: Option<u64>) -> Seq<char> {
    match seconds {
        Some(n) => text::dec(n as nat),
        None => "unknown"@,
    }
}

/// Writes a moment as the seconds since the start of 1970.
pub fn seconds_stamp(seconds: Option<u64>) -> (t: String)
    ensures
        t@ == seconds_text(seconds),
{
    match seconds {
        Some(n) => text::decimal(n as u128),
        None => "unknown".to_string(),
    }
}

/// A moment on the calendar and the clock.
#[derive(Clone, Copy, Debug, PartialEq, Eq, Structural)]
pub struct LocalTime {
    pub year: u16,
    pub month: u16,
    pub day: u16,
    pub hour: u16,
    pub minute: u16,
    pub second: u16,
}

/// A moment as `YYYYMMDD_HHMMSS`.
pub open spec fn local_text(t: LocalTime) -> Seq<char> {
    text::zero_padded(t.year as nat, 4) + text::zero_padded(t.month as nat, 2) + text::zero_padded(
        t.day as nat,
        2,
    ) + "_"@ + text::zero_padded(t.hour as nat, 2) + text::zero_padded(t.minute as nat, 2)
        + text::zero_padded(t.second as nat, 2)
}

/// Writes a moment as `YYYYMMDD_HHMMSS`.
pub fn local_stamp(t: LocalTime) -> (r: String)
    ensures
        r@ == local_text(t),
{
    let mut r = text::zero_pad(t.year as u128, 4);
    r.append(text::zero_pad(t.month as u128, 2).as_str());
    r.append(text::zero_pad(t.day as u128, 2).as_str());
    r.append("_");
    r.append(text::zero_pad(t.hour as u128, 2).as_str());
    r.append(text::zero_pad(t.minute as u128, 2).as_str());
    r.append(text::zero_pad(t.second as u128, 2).as_str());
    r
}

/// The text stands for the present moment: the local time where the system tells it,
/// else some number of seconds since the start of 1970.
pub open spec fn stamps(local: Option<LocalTime>, t: Seq<char>) -> bool {
    match local {
        Some(l) => t == local_text(l),
        None => exists|seconds: Option<u64>| t == #[trigger] seconds_text(seconds),
    }
}

/// Writes the present moment: the local time where the system tells it, as
/// `YYYYMMDD_HHMMSS`; else what the clock shows, as seconds since the start of 1970.
/// Windows tells the local time; the call that asks for it stands outside.
pub fn timestamp(local: Option<LocalTime>) -> (t: String)
    ensures
        stamps(local, t@),
{
    match local {
        Some(l) => local_stamp(l),
        None => {
            let seconds: Option<u64> = match since_epoch(std::time::SystemTime::now()) {
                Ok(d) => Some(whole_seconds(d)),
                Err(_) => None,
            };
            seconds_stamp(seconds)
        },
    }
}

/// The name of the report of a moment.
pub open spec fn path_text(stamp: Seq<char>) -> Seq<char> {
    "网络诊断报告_"@ + stamp + ".md"@
}

/// Names the report of a moment.
pub fn report_path(stamp: &str) -> (t: String)
    ensures
        t@ == path_text(stamp@),
{
    let mut t = "网络诊断报告_".to_string();
    t.append(stamp);
    t.append(".md");
    t
}

/// Names the report of the present moment, which is `local` where the system tells
/// the local time.
pub fn default_report_path(local: Option<LocalTime>) -> (t: String)
    ensures
        exists|stamp: Seq<char>| #[trigger] stamps(local, stamp) && t@ == path_text(stamp),
{
    let stamp = timestamp(local);
    assert(stamps(local, stamp@));
    report_path(stamp.as_str())
}

// ---- laws ----

proof fn lemma_zero_padded(n: nat, width: nat)
    requires
        width == 2 && n < 100 || width == 4 && n < 10000,
    ensures
        text::zero_padded(n, width).len() == width,
        forall|i: int| 0 <= i < width ==> text::is_digit(#[trigger] text::zero_padded(n, width)[i]),
{
    reveal_with_fuel(text::dec, 4);
    text::lemma_dec_digits(n);
    assert(text::dec(n).len() <= width) by {
        assert(n / 10 / 10 == n / 100);
        assert(n / 10 / 10 / 10 == n / 1000);
    }
    let z = text::zero_padded(n, width);
    let k = width - text::dec(n).len();
    assert forall|i: int| 0 <= i < width implies text::is_digit(#[trigger] z[i]) by {
        if i >= k {
            assert(z[i] == text::dec(n)[i - k]);
        }
    }
}

/// A moment in a year of at most four digits is written as eight digits, an
/// underscore and six digits.
pub proof fn law_local_stamp_shape(t: LocalTime)
    requires
        t.year <= 9999,
        t.month <= 12,
        t.day <= 31,
        t.hour <= 23,
        t.minute <= 59,
        t.second <= 60,
    ensures
        local_text(t).len() == 15,
        forall|i: int|
            0 <= i < 15 && i != 8 ==> text::is_digit(#[trigger] local_text(t)[i]),
        local_text(t)[8] == '_',
{
    reveal_strlit("_");
    lemma_zero_padded(t.year as nat, 4);
    lemma_zero_padded(t.month as nat, 2);
    lemma_zero_padded(t.day as nat, 2);
    lemma_zero_padded(t.hour as nat, 2);
    lemma_zero_padded(t.minute as nat, 2);
    lemma_zero_padded(t.second as nat, 2);
    let y = text::zero_padded(t.year as nat, 4);
    let mo = text::zero_padded(t.month as nat, 2);
    let d = text::zero_padded(t.day as nat, 2);
    let h = text::zero_padded(t.hour as nat, 2);
    let mi = text::zero_padded(t.minute as nat, 2);
    let se = text::zero_padded(t.second as nat, 2);
    let l = local_text(t);
    assert forall|i: int| 0 <= i < 15 && i != 8 implies text::is_digit(#[trigger] l[i]) by {
        if i < 4 {
            assert(l[i] == y[i]);
        } else if i < 6 {
            assert(l[i] == mo[i - 4]);
        } else if i < 8 {
            assert(l[i] == d[i - 6]);
        } else if i < 11 {
            assert(l[i] == h[i - 9]);
        } else if i < 13 {
            assert(l[i] == mi[i - 11]);
        } else {
            assert(l[i] == se[i - 13]);
        }
    }
}

/// The text of a finding stands in its lines.
proof fn lemma_finding_told(n: diagnose::Note, lead: Seq<char>, advice: Seq<char>)
    ensures
        text::holds(finding_lines(n, lead, advice), n.detail),
{
    let before = lead + n.level.mark() + " "@ + n.segment + "："@;
    text::lemma_holds_itself(n.detail);
    text::lemma_holds_concat(before, n.detail, n.detail);
    text::lemma_holds_concat(before + n.detail, "\n"@, n.detail);
    if let Some(t) = n.suggestion {
        let line = before + n.detail + "\n"@;
        text::lemma_holds_concat(line, advice, n.detail);
        text::lemma_holds_concat(line + advice, t, n.detail);
        text::lemma_holds_concat(line + advice + t, "\n"@, n.detail);
    }
}

/// The text of every finding stands in the lines of them all.
proof fn lemma_findings_told(v: Seq<diagnose::Note>, lead: Seq<char>, advice: Seq<char>, i: int)
    requires
        0 <= i < v.len(),
    ensures
        text::holds(findings_text(v, lead, advice), v[i].detail),
    decreases v.len(),
{
    if i == v.len() - 1 {
        lemma_finding_told(v[i], lead, advice);
    } else {
        lemma_findings_told(v.drop_last(), lead, advice, i);
    }
    text::lemma_holds_concat(
        findings_text(v.drop_last(), lead, advice),
        finding_lines(v.last(), lead, advice),
        v[i].detail,
    );
}

/// What stands in the part on the conclusion stands in the report.
proof fn lemma_report_holds(s: &Session, needle: Seq<char>)
    requires
        text::holds(conclusion_section(s.diagnosis), needle),
    ensures
        text::holds(report_text(s), needle),
{
    let before = head_text(s) + adapters_section(s) + gateway_section(s) + publics_section(s)
        + dns_section(s) + hops_section(s) + http_section(s);
    let c = conclusion_section(s.diagnosis);
    let e1 = "---\n本报告由 诸葛网络问题诊断器 v"@;
    let e2 = " 自动生成（MIT 开源协议）。\n"@;
    text::lemma_holds_concat(before, c, needle);
    text::lemma_holds_concat(before + c, e1, needle);
    text::lemma_holds_concat(before + c + e1, VERSION@, needle);
    text::lemma_holds_concat(before + c + e1 + VERSION@, e2, needle);
}

/// A report holds the conclusion of its diagnosis and the text of every finding.
pub proof fn law_report_holds_conclusion(s: &Session)
    requires
        s.diagnosis is Some,
    ensures
        text::holds(report_text(s), s.diagnosis->0.conclusion@),
        forall|i: int|
            0 <= i < s.diagnosis->0.findings@.len() ==> text::holds(
                report_text(s),
                (#[trigger] s.diagnosis->0.findings@[i]).detail@,
            ),
{
    let d = s.diagnosis->0;
    let head = "## 7. 诊断结论\n"@;
    let lines = findings_text(d@.findings, "- "@, "  - 建议："@);
    let c = d@.conclusion;
    let body = lines + "\n**"@ + c + "**\n"@;
    assert(conclusion_section(s.diagnosis) == head + body + "\n"@);

    text::lemma_holds_itself(c);
    text::lemma_holds_concat(lines + "\n**"@, c, c);
    text::lemma_holds_concat(lines + "\n**"@ + c, "**\n"@, c);
    text::lemma_holds_concat(head, body, c);
    text::lemma_holds_concat(head + body, "\n"@, c);
    lemma_report_holds(s, c);

    assert forall|i: int| 0 <= i < d.findings@.len() implies text::holds(
        report_text(s),
        (#[trigger] d.findings@[i]).detail@,
    ) by {
        let t = d.findings@[i].detail@;
        assert(d@.findings[i].detail == t);
        lemma_findings_told(d@.findings, "- "@, "  - 建议："@, i);
        text::lemma_holds_concat(lines, "\n**"@, t);
        text::lemma_holds_concat(lines + "\n**"@, c, t);
        text::lemma_holds_concat(lines + "\n**"@ + c, "**\n"@, t);
        text::lemma_holds_concat(head, body, t);
        text::lemma_holds_concat(head + body, "\n"@, t);
        lemma_report_holds(s, t);
    }
}

/// What stands between two texts stands in all of them together.
proof fn lemma_held_between(a: Seq<char>, needle: Seq<char>, b: Seq<char>)
    ensures
        text::holds(a + needle + b, needle),
{
    text::lemma_holds_itself(needle);
    text::lemma_holds_concat(a, needle, needle);
    text::lemma_holds_concat(a + needle, b, needle);
}

/// The head of the report and its sections, by their numbers.
spec fn section(s: &Session, k: int) -> Seq<char> {
    if k <= 0 {
        head_text(s)
    } else if k == 1 {
        adapters_section(s)
    } else if k == 2 {
        gateway_section(s)
    } else if k == 3 {
        publics_section(s)
    } else if k == 4 {
        dns_section(s)
    } else if k == 5 {
        hops_section(s)
    } else if k == 6 {
        http_section(s)
    } else {
        conclusion_section(s.diagnosis)
    }
}

/// The report up to section `k`.
spec fn up_to(s: &Session, k: int) -> Seq<char>
    decreases k,
{
    if k <= 0 {
        section(s, 0)
    } else {
        up_to(s, k - 1) + section(s, k)
    }
}

proof fn lemma_report_is_sections(s: &Session)
    ensures
        report_text(s) == up_to(s, 7) + "---\n本报告由 诸葛网络问题诊断器 v"@ + VERSION@
            + " 自动生成（MIT 开源协议）。\n"@,
{
    reveal_with_fuel(up_to, 8);
}

proof fn lemma_held_up_to(s: &Session, k: int, needle: Seq<char>)
    requires
        0 <= k <= 7,
        text::holds(up_to(s, k), needle),
    ensures
        text::holds(report_text(s), needle),
    decreases 7 - k,
{
    if k < 7 {
        text::lemma_holds_concat(up_to(s, k), section(s, k + 1), needle);
        lemma_held_up_to(s, k + 1, needle);
    } else {
        lemma_report_is_sections(s);
        let e1 = "---\n本报告由 诸葛网络问题诊断器 v"@;
        let e2 = " 自动生成（MIT 开源协议）。\n"@;
        let r = up_to(s, 7);
        text::lemma_holds_concat(r, e1, needle);
        text::lemma_holds_concat(r + e1, VERSION@, needle);
        text::lemma_holds_concat(r + e1 + VERSION@, e2, needle);
    }
}

proof fn lemma_joint(a: Seq<char>, b: Seq<char>, heading: Seq<char>, rest: Seq<char>)
    ensures
        text::holds(a + b + (heading + rest), b + heading),
        text::holds(b + (heading + rest), b + heading),
{
    lemma_held_between(a, b + heading, rest);
    assert(a + (b + heading) + rest =~= a + b + (heading + rest));
    lemma_held_between(Seq::empty(), b + heading, rest);
    assert(Seq::empty() + (b + heading) + rest =~= b + (heading + rest));
}

/// A section stands in the report, with the heading of the next one directly behind it.
proof fn lemma_section_held(s: &Session, k: int, heading: Seq<char>, rest: Seq<char>)
    requires
        0 <= k < 7,
        section(s, k + 1) == heading + rest,
    ensures
        text::holds(report_text(s), section(s, k) + heading),
{
    if k == 0 {
        lemma_joint(Seq::empty(), section(s, 0), heading, rest);
        assert(up_to(s, 1) == up_to(s, 0) + section(s, 1));
    } else {
        lemma_joint(up_to(s, k - 1), section(s, k), heading, rest);
        assert(up_to(s, k + 1) == up_to(s, k) + section(s, k + 1));
    }
    lemma_held_up_to(s, k + 1, section(s, k) + heading);
}

proof fn lemma_regrouped(a: Seq<char>, b: Seq<char>, c: Seq<char>)
    ensures
        a + b + c == a + (b + c),
{
    assert(a + b + c =~= a + (b + c));
}

/// Rows, one directly behind the other.
pub open spec fn stacked(rows: Seq<Seq<char>>) -> Seq<char> {
    rows.flatten()
}

proof fn lemma_stacked_step(rows: Seq<Seq<char>>)
    ensures
        rows.len() == 0 ==> stacked(rows) == Seq::<char>::empty(),
        rows.len() > 0 ==> stacked(rows) == stacked(rows.drop_last()) + rows.last(),
{
    rows.lemma_flatten_and_flatten_alt_are_equivalent();
    if rows.len() > 0 {
        rows.drop_last().lemma_flatten_and_flatten_alt_are_equivalent();
    }
}

/// Every row stands in the stack.
proof fn lemma_stacked_holds(rows: Seq<Seq<char>>, i: int)
    requires
        0 <= i < rows.len(),
    ensures
        text::holds(stacked(rows), rows[i]),
    decreases rows.len(),
{
    lemma_stacked_step(rows);
    if i < rows.len() - 1 {
        lemma_stacked_holds(rows.drop_last(), i);
    } else {
        text::lemma_holds_itself(rows[i]);
    }
    text::lemma_holds_concat(stacked(rows.drop_last()), rows.last(), rows[i]);
}

/// What a reader must find of a hop, in a row of the table: its TTL, who answered or a
/// star, answers and probes, the share that was lost, and the average, smallest and
/// largest round trip, or a dash where there was no answer.
pub open spec fn hop_cells(h: HopStat) -> Seq<char> {
    "| "@ + text::dec(h.ttl as nat) + " | "@ + (if h.responder is Some {
        h.responder->0.text()
    } else {
        "*"@
    }) + " | "@ + text::dec(h.received as nat) + "/"@ + text::dec(h.sent as nat) + " | "@ + (
    binary64::fixed0(
        binary64::quotient_percent((h.sent - h.received) as nat, h.sent as nat),
    ) + "%"@) + " | "@ + (if h.received > 0 {
        binary64::fixed1(h.avg_ms@) + " / "@ + text::dec(h.min_ms as nat) + " / "@ + text::dec(
            h.max_ms as nat,
        )
    } else {
        "-"@
    }) + " |\n"@
}

proof fn lemma_hops_stacked(hops: Seq<HopStat>)
    ensures
        hops_text(hops) == stacked(hops.map_values(|h: HopStat| hop_cells(h))),
    decreases hops.len(),
{
    let rows = hops.map_values(|h: HopStat| hop_cells(h));
    lemma_stacked_step(rows);
    if hops.len() > 0 {
        lemma_hops_stacked(hops.drop_last());
        assert(rows.drop_last() =~= hops.drop_last().map_values(|h: HopStat| hop_cells(h)));
        assert(hop_row(hops.last()) == hop_cells(hops.last()));
    }
}

/// The report holds the table of the hops: a row for every hop, whether it answers or
/// not, in their order, and nothing between the head of the table and the next
/// section but these rows. Without hops it says that there is no data.
#[verifier::rlimit(40)]
pub proof fn law_report_lists_every_hop(s: &Session)
    ensures
        s.hops@.len() > 0 ==> text::holds(
            report_text(s),
            "## 5. 逐跳链路探测\n"@ + (
            "| 跳数 | 节点地址 | 应答/发出 | 丢包率 | 时延 平均/最小/最大 (ms) |\n|---|---|---|---|---|\n"@
                + s.hops@.map_values(|h: HopStat| hop_cells(h)).flatten()) + "\n"@
                + "## 6. 应用层 HTTP 连通性\n"@,
        ),
        s.hops@.len() == 0 ==> text::holds(
            report_text(s),
            "## 5. 逐跳链路探测\n"@ + "- 无数据\n"@ + "\n"@ + "## 6. 应用层 HTTP 连通性\n"@,
        ),
        forall|i: int|
            0 <= i < s.hops@.len() ==> text::holds(
                report_text(s),
                hop_cells(#[trigger] s.hops@[i]),
            ),
{
    let next = "## 6. 应用层 HTTP 连通性\n"@;
    lemma_regrouped(next, http_lines(s.http), "\n"@);
    lemma_section_held(s, 5, next, http_lines(s.http) + "\n"@);
    lemma_hops_stacked(s.hops@);
    let rows = s.hops@.map_values(|h: HopStat| hop_cells(h));
    let head =
        "| 跳数 | 节点地址 | 应答/发出 | 丢包率 | 时延 平均/最小/最大 (ms) |\n|---|---|---|---|---|\n"@;
    assert forall|i: int| 0 <= i < s.hops@.len() implies text::holds(
        report_text(s),
        hop_cells(#[trigger] s.hops@[i]),
    ) by {
        let table = "## 5. 逐跳链路探测\n"@ + (head + stacked(rows));
        lemma_stacked_holds(rows, i);
        assert(rows[i] == hop_cells(s.hops@[i]));
        text::lemma_holds_concat(head, stacked(rows), rows[i]);
        text::lemma_holds_concat("## 5. 逐跳链路探测\n"@, head + stacked(rows), rows[i]);
        text::lemma_holds_concat(table, "\n"@, rows[i]);
        text::lemma_holds_concat(table + "\n"@, next, rows[i]);
        lemma_held_through(report_text(s), table + "\n"@ + next, rows[i]);
    }
}

/// What stands in a text that stands in another stands in the other.
proof fn lemma_held_through(whole: Seq<char>, part: Seq<char>, needle: Seq<char>)
    requires
        text::holds(whole, part),
        text::holds(part, needle),
    ensures
        text::holds(whole, needle),
{
    let n = needle.len() as int;
    let m = part.len() as int;
    let i = choose|i: int|
        0 <= i <= whole.len() - m && #[trigger] whole.subrange(i, i + m) == part;
    let k = choose|k: int| 0 <= k <= part.len() - n && #[trigger] part.subrange(k, k + n) == needle;
    assert(whole.subrange(i + k, i + k + n) =~= part.subrange(k, k + n));
}

/// Addresses with commas between them, or that there are none.
pub open spec fn listed_or_none(list: Seq<Ipv4Addr>) -> Seq<char> {
    if list.len() > 0 {
        addr::list_text(list, ", "@)
    } else {
        "无"@
    }
}

/// What a reader must find of an adapter: its kind, the name people use or else the
/// system's, whether it is the one in use, its state, address, gateways, DNS servers
/// and, where there is one, its description.
pub open spec fn adapter_says(a: AdapterInfo, used: bool) -> Seq<char> {
    let name = if a.friendly@.len() > 0 {
        a.friendly@
    } else {
        a.name@
    };
    let line = "- "@ + a.kind@ + " \""@ + name + "\""@ + (if used {
        "（主用）"@
    } else {
        ""@
    }) + "：状态="@ + (if a.up {
        "已连接"@
    } else {
        "未连接"@
    }) + "，IPv4="@ + (match a.ipv4 {
        Some((x, bits)) => x.text() + "/"@ + text::dec(bits as nat),
        None => "无 IPv4"@,
    }) + "，网关="@ + listed_or_none(a.gateways@) + "，DNS="@ + listed_or_none(a.dns_servers@) + "\n"@;
    if a.description@.len() > 0 {
        line + "  - 设备："@ + a.description@ + "\n"@
    } else {
        line
    }
}

proof fn lemma_adapter_said(a: AdapterInfo, used: bool)
    ensures
        adapter_lines(a@, used) == adapter_says(a, used),
{
}

proof fn lemma_adapters_stacked(v: Seq<AdapterInfo>, primary: Option<AdapterInfo>)
    ensures
        adapters_text(v, primary) == stacked(
            v.map_values(
                |a: AdapterInfo|
                    adapter_says(a, primary is Some && primary->0.name@ == a.name@),
            ),
        ),
    decreases v.len(),
{
    let f = |a: AdapterInfo| adapter_says(a, primary is Some && primary->0.name@ == a.name@);
    let rows = v.map_values(f);
    lemma_stacked_step(rows);
    if v.len() > 0 {
        lemma_adapters_stacked(v.drop_last(), primary);
        assert(rows.drop_last() =~= v.drop_last().map_values(f));
        let a = v.last();
        assert(rows.last() == f(a));
        lemma_adapter_said(a, is_used(primary, a));
    }
}

/// The report holds the adapters: the lines of each, in their order, the one in use
/// marked, and nothing else between the heading and the next section.
pub proof fn law_report_lists_every_adapter(s: &Session)
    ensures
        s.adapters@.len() > 0 ==> text::holds(
            report_text(s),
            "## 1. 本地网络环境\n"@ + s.adapters@.map_values(
                |a: AdapterInfo|
                    adapter_says(a, s.primary is Some && s.primary->0.name@ == a.name@),
            ).flatten() + "\n"@ + "## 2. 网关连通性\n"@,
        ),
        s.adapters@.len() == 0 ==> text::holds(
            report_text(s),
            "## 1. 本地网络环境\n"@ + "- 未读取到任何网络适配器\n"@ + "\n"@ + "## 2. 网关连通性\n"@,
        ),
{
    let next = "## 2. 网关连通性\n"@;
    lemma_regrouped(next, gateway_lines(s), "\n"@);
    lemma_section_held(s, 1, next, gateway_lines(s) + "\n"@);
    lemma_adapters_stacked(s.adapters@, s.primary);
}

/// Entry `k` is the first one of this address.
pub open spec fn first_of(samples: Seq<(Ipv4Addr, QualityStats)>, x: Ipv4Addr, k: int) -> bool {
    &&& 0 <= k < samples.len()
    &&& samples[k].0 == x
    &&& forall|j: int| 0 <= j < k ==> (#[trigger] samples[j]).0 != x
}

/// What a reader must find of the samples of an address that answers no ping: their
/// numbers where some succeeded, that it is unreachable where none did, and nothing
/// where it was not sampled.
pub open spec fn samples_say(samples: Seq<(Ipv4Addr, QualityStats)>, x: Ipv4Addr) -> Seq<char> {
    if exists|k: int| first_of(samples, x, k) {
        let q = samples[choose|k: int| first_of(samples, x, k)].1;
        if q.succeeded > 0 {
            "（TCP 采样："@ + quality::quality_text(q@) + "）"@
        } else {
            "（TCP 采样：不可达）"@
        }
    } else {
        ""@
    }
}

proof fn lemma_samples_found(samples: Seq<(Ipv4Addr, QualityStats)>, i: int, x: Ipv4Addr)
    requires
        0 <= i <= samples.len(),
        forall|j: int| 0 <= j < i ==> (#[trigger] samples[j]).0 != x,
    ensures
        match samples_of(samples, i, x) {
            Some(q) => exists|k: int| #[trigger] first_of(samples, x, k) && q == samples[k].1,
            None => !exists|k: int| first_of(samples, x, k),
        },
    decreases samples.len() - i,
{
    if i < samples.len() {
        if samples[i].0 == x {
            assert(first_of(samples, x, i));
        } else {
            lemma_samples_found(samples, i + 1, x);
        }
    }
}

proof fn lemma_samples_said(samples: Seq<(Ipv4Addr, QualityStats)>, x: Ipv4Addr)
    ensures
        samples_text(samples_of(samples, 0, x)) == samples_say(samples, x),
{
    lemma_samples_found(samples, 0, x);
    if let Some(q) = samples_of(samples, 0, x) {
        let k = choose|k: int| #[trigger] first_of(samples, x, k) && q == samples[k].1;
        let m = choose|k: int| first_of(samples, x, k);
        assert(first_of(samples, x, m));
        assert(k == m) by {
            if k < m {
                assert(samples[k].0 != x);
            }
            if m < k {
                assert(samples[m].0 != x);
            }
        }
    }
}

/// What a reader must find of a public address: address, name, what its pings came to
/// and, where none was answered, what connections to it say.
pub open spec fn public_says(
    p: (Ipv4Addr, &'static str, PingStats),
    samples: Seq<(Ipv4Addr, QualityStats)>,
) -> Seq<char> {
    "- "@ + p.0.text() + "（"@ + p.1@ + "）："@ + trace::stats_text(p.2@) + (if p.2.received == 0 {
        samples_say(samples, p.0)
    } else {
        ""@
    }) + "\n"@
}

proof fn lemma_publics_stacked(
    publics: Seq<(Ipv4Addr, &'static str, PingStats)>,
    samples: Seq<(Ipv4Addr, QualityStats)>,
)
    ensures
        publics_text(publics, samples) == stacked(
            publics.map_values(
                |p: (Ipv4Addr, &'static str, PingStats)| public_says(p, samples),
            ),
        ),
    decreases publics.len(),
{
    let f = |p: (Ipv4Addr, &'static str, PingStats)| public_says(p, samples);
    let rows = publics.map_values(f);
    lemma_stacked_step(rows);
    if publics.len() > 0 {
        lemma_publics_stacked(publics.drop_last(), samples);
        assert(rows.drop_last() =~= publics.drop_last().map_values(f));
        let p = publics.last();
        lemma_samples_said(samples, p.0);
        reveal_strlit("");
        assert(public_line(p, samples) =~= public_says(p, samples));
    }
}

/// The report holds the public network: a line for every public address, in their
/// order, then what the pings of the target and the connections to it came to, where
/// there were any, and nothing else before the next section.
#[verifier::rlimit(40)]
pub proof fn law_report_lists_every_public_address(s: &Session)
    ensures
        text::holds(
            report_text(s),
            "## 3. 公网可达性\n"@ + s.publics@.map_values(
                |p: (Ipv4Addr, &'static str, PingStats)| public_says(p, s.publics_quality@),
            ).flatten() + (if s.target_stats is Some {
                "- 目标 "@ + s.target.text() + "："@ + trace::stats_text(s.target_stats->0@) + "\n"@
            } else {
                ""@
            }) + (if s.target_quality is Some {
                "- 端到端 TCP 采样（目标 "@ + s.target.text() + " :80）："@ + quality::quality_text(
                    s.target_quality->0@,
                ) + "\n"@
            } else {
                ""@
            }) + "\n"@ + "## 4. DNS 解析（域名 "@,
        ),
{
    let next = "## 4. DNS 解析（域名 "@;
    let system = match s.system_dns {
        Some(v) => "- 系统解析器：成功 -> "@ + addr::list_text(v@, ", "@) + "\n"@,
        None => "- 系统解析器：失败\n"@,
    };
    let a = s.dns_domain@ + "）\n"@;
    lemma_regrouped(next, s.dns_domain@, "）\n"@);
    lemma_regrouped(next, a, system);
    lemma_regrouped(next, a + system, servers_text(s.dns@));
    lemma_regrouped(next, a + system + servers_text(s.dns@), "\n"@);
    lemma_section_held(s, 3, next, a + system + servers_text(s.dns@) + "\n"@);
    lemma_publics_stacked(s.publics@, s.publics_quality@);
}

/// What a reader must find of a DNS server: its address and name and, where it
/// answered, after what time and with which addresses, else why not.
pub open spec fn server_says(r: DnsQueryResult) -> Seq<char> {
    "- "@ + r.server.text() + "（"@ + r.label@ + (if r.success {
        "）：成功，"@ + text::dec(r.elapsed_ms as nat) + "ms -> "@ + addr::list_text(
            r.answers@,
            ", "@,
        ) + "\n"@
    } else if r.error is Some {
        "）：失败（"@ + r.error->0@ + "）\n"@
    } else {
        "）：失败（"@ + "未知错误"@ + "）\n"@
    })
}

proof fn lemma_servers_stacked(dns: Seq<DnsQueryResult>)
    ensures
        servers_text(dns) == stacked(dns.map_values(|r: DnsQueryResult| server_says(r))),
    decreases dns.len(),
{
    let f = |r: DnsQueryResult| server_says(r);
    let rows = dns.map_values(f);
    lemma_stacked_step(rows);
    if dns.len() > 0 {
        lemma_servers_stacked(dns.drop_last());
        assert(rows.drop_last() =~= dns.drop_last().map_values(f));
        assert(server_line(dns.last()) =~= server_says(dns.last()));
    }
}

/// The report holds the answers to the domain that was asked for: that of the resolver
/// of the system, then a line for every server, in their order, and nothing else
/// before the next section.
#[verifier::rlimit(40)]
pub proof fn law_report_lists_every_server(s: &Session)
    ensures
        text::holds(
            report_text(s),
            "## 4. DNS 解析（域名 "@ + s.dns_domain@ + "）\n"@ + (if s.system_dns is Some {
                "- 系统解析器：成功 -> "@ + addr::list_text(s.system_dns->0@, ", "@) + "\n"@
            } else {
                "- 系统解析器：失败\n"@
            }) + s.dns@.map_values(|r: DnsQueryResult| server_says(r)).flatten() + "\n"@
                + "## 5. 逐跳链路探测\n"@,
        ),
{
    let next = "## 5. 逐跳链路探测\n"@;
    let table = if s.hops@.len() == 0 {
        "- 无数据\n"@
    } else {
        "| 跳数 | 节点地址 | 应答/发出 | 丢包率 | 时延 平均/最小/最大 (ms) |\n|---|---|---|---|---|\n"@
            + hops_text(s.hops@)
    };
    lemma_regrouped(next, table, "\n"@);
    lemma_section_held(s, 4, next, table + "\n"@);
    lemma_servers_stacked(s.dns@);
}

/// What a reader must find of a page: its host, its status or that there was none, the
/// time it took and, where there is one, the note on it.
pub open spec fn page_says(h: HttpResult) -> Seq<char> {
    let line = "- "@ + h.host@ + "："@ + (if h.status_code is Some {
        "HTTP "@ + text::dec(h.status_code->0 as nat)
    } else {
        "无有效响应"@
    }) + "，耗时 "@ + text::dec(h.elapsed_ms as nat) + "ms\n"@;
    if h.note@.len() > 0 {
        line + "  - 备注："@ + h.note@ + "\n"@
    } else {
        line
    }
}

/// The report holds the page that was tried; where none was, it says so.
pub proof fn law_report_tells_of_the_page(s: &Session)
    ensures
        text::holds(
            report_text(s),
            "## 6. 应用层 HTTP 连通性\n"@ + (if s.http is Some {
                page_says(s.http->0)
            } else {
                "- 未执行\n"@
            }) + "\n"@ + "## 7. 诊断结论\n"@,
        ),
{
    let next = "## 7. 诊断结论\n"@;
    let lines = match s.diagnosis {
        Some(d) => findings_text(d@.findings, "- "@, "  - 建议："@) + "\n**"@ + d@.conclusion
            + "**\n"@,
        None => ""@,
    };
    lemma_regrouped(next, lines, "\n"@);
    lemma_section_held(s, 6, next, lines + "\n"@);
    if let Some(h) = s.http {
        assert(http_lines(s.http) == page_says(h));
    }
}

/// What a reader must find of a gateway: its address with what its pings came to, or
/// that it was not probed. Where it answered no ping, the link layer and the samples
/// of it follow, as far as they are there.
pub open spec fn gateway_says(
    gw: Ipv4Addr,
    pings: Option<PingStats>,
    arp: Option<bool>,
    samples: Option<QualityStats>,
) -> Seq<char> {
    if pings is None {
        "- 网关 "@ + gw.text() + "：未能探测\n"@
    } else {
        let line = "- 网关 "@ + gw.text() + "："@ + trace::stats_text(pings->0@) + "\n"@;
        let link = if arp == Some(true) {
            "  - ARP 交叉验证：网关在链路层可达（路由器可能禁用了 ICMP ping 应答，不影响上网）\n"@
        } else if arp == Some(false) {
            "  - ARP 交叉验证：网关同样无应答\n"@
        } else {
            ""@
        };
        if pings->0.received > 0 {
            line
        } else if samples is Some {
            line + (link + "  - 网关段 TCP 采样："@ + quality::quality_text(samples->0@) + "\n"@)
        } else {
            line + link
        }
    }
}

/// The report holds what is known of the gateway, or that there is none.
#[verifier::rlimit(40)]
pub proof fn law_report_tells_of_the_gateway(s: &Session)
    ensures
        text::holds(
            report_text(s),
            "## 2. 网关连通性\n"@ + (if s.gateway_addr is Some {
                gateway_says(s.gateway_addr->0, s.gateway, s.gateway_arp, s.gateway_quality)
            } else {
                "- 未发现默认网关\n"@
            }) + "\n"@ + "## 3. 公网可达性\n"@,
        ),
{
    let next = "## 3. 公网可达性\n"@;
    let a = publics_text(s.publics@, s.publics_quality@);
    let b = match s.target_stats {
        Some(ts) => "- 目标 "@ + s.target.text() + "："@ + trace::stats_text(ts@) + "\n"@,
        None => ""@,
    };
    let c = match s.target_quality {
        Some(q) => "- 端到端 TCP 采样（目标 "@ + s.target.text() + " :80）："@ + quality::quality_text(
            q@,
        ) + "\n"@,
        None => ""@,
    };
    lemma_regrouped(next, a, b);
    lemma_regrouped(next, a + b, c);
    lemma_regrouped(next, a + b + c, "\n"@);
    lemma_section_held(s, 2, next, a + b + c + "\n"@);
    if let Some(gw) = s.gateway_addr {
        assert(gateway_lines(s) == gateway_says(gw, s.gateway, s.gateway_arp, s.gateway_quality));
    }
}

/// The report starts with its title, the time, the target as an address and as it was
/// asked for, and what the diagnosis was run with.
pub proof fn law_report_starts_with_the_target(s: &Session)
    ensures
        ({
            let head = "# 诸葛网络问题诊断报告\n\n- 诊断时间："@ + s.time@ + "\n- 诊断目标："@ + s.target.text()
                + "（"@ + s.target_input@ + "）\n- 参数：每跳探测 "@ + text::dec(s.count as nat)
                + " 次，单次超时 "@ + text::dec(s.timeout_ms as nat) + "ms，质量采样 "@ + text::dec(
                s.quality_count as nat,
            ) + " 次\n\n"@;
            report_text(s).take(head.len() as int) == head
        }),
{
    let head = head_text(s);
    let e1 = "---\n本报告由 诸葛网络问题诊断器 v"@;
    let e2 = " 自动生成（MIT 开源协议）。\n"@;
    let r = up_to(s, 7);
    lemma_report_is_sections(s);
    lemma_head_first(s, 7);
    lemma_start_kept(r, e1, head);
    lemma_start_kept(r + e1, VERSION@, head);
    lemma_start_kept(r + e1 + VERSION@, e2, head);
}

/// What a text starts with, it still starts with when more follows.
proof fn lemma_start_kept(a: Seq<char>, b: Seq<char>, head: Seq<char>)
    requires
        head.len() <= a.len(),
        a.take(head.len() as int) == head,
    ensures
        head.len() <= (a + b).len(),
        (a + b).take(head.len() as int) == head,
{
    assert((a + b).take(head.len() as int) =~= a.take(head.len() as int));
}

proof fn lemma_head_first(s: &Session, k: int)
    requires
        0 <= k,
    ensures
        head_text(s).len() <= up_to(s, k).len(),
        up_to(s, k).take(head_text(s).len() as int) == head_text(s),
    decreases k,
{
    let head = head_text(s);
    if k == 0 {
        assert(head.take(head.len() as int) =~= head);
    } else {
        lemma_head_first(s, k - 1);
        lemma_start_kept(up_to(s, k - 1), section(s, k), head);
    }
}

/// What a reader must find of a finding: its mark, its part of the network, what was
/// found and, where there is one, the advice.
pub open spec fn finding_says(f: Finding, lead: Seq<char>, advice: Seq<char>) -> Seq<char> {
    lead + (match f.level {
        diagnose::Level::Normal => "[正常]"@,
        diagnose::Level::Warn => "[注意]"@,
        diagnose::Level::Error => "[异常]"@,
    }) + " "@ + f.segment@ + "："@ + f.detail@ + "\n"@ + (if f.suggestion is Some {
        advice + f.suggestion->0@ + "\n"@
    } else {
        Seq::empty()
    })
}

proof fn lemma_findings_stacked(v: Seq<Finding>, lead: Seq<char>, advice: Seq<char>)
    ensures
        findings_text(diagnose::notes(v), lead, advice) == stacked(
            v.map_values(|f: Finding| finding_says(f, lead, advice)),
        ),
    decreases v.len(),
{
    let g = |f: Finding| finding_says(f, lead, advice);
    let rows = v.map_values(g);
    lemma_stacked_step(rows);
    if v.len() > 0 {
        lemma_findings_stacked(v.drop_last(), lead, advice);
        assert(rows.drop_last() =~= v.drop_last().map_values(g));
        assert(diagnose::notes(v).drop_last() =~= diagnose::notes(v.drop_last()));
        let f = v.last();
        assert(diagnose::notes(v).last() == f@);
        assert(finding_lines(f@, lead, advice) =~= finding_says(f, lead, advice));
    }
}

/// The report ends with the diagnosis: every finding with its mark and its advice, in
/// their order, then the conclusion. The same findings and the same conclusion are
/// shown at the end of a diagnosis.
#[verifier::rlimit(40)]
pub proof fn law_every_finding_is_reported(s: &Session)
    requires
        s.diagnosis is Some,
    ensures
        text::holds(
            report_text(s),
            "## 7. 诊断结论\n"@ + (s.diagnosis->0.findings@.map_values(
                |f: Finding| finding_says(f, "- "@, "  - 建议："@),
            ).flatten() + "\n**"@ + s.diagnosis->0.conclusion@ + "**\n"@) + "\n"@,
        ),
        text::holds(
            shown_conclusion(s.diagnosis->0@),
            s.diagnosis->0.findings@.map_values(
                |f: Finding| finding_says(f, "  "@, "         建议："@),
            ).flatten()
                + "--------------------------------------------------------------\n  >> "@
                + s.diagnosis->0.conclusion@,
        ),
{
    let d = s.diagnosis->0;
    lemma_findings_stacked(d.findings@, "- "@, "  - 建议："@);
    lemma_findings_stacked(d.findings@, "  "@, "         建议："@);
    let c = section(s, 7);
    text::lemma_holds_itself(c);
    assert(up_to(s, 7) == up_to(s, 6) + c);
    text::lemma_holds_concat(up_to(s, 6), c, c);
    lemma_held_up_to(s, 7, c);
    let shown = findings_text(d@.findings, "  "@, "         建议："@);
    let rule = "--------------------------------------------------------------\n  >> "@;
    let head =
        "\n==============================================================\n                         诊断结论\n==============================================================\n"@;
    let foot = "\n==============================================================\n"@;
    lemma_held_between(head, shown + rule + d.conclusion@, foot);
    lemma_regrouped(head, shown, rule);
    lemma_regrouped(head, shown + rule, d.conclusion@);
}

proof fn lemma_zero_padded_value(n: nat, width: nat)
    ensures
        text::digits_value(text::zero_padded(n, width)) == n,
{
    text::lemma_dec_digits(n);
    if text::dec(n).len() < width {
        lemma_zeros_before((width - text::dec(n).len()) as nat, text::dec(n));
    }
}

proof fn lemma_zeros_before(k: nat, d: Seq<char>)
    ensures
        text::digits_value(Seq::new(k, |i: int| '0') + d) == text::digits_value(d),
    decreases d.len(), k,
{
    let z = Seq::new(k, |i: int| '0');
    let t = z + d;
    if d.len() > 0 {
        assert(t.drop_last() =~= z + d.drop_last());
        lemma_zeros_before(k, d.drop_last());
    } else if k > 0 {
        let y = Seq::new((k - 1) as nat, |i: int| '0');
        assert(t.drop_last() =~= y + d);
        assert(t.last() == '0');
        lemma_zeros_before((k - 1) as nat, d);
    } else {
        assert(t =~= d);
    }
}

/// A moment is written as the year, month and day, then the hour, minute and second: each
/// number can be read where it stands.
pub proof fn law_local_stamp_can_be_read(t: LocalTime)
    requires
        t.year <= 9999,
        t.month <= 12,
        t.day <= 31,
        t.hour <= 23,
        t.minute <= 59,
        t.second <= 60,
    ensures
        ({
            let l = local_text(t);
            &&& l.len() == 15
            &&& text::digits_value(l.subrange(0, 4)) == t.year
            &&& text::digits_value(l.subrange(4, 6)) == t.month
            &&& text::digits_value(l.subrange(6, 8)) == t.day
            &&& text::digits_value(l.subrange(9, 11)) == t.hour
            &&& text::digits_value(l.subrange(11, 13)) == t.minute
            &&& text::digits_value(l.subrange(13, 15)) == t.second
        }),
{
    law_local_stamp_shape(t);
    reveal_strlit("_");
    let y = text::zero_padded(t.year as nat, 4);
    let mo = text::zero_padded(t.month as nat, 2);
    let d = text::zero_padded(t.day as nat, 2);
    let h = text::zero_padded(t.hour as nat, 2);
    let mi = text::zero_padded(t.minute as nat, 2);
    let se = text::zero_padded(t.second as nat, 2);
    lemma_zero_padded(t.year as nat, 4);
    lemma_zero_padded(t.month as nat, 2);
    lemma_zero_padded(t.day as nat, 2);
    lemma_zero_padded(t.hour as nat, 2);
    lemma_zero_padded(t.minute as nat, 2);
    lemma_zero_padded(t.second as nat, 2);
    lemma_zero_padded_value(t.year as nat, 4);
    lemma_zero_padded_value(t.month as nat, 2);
    lemma_zero_padded_value(t.day as nat, 2);
    lemma_zero_padded_value(t.hour as nat, 2);
    lemma_zero_padded_value(t.minute as nat, 2);
    lemma_zero_padded_value(t.second as nat, 2);
    let l = local_text(t);
    assert(l.subrange(0, 4) =~= y);
    assert(l.subrange(4, 6) =~= mo);
    assert(l.subrange(6, 8) =~= d);
    assert(l.subrange(9, 11) =~= h);
    assert(l.subrange(11, 13) =~= mi);
    assert(l.subrange(13, 15) =~= se);
}

/// The seconds of the clock are written as their numeral, a clock that cannot be read as
/// unknown. A report is named after its moment, so that two moments have two names.
pub proof fn law_reports_are_named_after_moments(n: u64, a: Seq<char>, b: Seq<char>)
    ensures
        text::digits_value(seconds_text(Some(n))) == n,
        seconds_text(None) == "unknown"@,
        path_text(a) == path_text(b) ==> a == b,
        text::holds(path_text(a), a),
        path_text(a).skip(path_text(a).len() - 3) == ".md"@,
{
    text::lemma_dec_digits(n as nat);
    reveal_strlit(".md");
    reveal_strlit("网络诊断报告_");
    lemma_held_between("网络诊断报告_"@, a, ".md"@);
    let (p, q) = (path_text(a), path_text(b));
    assert(p.skip(p.len() - 3) =~= ".md"@);
    assert(p.subrange(7, p.len() - 3) =~= a);
    assert(q.subrange(7, q.len() - 3) =~= b);
}

/// The report that is written is the report of its session, and the conclusion that is
/// shown is that of its diagnosis; without one nothing is shown.
pub proof fn law_report_is_of_its_session(s: &Session, t: String, c: String)
    requires
        call_ensures(render, (s,), t),
        call_ensures(conclusion, (s,), c),
    ensures
        t@ == report_text(s),
        s.diagnosis is None ==> c@.len() == 0,
        s.diagnosis is Some ==> c@ == shown_conclusion(s.diagnosis->0@),
{
}

} // verus!
