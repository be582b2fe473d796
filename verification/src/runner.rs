//! The course of a diagnosis: what is measured in which order, and what is told
//! on the way.
//!
//! A `Run` says by its `Job` what is to be done next. Whoever drives it does that
//! job, hands the `Answer` back and passes on the events that come out, until the
//! job is `Done`.

use crate::addr;
use crate::addr::Ipv4Addr;
use crate::binary64;
use crate::diagnose;
use crate::diagnose::{can_run, Inputs};
use crate::dns::DnsQueryResult;
use crate::env;
use crate::env::{pick_primary, AdapterInfo};
use crate::http;
use crate::http::{Endpoint, HttpResult};
use crate::quality;
use crate::quality::{fmt_quality, QualityStats};
use crate::report;
use crate::report::Session;
use crate::route;
use crate::text;
use crate::trace;
use crate::trace::{are_ordered_to, fmt_stats, HopStat, PingStats};
use vstd::prelude::*;

verus! {

/// The target where none is asked for.
pub const DEFAULT_TARGET: &'static str = "223.5.5.5";

/// The domain that DNS is tried with.
pub const DNS_TEST_DOMAIN: &'static str = "www.baidu.com";

/// How many steps a diagnosis has.
pub const TOTAL_STEPS: u8 = 7;

/// How many public addresses are tried.
pub const PUBLIC_COUNT: usize = 3;

/// The public addresses that are tried, with their names.
pub open spec fn public_check(i: int) -> (Ipv4Addr, Seq<char>) {
    if i == 0 {
        (Ipv4Addr { a: 223, b: 5, c: 5, d: 5 }, "阿里 DNS"@)
    } else if i == 1 {
        (Ipv4Addr { a: 119, b: 29, c: 29, d: 29 }, "DNSPod"@)
    } else {
        (Ipv4Addr { a: 8, b: 8, c: 8, d: 8 }, "Google DNS"@)
    }
}

fn check_at(i: usize) -> (r: (Ipv4Addr, &'static str))
    ensures
        r.0 == public_check(i as int).0,
        r.1@ == public_check(i as int).1,
{
    if i == 0 {
        (Ipv4Addr::new(223, 5, 5, 5), "阿里 DNS")
    } else if i == 1 {
        (Ipv4Addr::new(119, 29, 29, 29), "DNSPod")
    } else {
        (Ipv4Addr::new(8, 8, 8, 8), "Google DNS")
    }
}

/// The default target as an address.
pub open spec fn default_target() -> Ipv4Addr {
    Ipv4Addr { a: 223, b: 5, c: 5, d: 5 }
}

/// The default target is the address that its name is the dotted form of.
proof fn lemma_default_target()
    ensures
        default_target().text() == DEFAULT_TARGET@,
{
    reveal_strlit("223.5.5.5");
    reveal_strlit(".");
    reveal_with_fuel(text::dec, 3);
    assert(default_target().text() =~= DEFAULT_TARGET@);
}

/// What a diagnosis is run with.
#[derive(Clone, Debug)]
pub struct RunOpts {
    /// An IPv4 address or a domain.
    pub target: String,
    /// How many probes for every hop.
    pub count: u32,
    /// How long to wait for a probe, in milliseconds.
    pub timeout_ms: u32,
    pub max_hops: u8,
    /// How many sampled connections.
    pub quality_count: u32,
}

impl Default for RunOpts {
    fn default() -> (o: Self)
        ensures
            o.target@ == DEFAULT_TARGET@,
            o.count == 8,
            o.timeout_ms == 1500,
            o.max_hops == 30,
            o.quality_count == 20,
    {
        RunOpts {
            target: DEFAULT_TARGET.to_string(),
            count: 8,
            timeout_ms: 1500,
            max_hops: 30,
            quality_count: 20,
        }
    }
}

/// What is told in the course of a diagnosis.
#[derive(Clone, Debug)]
pub enum Event {
    Step { n: u8, total: u8, title: String },
    Log(String),
}

/// What is told, its strings as sequences.
pub ghost enum Told {
    Step(nat, nat, Seq<char>),
    Log(Seq<char>),
}

impl Event {
    /// What is told, its strings as sequences.
    pub open spec fn view(&self) -> Told {
        match *self {
            Event::Step { n, total, title } => Told::Step(n as nat, total as nat, title@),
            Event::Log(t) => Told::Log(t@),
        }
    }
}

/// All that was told.
pub open spec fn told(v: Seq<Event>) -> Seq<Told> {
    v.map_values(|e: Event| e@)
}

/// The announcement of a step.
pub open spec fn step(n: nat, title: Seq<char>) -> Told {
    Told::Step(n, TOTAL_STEPS as nat, title)
}

/// Announces a step.
pub fn emit_step(out: &mut Vec<Event>, n: u8, title: &str)
    ensures
        told(final(out)@) == told(old(out)@).push(step(n as nat, title@)),
{
    out.push(Event::Step { n, total: TOTAL_STEPS, title: title.to_string() });
    assert(told(out@) == told(old(out)@).push(step(n as nat, title@)));
}

/// Tells something.
pub fn emit_log(out: &mut Vec<Event>, msg: String)
    ensures
        told(final(out)@) == told(old(out)@).push(Told::Log(msg@)),
{
    out.push(Event::Log(msg));
    assert(told(out@) == told(old(out)@).push(Told::Log(msg@)));
}

/// What is measured next.
#[derive(Clone, Copy, Debug, PartialEq, Eq, Structural)]
pub enum Task {
    /// The address of the target.
    ResolveTarget,
    /// The adapters.
    ListAdapters,
    /// The pings of the gateway.
    PingGateway(Ipv4Addr),
    /// Whether the gateway answers on the link layer.
    AskGateway(Ipv4Addr),
    /// Connections to the gateway.
    SampleGateway(Ipv4Addr),
    /// The pings of a public address.
    PingPublic(usize),
    /// The pings of the target.
    PingTarget,
    /// Connections to a public address.
    SamplePublic(usize),
    /// Connections to the target.
    SampleTarget,
    /// The answer of a DNS server.
    AskServer(usize),
    /// The answer of the resolver of the system.
    AskSystem,
    /// The hops to the target.
    Trace,
    /// A page.
    Fetch(usize),
    /// Nothing more: the diagnosis is to be made.
    Conclude,
    /// Nothing at all.
    Done,
}

/// A job to be done outside, with all that it needs.
#[derive(Clone, Debug)]
pub enum Job {
    /// Resolve this name.
    Resolve(String),
    /// List the adapters.
    ListAdapters,
    /// Ping this address.
    Ping { addr: Ipv4Addr, count: u32, timeout_ms: u32 },
    /// Ask for this address on the link layer.
    Arp(Ipv4Addr),
    /// Sample connections; where there is a label, tell how far it is.
    Sample {
        addr: Ipv4Addr,
        port: u16,
        count: u32,
        wait_ms: u64,
        interval_ms: u64,
        label: Option<&'static str>,
    },
    /// Ask this DNS server for this domain.
    Query { server: Ipv4Addr, name: String, domain: &'static str, wait_ms: u64 },
    /// Ask the resolver of the system for this domain.
    ResolveSystem { domain: &'static str, wait_ms: u64 },
    /// Find the hops to this address.
    Trace { target: Ipv4Addr, count: u32, timeout_ms: u32, max_hops: u8 },
    /// Fetch this page.
    Fetch { page: Endpoint, wait_ms: u64 },
    /// Make the diagnosis.
    Conclude,
    /// Nothing.
    Done,
}

/// What came of a job.
pub enum Answer {
    /// The first IPv4 address of the name, where it has one.
    Resolved(Option<Ipv4Addr>),
    Adapters(Vec<AdapterInfo>),
    /// The pings, or why they could not be sent.
    Pinged(Result<PingStats, String>),
    /// Whether the link layer answered, and with what hardware address.
    Asked(bool, Option<String>),
    Sampled(QualityStats),
    Queried(DnsQueryResult),
    System(Result<Vec<Ipv4Addr>, String>),
    Traced(Vec<HopStat>),
    Fetched(HttpResult),
}

/// A diagnosis under way.
pub struct Run {
    pub opts: RunOpts,
    pub session: Session,
    pub task: Task,
    /// The DNS servers to ask, with their names.
    pub servers: Vec<(Ipv4Addr, String)>,
    /// The pages to fetch.
    pub pages: Vec<Endpoint>,
}

/// The servers, each with its name as a sequence.
pub open spec fn named(v: Seq<(Ipv4Addr, String)>) -> Seq<(Ipv4Addr, Seq<char>)> {
    v.map_values(|p: (Ipv4Addr, String)| (p.0, p.1@))
}

/// The pages, each by its contents.
pub open spec fn listed_pages(v: Seq<Endpoint>) -> Seq<http::Page> {
    v.map_values(|e: Endpoint| e@)
}

/// The target is an address in dotted form.
pub open spec fn is_address(t: Seq<char>) -> bool {
    exists|x: Ipv4Addr| t == #[trigger] x.text()
}

/// The session holds what the diagnosis rests on.
pub open spec fn evidence(s: Session) -> diagnose::Evidence {
    diagnose::Evidence {
        adapter: s.primary,
        gateway_addr: s.gateway_addr,
        gateway: s.gateway,
        gateway_arp: s.gateway_arp,
        publics: s.publics@,
        publics_quality: s.publics_quality@,
        gateway_quality: s.gateway_quality,
        target_quality: s.target_quality,
        target: s.target,
        target_stats: s.target_stats,
        dns: s.dns@,
        dns_domain: s.dns_domain@,
        system_dns: diagnose::listed(s.system_dns),
        hops: s.hops@,
        http: s.http,
    }
}

impl Run {
    /// The measurements are well-formed and the task speaks of what is there.
    pub open spec fn wf(&self) -> bool {
        &&& self.session.wf()
        &&& self.session.publics@.len() <= PUBLIC_COUNT
        &&& listed_pages(self.pages@) == http::pages(
            self.opts.target@,
            !is_address(self.opts.target@),
        )
        &&& trace::numbered_to(self.session.hops@, self.opts.max_hops)
        &&& match self.task {
            Task::ResolveTarget | Task::ListAdapters => self.session.publics@.len() == 0,
            Task::PingGateway(gw) | Task::AskGateway(gw) | Task::SampleGateway(gw) => {
                &&& self.session.gateway_addr == Some(gw)
                &&& self.session.publics@.len() == 0
            },
            Task::PingPublic(i) => i < PUBLIC_COUNT && self.session.publics@.len() <= i,
            Task::SamplePublic(i) => i < self.session.publics@.len()
                && self.session.publics@[i as int].2.received == 0,
            Task::AskServer(i) => i < self.servers@.len(),
            Task::Fetch(i) => i < self.pages@.len(),
            _ => true,
        }
        &&& match self.task {
            Task::Fetch(i) => if i == 0 {
                self.session.http is None
            } else {
                self.session.http matches Some(h) && !h.good()
            },
            Task::Conclude | Task::Done => self.session.http is Some,
            _ => self.session.http is None,
        }
    }
}

/// Nothing told yet.
pub open spec fn quietness() -> Seq<Told> {
    Seq::empty()
}

fn quiet() -> (v: Vec<Event>)
    ensures
        told(v@) == quietness(),
{
    let v: Vec<Event> = Vec::new();
    assert(told(v@) == Seq::<Told>::empty());
    v
}

// ---- the target ----

/// What a run starts from.
pub open spec fn fresh(b: Session, opts: RunOpts, time: String, target: Ipv4Addr) -> bool {
    &&& b.time == time
    &&& b.target == target
    &&& b.target_input@ == opts.target@
    &&& b.count == opts.count
    &&& b.timeout_ms == opts.timeout_ms
    &&& b.quality_count == opts.quality_count
    &&& b.dns_domain@ == DNS_TEST_DOMAIN@
    &&& b.adapters@.len() == 0
    &&& b.primary is None
    &&& b.gateway_addr is None
    &&& b.gateway is None
    &&& b.gateway_arp is None
    &&& b.publics@.len() == 0
    &&& b.publics_quality@.len() == 0
    &&& b.gateway_quality is None
    &&& b.target_quality is None
    &&& b.target_stats is None
    &&& b.dns@.len() == 0
    &&& b.system_dns is None
    &&& b.hops@.len() == 0
    &&& b.http is None
    &&& b.diagnosis is None
}

/// A run starts with the adapters, or first resolves its target where that is
/// no address.
pub open spec fn started(opts: RunOpts, time: String, b: Run, out: Seq<Told>) -> bool {
    &&& b.opts == opts
    &&& b.servers@.len() == 0
    &&& if is_address(opts.target@) {
        &&& b.session.target.text() == opts.target@
        &&& fresh(b.session, opts, time, b.session.target)
        &&& b.task == Task::ListAdapters
        &&& out == quietness().push(step(1, "检测本地网络环境"@))
    } else {
        &&& fresh(b.session, opts, time, Ipv4Addr { a: 0, b: 0, c: 0, d: 0 })
        &&& b.task == Task::ResolveTarget
        &&& out == quietness().push(
            Told::Log("目标 \""@ + opts.target@ + "\" 是域名，尝试解析 ..."@),
        )
    }
}

/// Once the target is resolved, or the default one stands in for it, the adapters
/// are listed.
pub open spec fn resolved(a: Run, r: Option<Ipv4Addr>, b: Run, out: Seq<Told>) -> bool {
    &&& b == Run {
        session: Session {
            target: match r {
                Some(x) => x,
                None => default_target(),
            },
            ..a.session
        },
        task: Task::ListAdapters,
        ..a
    }
    &&& r is None ==> b.session.target.text() == DEFAULT_TARGET@
    &&& out == match r {
        Some(x) => quietness().push(Told::Log("解析成功: "@ + x.text())),
        None => quietness().push(
            Told::Log("警告: 无法解析目标域名，这本身说明 DNS 可能存在问题"@),
        ).push(Told::Log("改用默认目标 "@ + DEFAULT_TARGET@ + " 继续诊断"@)),
    }.push(step(1, "检测本地网络环境"@))
}

impl Run {
    /// Starts a diagnosis at the moment `time`.
    pub fn start(opts: RunOpts, time: String) -> (r: (Run, Vec<Event>))
        ensures
            r.0.wf(),
            started(opts, time, r.0, told(r.1@)),
    {
        let parsed = addr::parse(opts.target.as_str());
        let pages = http::endpoints(opts.target.as_str(), parsed.is_none());
        let mut out = quiet();
        let mut session = Session::default();
        session.time = time;
        session.target_input = opts.target.clone();
        session.count = opts.count;
        session.timeout_ms = opts.timeout_ms;
        session.quality_count = opts.quality_count;
        session.dns_domain = DNS_TEST_DOMAIN.to_string();
        let task = match parsed {
            Some(x) => {
                assert(opts.target@ == x.text());
                session.target = x;
                emit_step(&mut out, 1, "检测本地网络环境");
                Task::ListAdapters
            },
            None => {
                let mut t = "目标 \"".to_string();
                t.append(opts.target.as_str());
                t.append("\" 是域名，尝试解析 ...");
                emit_log(&mut out, t);
                Task::ResolveTarget
            },
        };
        (Run { opts, session, task, servers: Vec::new(), pages }, out)
    }

    fn take_address(&mut self, r: Option<Ipv4Addr>) -> (out: Vec<Event>)
        requires
            old(self).wf(),
            old(self).task is ResolveTarget,
        ensures
            final(self).wf(),
            resolved(*old(self), r, *final(self), told(out@)),
    {
        let mut out = quiet();
        match r {
            Some(x) => {
                let mut t = "解析成功: ".to_string();
                t.append(x.to_text().as_str());
                emit_log(&mut out, t);
                self.session.target = x;
            },
            None => {
                emit_log(
                    &mut out,
                    "警告: 无法解析目标域名，这本身说明 DNS 可能存在问题".to_string(),
                );
                let mut t = "改用默认目标 ".to_string();
                t.append(DEFAULT_TARGET);
                t.append(" 继续诊断");
                emit_log(&mut out, t);
                self.session.target = Ipv4Addr::new(223, 5, 5, 5);
                proof {
                    lemma_default_target();
                }
            },
        }
        emit_step(&mut out, 1, "检测本地网络环境");
        self.task = Task::ListAdapters;
        out
    }
}

// ---- the adapters ----

/// What is told of an adapter.
pub open spec fn adapter_log(a: env::Adapter) -> Seq<char> {
    "- "@ + a.kind + " \""@ + env::shown_name(a) + "\"："@ + a.description + "，IPv4 "@
        + report::ipv4_text(a.ipv4) + "，网关 "@ + addr::list_text(a.gateways, ","@) + "，状态 "@
        + report::state_text(a.up)
}

/// What is told of the adapters.
pub open spec fn adapter_logs(v: Seq<AdapterInfo>) -> Seq<Told>
    decreases v.len(),
{
    if v.len() == 0 {
        quietness()
    } else {
        adapter_logs(v.drop_last()).push(Told::Log(adapter_log(v.last()@)))
    }
}

/// What is told of the adapter in use.
pub open spec fn primary_log(p: Option<AdapterInfo>) -> Seq<char> {
    match p {
        Some(a) => "主用适配器: \""@ + env::shown_name(a@) + "\"（"@ + a.kind@ + "）"@,
        None => "警告: 未找到可用的主用网络适配器"@,
    }
}

/// The first gateway of the adapter in use.
pub open spec fn gateway_of(p: Option<AdapterInfo>) -> Option<Ipv4Addr> {
    match p {
        Some(a) => if a.gateways@.len() > 0 {
            Some(a.gateways@[0])
        } else {
            None
        },
        None => None,
    }
}

/// Once the adapters are listed, the gateway of the one in use is pinged; where
/// there is none, the public network comes next.
pub open spec fn listed(a: Run, adapters: Vec<AdapterInfo>, b: Run, out: Seq<Told>) -> bool {
    let s = b.session;
    &&& b == Run {
        session: Session {
            adapters,
            primary: s.primary,
            gateway_addr: gateway_of(s.primary),
            ..a.session
        },
        task: b.task,
        ..a
    }
    &&& match s.primary {
        Some(p) => env::primary(adapters@) matches Some(i) && p@ == adapters@[i]@,
        None => env::primary(adapters@) is None,
    }
    &&& {
        let lines = if adapters@.len() == 0 {
            quietness().push(Told::Log("警告: 未读取到任何网络适配器"@))
        } else {
            adapter_logs(adapters@)
        };
        let more = lines.push(Told::Log(primary_log(s.primary))).push(step(2, "检查网关连通性"@));
        match s.gateway_addr {
            Some(gw) => {
                &&& b.task == Task::PingGateway(gw)
                &&& out == more.push(
                    Told::Log(
                        "向网关 "@ + gw.text() + " 发送 "@ + text::dec(a.opts.count as nat)
                            + " 个 ICMP 探测 ..."@,
                    ),
                )
            },
            None => {
                &&& b.task == Task::PingPublic(0)
                &&& out == more.push(Told::Log("未发现默认网关，跳过"@)).push(publics_step())
            },
        }
    }
}

/// The announcement of the public network.
pub open spec fn publics_step() -> Told {
    step(3, "检查公网连通性（IP 直连，排除 DNS 因素）"@)
}

fn tell_adapter(a: &AdapterInfo) -> (t: String)
    ensures
        t@ == adapter_log(a@),
{
    let mut t = "- ".to_string();
    t.append(a.kind.as_str());
    t.append(" \"");
    t.append(a.friendly_name());
    t.append("\"：");
    t.append(a.description.as_str());
    t.append("，IPv4 ");
    t.append(report::ipv4(a.ipv4).as_str());
    t.append("，网关 ");
    t.append(addr::join(&a.gateways, ",").as_str());
    t.append("，状态 ");
    t.append(report::state(a.up));
    t
}

fn tell_adapters(adapters: &Vec<AdapterInfo>) -> (out: Vec<Event>)
    ensures
        told(out@) == if adapters@.len() == 0 {
            quietness().push(Told::Log("警告: 未读取到任何网络适配器"@))
        } else {
            adapter_logs(adapters@)
        },
{
    let mut out = quiet();
    if adapters.len() == 0 {
        emit_log(&mut out, "警告: 未读取到任何网络适配器".to_string());
        return out;
    }
    let mut i: usize = 0;
    while i < adapters.len()
        invariant
            i <= adapters@.len(),
            told(out@) == adapter_logs(adapters@.take(i as int)),
        decreases adapters.len() - i,
    {
        assert(adapters@.take(i + 1).drop_last() == adapters@.take(i as int));
        emit_log(&mut out, tell_adapter(&adapters[i]));
        i = i + 1;
    }
    assert(adapters@.take(i as int) == adapters@);
    out
}

impl Run {
    fn take_adapters(&mut self, adapters: Vec<AdapterInfo>) -> (out: Vec<Event>)
        requires
            old(self).wf(),
            old(self).task is ListAdapters,
        ensures
            final(self).wf(),
            listed(*old(self), adapters, *final(self), told(out@)),
    {
        let mut out = tell_adapters(&adapters);
        let primary: Option<AdapterInfo> = match pick_primary(adapters.as_slice()) {
            Some(a) => Some(a.duplicate()),
            None => None,
        };
        let gateway: Option<Ipv4Addr> = match &primary {
            Some(a) => {
                let mut t = "主用适配器: \"".to_string();
                t.append(a.friendly_name());
                t.append("\"（");
                t.append(a.kind.as_str());
                t.append("）");
                emit_log(&mut out, t);
                if a.gateways.len() > 0 {
                    Some(a.gateways[0])
                } else {
                    None
                }
            },
            None => {
                emit_log(&mut out, "警告: 未找到可用的主用网络适配器".to_string());
                None
            },
        };
        emit_step(&mut out, 2, "检查网关连通性");
        self.session.adapters = adapters;
        self.session.primary = primary;
        self.session.gateway_addr = gateway;
        match gateway {
            Some(gw) => {
                let mut t = "向网关 ".to_string();
                t.append(gw.to_text().as_str());
                t.append(" 发送 ");
                t.append(text::decimal(self.opts.count as u128).as_str());
                t.append(" 个 ICMP 探测 ...");
                emit_log(&mut out, t);
                self.task = Task::PingGateway(gw);
            },
            None => {
                emit_log(&mut out, "未发现默认网关，跳过".to_string());
                emit_step(&mut out, 3, "检查公网连通性（IP 直连，排除 DNS 因素）");
                self.task = Task::PingPublic(0);
            },
        }
        out
    }
}

// ---- the gateway ----

/// After its pings, the gateway is asked for on the link layer.
pub open spec fn gateway_pinged(
    a: Run,
    gw: Ipv4Addr,
    r: Result<PingStats, String>,
    b: Run,
    out: Seq<Told>,
) -> bool {
    &&& b == Run {
        session: Session {
            gateway: match r {
                Ok(st) => Some(st),
                Err(_) => a.session.gateway,
            },
            ..a.session
        },
        task: Task::AskGateway(gw),
        ..a
    }
    &&& out == quietness().push(
        Told::Log(
            match r {
                Ok(st) => trace::stats_text(st@),
                Err(e) => "无法初始化 ICMP 检测: "@ + e@,
            },
        ),
    )
}

/// The gateway was pinged and answered nothing.
pub open spec fn gateway_silent(s: Session) -> bool {
    s.gateway matches Some(g) && g.received == 0
}

/// After the link layer, connections to the gateway are sampled where it answered
/// no ping; else the public network comes next.
pub open spec fn gateway_asked(
    a: Run,
    gw: Ipv4Addr,
    ok: bool,
    mac: Option<String>,
    b: Run,
    out: Seq<Told>,
) -> bool {
    let said = match mac {
        Some(m) => quietness().push(
            Told::Log("ARP 检测网关 "@ + gw.text() + ": 链路层可达（MAC "@ + m@ + "）"@),
        ),
        None => if a.session.gateway is None || gateway_silent(a.session) {
            quietness().push(Told::Log("ARP 检测网关 "@ + gw.text() + ": 同样无应答"@))
        } else {
            quietness()
        },
    };
    &&& b == Run {
        session: Session { gateway_arp: Some(ok), ..a.session },
        task: if gateway_silent(a.session) {
            Task::SampleGateway(gw)
        } else {
            Task::PingPublic(0)
        },
        ..a
    }
    &&& out == if gateway_silent(a.session) {
        said.push(
            Told::Log(
                "TCP 采样测量网关段质量（"@ + text::dec(a.opts.quality_count as nat) + " 次采样）..."@,
            ),
        )
    } else {
        said.push(publics_step())
    }
}

/// After the samples of the gateway, the public network comes next.
pub open spec fn gateway_sampled(a: Run, q: QualityStats, b: Run, out: Seq<Told>) -> bool {
    &&& b == Run {
        session: Session { gateway_quality: Some(q), ..a.session },
        task: Task::PingPublic(0),
        ..a
    }
    &&& out == quietness().push(
        Told::Log("网关段 TCP 采样: "@ + quality::quality_text(q@)),
    ).push(publics_step())
}

impl Run {
    fn take_gateway_pings(&mut self, gw: Ipv4Addr, r: Result<PingStats, String>) -> (out: Vec<Event>)
        requires
            old(self).wf(),
            old(self).task == Task::PingGateway(gw),
            r matches Ok(st) ==> st.wf(),
        ensures
            final(self).wf(),
            gateway_pinged(*old(self), gw, r, *final(self), told(out@)),
    {
        let mut out = quiet();
        match r {
            Ok(st) => {
                emit_log(&mut out, fmt_stats(&st));
                self.session.gateway = Some(st);
            },
            Err(e) => {
                let mut t = "无法初始化 ICMP 检测: ".to_string();
                t.append(e.as_str());
                emit_log(&mut out, t);
            },
        }
        self.task = Task::AskGateway(gw);
        out
    }

    fn take_gateway_arp(&mut self, gw: Ipv4Addr, ok: bool, mac: Option<String>) -> (out: Vec<Event>)
        requires
            old(self).wf(),
            old(self).task == Task::AskGateway(gw),
        ensures
            final(self).wf(),
            gateway_asked(*old(self), gw, ok, mac, *final(self), told(out@)),
    {
        let mut out = quiet();
        let (pinged, silent) = match &self.session.gateway {
            Some(g) => (true, g.received == 0),
            None => (false, false),
        };
        match &mac {
            Some(m) => {
                let mut t = "ARP 检测网关 ".to_string();
                t.append(gw.to_text().as_str());
                t.append(": 链路层可达（MAC ");
                t.append(m.as_str());
                t.append("）");
                emit_log(&mut out, t);
            },
            None => {
                if !pinged || silent {
                    let mut t = "ARP 检测网关 ".to_string();
                    t.append(gw.to_text().as_str());
                    t.append(": 同样无应答");
                    emit_log(&mut out, t);
                }
            },
        }
        self.session.gateway_arp = Some(ok);
        if silent {
            let mut t = "TCP 采样测量网关段质量（".to_string();
            t.append(text::decimal(self.opts.quality_count as u128).as_str());
            t.append(" 次采样）...");
            emit_log(&mut out, t);
            self.task = Task::SampleGateway(gw);
        } else {
            emit_step(&mut out, 3, "检查公网连通性（IP 直连，排除 DNS 因素）");
            self.task = Task::PingPublic(0);
        }
        out
    }

    fn take_gateway_samples(&mut self, q: QualityStats) -> (out: Vec<Event>)
        requires
            old(self).wf(),
            old(self).task is SampleGateway,
            q.wf(),
        ensures
            final(self).wf(),
            gateway_sampled(*old(self), q, *final(self), told(out@)),
    {
        let mut out = quiet();
        let mut t = "网关段 TCP 采样: ".to_string();
        t.append(fmt_quality(&q).as_str());
        emit_log(&mut out, t);
        self.session.gateway_quality = Some(q);
        emit_step(&mut out, 3, "检查公网连通性（IP 直连，排除 DNS 因素）");
        self.task = Task::PingPublic(0);
        out
    }
}

// ---- the public network ----

/// The pings of the target among those of the public addresses, from `i` on.
pub open spec fn pings_of(
    publics: Seq<(Ipv4Addr, &'static str, PingStats)>,
    i: int,
    target: Ipv4Addr,
) -> Option<PingStats>
    decreases publics.len() - i,
{
    if i < 0 || i >= publics.len() {
        None
    } else if publics[i].0 == target {
        Some(publics[i].2)
    } else {
        pings_of(publics, i + 1, target)
    }
}

/// The first public address from `i` on that answered no ping.
pub open spec fn silent_from(publics: Seq<(Ipv4Addr, &'static str, PingStats)>, i: int) -> Option<
    int,
>
    decreases publics.len() - i,
{
    if i < 0 || i >= publics.len() {
        None
    } else if publics[i].2.received == 0 {
        Some(i)
    } else {
        silent_from(publics, i + 1)
    }
}

/// The public addresses from `i` on that answered no ping are sampled, then the
/// target.
pub open spec fn sampling_task(s: Session, i: int) -> Task {
    match silent_from(s.publics@, i) {
        Some(k) => Task::SamplePublic(k as usize),
        None => Task::SampleTarget,
    }
}

/// What is told when the sampling goes on with the public addresses from `i` on.
pub open spec fn sampling_told(out: Seq<Told>, opts: RunOpts, s: Session, i: int) -> Seq<Told> {
    match silent_from(s.publics@, i) {
        Some(k) => out,
        None => out.push(
            Told::Log(
                "TCP 采样测量到目标 "@ + s.target.text() + " 的端到端质量（"@ + text::dec(
                    opts.quality_count as nat,
                ) + " 次采样）..."@,
            ),
        ),
    }
}

/// What is told of pings, or why they could not be sent.
pub open spec fn pings_log(who: Seq<char>, r: Result<PingStats, String>) -> Told {
    Told::Log(
        match r {
            Ok(st) => who + ": "@ + trace::stats_text(st@),
            Err(e) => who + ": 探测失败: "@ + e@,
        },
    )
}

/// After the pings of public address `i` comes the next one; after the last, the
/// target, unless it is one of them.
pub open spec fn public_pinged(
    a: Run,
    i: int,
    r: Result<PingStats, String>,
    b: Run,
    out: Seq<Told>,
) -> bool {
    let (ip, name) = public_check(i);
    let last = i + 1 >= PUBLIC_COUNT;
    let known = pings_of(b.session.publics@, 0, a.session.target);
    let said = quietness().push(pings_log(ip.text() + " ("@ + name + ")"@, r));
    &&& b == Run {
        session: Session {
            publics: b.session.publics,
            target_stats: if last {
                known
            } else {
                a.session.target_stats
            },
            ..a.session
        },
        task: if !last {
            Task::PingPublic((i + 1) as usize)
        } else if known is None {
            Task::PingTarget
        } else {
            sampling_task(b.session, 0)
        },
        ..a
    }
    &&& match r {
        Ok(st) => {
            let v = b.session.publics@;
            &&& v.len() == a.session.publics@.len() + 1
            &&& v.drop_last() == a.session.publics@
            &&& v.last().0 == ip
            &&& v.last().1@ == name
            &&& v.last().2 == st
        },
        Err(_) => b.session.publics@ == a.session.publics@,
    }
    &&& out == if last && known is Some {
        sampling_told(said, a.opts, b.session, 0)
    } else {
        said
    }
}

/// After the pings of the target, connections are sampled.
pub open spec fn target_pinged(
    a: Run,
    r: Result<PingStats, String>,
    b: Run,
    out: Seq<Told>,
) -> bool {
    &&& b == Run {
        session: Session {
            target_stats: match r {
                Ok(st) => Some(st),
                Err(_) => None,
            },
            ..a.session
        },
        task: sampling_task(a.session, 0),
        ..a
    }
    &&& out == sampling_told(
        quietness().push(pings_log("目标 "@ + a.session.target.text(), r)),
        a.opts,
        a.session,
        0,
    )
}

/// After the samples of public address `i`, the sampling goes on.
pub open spec fn public_sampled(a: Run, i: int, q: QualityStats, b: Run, out: Seq<Told>) -> bool {
    let ip = a.session.publics@[i].0;
    &&& b == Run {
        session: Session { publics_quality: b.session.publics_quality, ..a.session },
        task: sampling_task(a.session, i + 1),
        ..a
    }
    &&& b.session.publics_quality@ == a.session.publics_quality@.push((ip, q))
    &&& out == sampling_told(
        quietness().push(
            Told::Log(
                "TCP 采样 "@ + ip.text() + " :53: "@ + if q.succeeded > 0 {
                    "可达，"@ + quality::quality_text(q@)
                } else {
                    "连接失败"@
                },
            ),
        ),
        a.opts,
        a.session,
        i + 1,
    )
}

fn tell_pings(who: String, r: &Result<PingStats, String>) -> (t: String)
    requires
        r matches Ok(st) ==> st.wf(),
    ensures
        Told::Log(t@) == pings_log(who@, *r),
{
    let mut t = who;
    match r {
        Ok(st) => {
            t.append(": ");
            t.append(fmt_stats(st).as_str());
        },
        Err(e) => {
            t.append(": 探测失败: ");
            t.append(e.as_str());
        },
    }
    t
}

fn find_pings(publics: &Vec<(Ipv4Addr, &'static str, PingStats)>, target: Ipv4Addr) -> (r: Option<
    PingStats,
>)
    ensures
        r == pings_of(publics@, 0, target),
        r matches Some(st) ==> exists|i: int|
            0 <= i < publics@.len() && (#[trigger] publics@[i]).2 == st,
{
    let mut i: usize = 0;
    while i < publics.len()
        invariant
            i <= publics@.len(),
            pings_of(publics@, i as int, target) == pings_of(publics@, 0, target),
        decreases publics.len() - i,
    {
        if publics[i].0 == target {
            return Some(publics[i].2);
        }
        i = i + 1;
    }
    None
}

impl Run {
    /// Goes on with the sampling, with the public addresses from `from` on.
    fn go_on_sampling(&mut self, from: usize, out: &mut Vec<Event>)
        requires
            old(self).session.wf(),
            from <= old(self).session.publics@.len() <= PUBLIC_COUNT,
            listed_pages(old(self).pages@) == http::pages(
                old(self).opts.target@,
                !is_address(old(self).opts.target@),
            ),
            old(self).session.http is None,
            trace::numbered_to(old(self).session.hops@, old(self).opts.max_hops),
        ensures
            final(self).wf(),
            *final(self) == (Run {
                task: sampling_task(old(self).session, from as int),
                ..*old(self)
            }),
            told(final(out)@) == sampling_told(
                told(old(out)@),
                old(self).opts,
                old(self).session,
                from as int,
            ),
    {
        let mut i: usize = from;
        while i < self.session.publics.len()
            invariant
                i <= self.session.publics@.len() <= PUBLIC_COUNT,
                *self == *old(self),
                out@ == old(out)@,
                self.session.wf(),
                self.session.http is None,
                trace::numbered_to(self.session.hops@, self.opts.max_hops),
                listed_pages(self.pages@) == http::pages(
                    self.opts.target@,
                    !is_address(self.opts.target@),
                ),
                silent_from(self.session.publics@, i as int) == silent_from(
                    self.session.publics@,
                    from as int,
                ),
            decreases self.session.publics.len() - i,
        {
            if self.session.publics[i].2.received == 0 {
                self.task = Task::SamplePublic(i);
                return ;
            }
            i = i + 1;
        }
        let mut t = "TCP 采样测量到目标 ".to_string();
        t.append(self.session.target.to_text().as_str());
        t.append(" 的端到端质量（");
        t.append(text::decimal(self.opts.quality_count as u128).as_str());
        t.append(" 次采样）...");
        emit_log(out, t);
        self.task = Task::SampleTarget;
    }

    fn take_public_pings(&mut self, i: usize, r: Result<PingStats, String>) -> (out: Vec<Event>)
        requires
            old(self).wf(),
            old(self).task == Task::PingPublic(i),
            r matches Ok(st) ==> st.wf(),
        ensures
            final(self).wf(),
            public_pinged(*old(self), i as int, r, *final(self), told(out@)),
    {
        let mut out = quiet();
        let (ip, name) = check_at(i);
        let mut who = ip.to_text();
        who.append(" (");
        who.append(name);
        who.append(")");
        emit_log(&mut out, tell_pings(who, &r));
        if let Ok(st) = r {
            self.session.publics.push((ip, name, st));
            assert(self.session.publics@.drop_last() == old(self).session.publics@);
        }
        if i + 1 < PUBLIC_COUNT {
            self.task = Task::PingPublic(i + 1);
            return out;
        }
        let known = find_pings(&self.session.publics, self.session.target);
        self.session.target_stats = known;
        if known.is_some() {
            self.go_on_sampling(0, &mut out);
        } else {
            self.task = Task::PingTarget;
        }
        out
    }

    fn take_target_pings(&mut self, r: Result<PingStats, String>) -> (out: Vec<Event>)
        requires
            old(self).wf(),
            old(self).task is PingTarget,
            r matches Ok(st) ==> st.wf(),
        ensures
            final(self).wf(),
            target_pinged(*old(self), r, *final(self), told(out@)),
    {
        let mut out = quiet();
        let mut who = "目标 ".to_string();
        who.append(self.session.target.to_text().as_str());
        emit_log(&mut out, tell_pings(who, &r));
        self.session.target_stats = match r {
            Ok(st) => Some(st),
            Err(_) => None,
        };
        self.go_on_sampling(0, &mut out);
        out
    }

    fn take_public_samples(&mut self, i: usize, q: QualityStats) -> (out: Vec<Event>)
        requires
            old(self).wf(),
            old(self).task == Task::SamplePublic(i),
            q.wf(),
        ensures
            final(self).wf(),
            public_sampled(*old(self), i as int, q, *final(self), told(out@)),
    {
        let mut out = quiet();
        let ip = self.session.publics[i].0;
        let found: String = if q.succeeded > 0 {
            let mut t = "可达，".to_string();
            t.append(fmt_quality(&q).as_str());
            t
        } else {
            "连接失败".to_string()
        };
        let mut t = "TCP 采样 ".to_string();
        t.append(ip.to_text().as_str());
        t.append(" :53: ");
        t.append(found.as_str());
        emit_log(&mut out, t);
        self.session.publics_quality.push((ip, q));
        self.go_on_sampling(i + 1, &mut out);
        out
    }
}

// ---- DNS ----

/// The DNS servers of the adapter in use, then two public ones.
pub open spec fn all_servers(p: Option<AdapterInfo>) -> Seq<(Ipv4Addr, Seq<char>)> {
    let own = match p {
        Some(a) => a.dns_servers@.map_values(
            |x: Ipv4Addr| (x, "系统 DNS - "@ + env::shown_name(a@)),
        ),
        None => Seq::empty(),
    };
    own.push((Ipv4Addr { a: 223, b: 5, c: 5, d: 5 }, "阿里 DNS"@)).push(
        (Ipv4Addr { a: 8, b: 8, c: 8, d: 8 }, "Google DNS"@),
    )
}

/// The servers without those that repeat the address before them.
pub open spec fn unrepeated(v: Seq<(Ipv4Addr, Seq<char>)>) -> Seq<(Ipv4Addr, Seq<char>)>
    decreases v.len(),
{
    if v.len() == 0 {
        v
    } else {
        let init = unrepeated(v.drop_last());
        if init.len() > 0 && init.last().0 == v.last().0 {
            init
        } else {
            init.push(v.last())
        }
    }
}

/// After the samples of the target, the first DNS server is asked.
pub open spec fn target_sampled(a: Run, q: QualityStats, b: Run, out: Seq<Told>) -> bool {
    &&& b == Run {
        session: Session { target_quality: Some(q), ..a.session },
        task: Task::AskServer(0),
        servers: b.servers,
        ..a
    }
    &&& named(b.servers@) == unrepeated(all_servers(a.session.primary))
    &&& out == quietness().push(
        Told::Log("端到端 TCP 采样: "@ + quality::quality_text(q@)),
    ).push(step(4, "检查 DNS 解析"@))
}

/// What is told of the answer of a server.
pub open spec fn server_log(server: Ipv4Addr, name: Seq<char>, r: DnsQueryResult) -> Seq<char> {
    let who = server.text() + " ("@ + name + ") 解析 "@ + DNS_TEST_DOMAIN@;
    if r.success {
        who + ": 成功（"@ + text::dec(r.elapsed_ms as nat) + "ms）-> "@ + addr::list_text(
            r.answers@,
            ", "@,
        )
    } else {
        who + ": 失败（"@ + report::error_text(r) + "）"@
    }
}

/// After server `i` comes the next one; after the last, the resolver of the system.
pub open spec fn server_asked(a: Run, i: int, r: DnsQueryResult, b: Run, out: Seq<Told>) -> bool {
    &&& b == Run {
        session: Session { dns: b.session.dns, ..a.session },
        task: if i + 1 < a.servers@.len() {
            Task::AskServer((i + 1) as usize)
        } else {
            Task::AskSystem
        },
        ..a
    }
    &&& b.session.dns@ == a.session.dns@.push(r)
    &&& out == quietness().push(
        Told::Log(server_log(a.servers@[i].0, a.servers@[i].1@, r)),
    )
}

/// After the resolver of the system, the hops are found.
pub open spec fn system_asked(
    a: Run,
    r: Result<Vec<Ipv4Addr>, String>,
    b: Run,
    out: Seq<Told>,
) -> bool {
    &&& b == Run {
        session: Session {
            system_dns: match r {
                Ok(v) => Some(v),
                Err(_) => a.session.system_dns,
            },
            ..a.session
        },
        task: Task::Trace,
        ..a
    }
    &&& out == quietness().push(
        Told::Log(
            match r {
                Ok(v) => "系统解析器解析 "@ + DNS_TEST_DOMAIN@ + ": 成功 -> "@ + addr::list_text(
                    v@,
                    ", "@,
                ),
                Err(e) => "系统解析器解析 "@ + DNS_TEST_DOMAIN@ + ": 失败（"@ + e@ + "）"@,
            },
        ),
    ).push(
        step(
            5,
            "逐跳链路探测（目标 "@ + a.session.target.text() + "，每跳 "@ + text::dec(
                a.opts.count as nat,
            ) + " 次探测）"@,
        ),
    )
}

/// Adds a server, unless it repeats the address before it.
fn add_server(v: &mut Vec<(Ipv4Addr, String)>, x: Ipv4Addr, name: String)
    ensures
        named(final(v)@) == if old(v)@.len() > 0 && old(v)@.last().0 == x {
            named(old(v)@)
        } else {
            named(old(v)@).push((x, name@))
        },
{
    if v.len() > 0 && v[v.len() - 1].0 == x {
        return ;
    }
    v.push((x, name));
    assert(named(v@) == named(old(v)@).push((x, name@)));
}

fn list_servers(p: &Option<AdapterInfo>) -> (v: Vec<(Ipv4Addr, String)>)
    ensures
        named(v@) == unrepeated(all_servers(*p)),
        v@.len() > 0,
{
    let ghost all = all_servers(*p);
    let mut v: Vec<(Ipv4Addr, String)> = Vec::new();
    let ghost mut n: int = 0;
    assert(named(v@) == unrepeated(all.take(0)));
    if let Some(a) = p {
        let mut i: usize = 0;
        while i < a.dns_servers.len()
            invariant
                i <= a.dns_servers@.len(),
                *p == Some(*a),
                all == all_servers(*p),
                named(v@) == unrepeated(all.take(i as int)),
            decreases a.dns_servers.len() - i,
        {
            let mut t = "系统 DNS - ".to_string();
            t.append(a.friendly_name());
            proof {
                assert(all.take(i + 1).drop_last() == all.take(i as int));
                assert(v@.len() > 0 ==> named(v@).last() == (v@.last().0, v@.last().1@));
            }
            add_server(&mut v, a.dns_servers[i], t);
            i = i + 1;
        }
        proof {
            n = a.dns_servers@.len() as int;
        }
    }
    proof {
        assert(all.len() == n + 2);
        assert(all.take(n + 1).drop_last() == all.take(n));
        assert(all.take(n + 2).drop_last() == all.take(n + 1));
        assert(all.take(n + 2) == all);
        assert(v@.len() > 0 ==> named(v@).last() == (v@.last().0, v@.last().1@));
    }
    add_server(&mut v, Ipv4Addr::new(223, 5, 5, 5), "阿里 DNS".to_string());
    proof {
        assert(named(v@) == unrepeated(all.take(n + 1)));
        assert(v@.len() > 0 ==> named(v@).last() == (v@.last().0, v@.last().1@));
    }
    add_server(&mut v, Ipv4Addr::new(8, 8, 8, 8), "Google DNS".to_string());
    assert(named(v@).len() > 0);
    v
}

impl Run {
    fn take_target_samples(&mut self, q: QualityStats) -> (out: Vec<Event>)
        requires
            old(self).wf(),
            old(self).task is SampleTarget,
            q.wf(),
        ensures
            final(self).wf(),
            target_sampled(*old(self), q, *final(self), told(out@)),
    {
        let mut out = quiet();
        let mut t = "端到端 TCP 采样: ".to_string();
        t.append(fmt_quality(&q).as_str());
        emit_log(&mut out, t);
        self.session.target_quality = Some(q);
        emit_step(&mut out, 4, "检查 DNS 解析");
        self.servers = list_servers(&self.session.primary);
        self.task = Task::AskServer(0);
        out
    }

    fn take_server(&mut self, i: usize, r: DnsQueryResult) -> (out: Vec<Event>)
        requires
            old(self).wf(),
            old(self).task == Task::AskServer(i),
        ensures
            final(self).wf(),
            server_asked(*old(self), i as int, r, *final(self), told(out@)),
    {
        let mut out = quiet();
        let mut t = self.servers[i].0.to_text();
        t.append(" (");
        t.append(self.servers[i].1.as_str());
        t.append(") 解析 ");
        t.append(DNS_TEST_DOMAIN);
        if r.success {
            t.append(": 成功（");
            t.append(text::decimal(r.elapsed_ms as u128).as_str());
            t.append("ms）-> ");
            t.append(addr::join(&r.answers, ", ").as_str());
        } else {
            t.append(": 失败（");
            t.append(report::error(&r));
            t.append("）");
        }
        emit_log(&mut out, t);
        self.session.dns.push(r);
        let n = self.servers.len();
        if i + 1 < n {
            self.task = Task::AskServer(i + 1);
        } else {
            self.task = Task::AskSystem;
        }
        out
    }

    fn take_system(&mut self, r: Result<Vec<Ipv4Addr>, String>) -> (out: Vec<Event>)
        requires
            old(self).wf(),
            old(self).task is AskSystem,
        ensures
            final(self).wf(),
            system_asked(*old(self), r, *final(self), told(out@)),
    {
        let mut out = quiet();
        let mut t = "系统解析器解析 ".to_string();
        t.append(DNS_TEST_DOMAIN);
        match r {
            Ok(v) => {
                t.append(": 成功 -> ");
                t.append(addr::join(&v, ", ").as_str());
                self.session.system_dns = Some(v);
            },
            Err(e) => {
                t.append(": 失败（");
                t.append(e.as_str());
                t.append("）");
            },
        }
        emit_log(&mut out, t);
        let mut t = "逐跳链路探测（目标 ".to_string();
        t.append(self.session.target.to_text().as_str());
        t.append("，每跳 ");
        t.append(text::decimal(self.opts.count as u128).as_str());
        t.append(" 次探测）");
        emit_step(&mut out, 5, t.as_str());
        self.task = Task::Trace;
        out
    }
}

// ---- the hops ----

/// What is told of hop `i`.
pub open spec fn hop_log(hops: Seq<HopStat>, i: int) -> Seq<char> {
    let h = hops[i];
    text::padded(text::dec(h.ttl as nat), 4) + "  "@ + text::padded(trace::node_text(h), 16)
        + "  "@ + text::dec(h.received as nat) + "/"@ + text::dec(h.sent as nat) + "  "@
        + trace::loss_text(h) + "  "@ + trace::delay_text(h) + trace::note_text(hops, i)
}

/// What is told of the first `n` hops.
pub open spec fn hop_logs(out: Seq<Told>, hops: Seq<HopStat>, n: nat) -> Seq<Told>
    decreases n,
{
    if n == 0 {
        out
    } else {
        hop_logs(out, hops, (n - 1) as nat).push(Told::Log(hop_log(hops, n - 1)))
    }
}

/// What is told of all the hops.
pub open spec fn route_logs(hops: Seq<HopStat>) -> Seq<Told> {
    if hops.len() == 0 {
        quietness().push(Told::Log("未获得任何链路数据"@))
    } else {
        hop_logs(
            quietness().push(
                Told::Log("跳数  节点地址            应答/发出  丢包率   时延 平均/最小/最大 (ms)"@),
            ),
            hops,
            hops.len(),
        )
    }
}

/// What is told before a page is fetched.
pub open spec fn fetch_log(p: Endpoint) -> Told {
    Told::Log("访问 http://"@ + p.host@ + p.path@ + " ..."@)
}

/// After the hops, the first page is fetched.
pub open spec fn traced(a: Run, hops: Vec<HopStat>, b: Run, out: Seq<Told>) -> bool {
    &&& b == Run { session: Session { hops, ..a.session }, task: Task::Fetch(0), ..a }
    &&& out == route_logs(hops@).push(step(6, "检查应用层 HTTP 连通性"@)).push(
        fetch_log(a.pages@[0]),
    )
}

fn tell_hop(hops: &[HopStat], i: usize) -> (t: String)
    requires
        i < hops@.len(),
        trace::all_wf(hops@),
    ensures
        t@ == hop_log(hops@, i as int),
{
    let h = &hops[i];
    let mut t = text::pad(text::decimal(h.ttl as u128), 4);
    t.append("  ");
    t.append(text::pad(trace::node(h), 16).as_str());
    t.append("  ");
    t.append(text::decimal(h.received as u128).as_str());
    t.append("/");
    t.append(text::decimal(h.sent as u128).as_str());
    t.append("  ");
    t.append(trace::loss_percent(h).as_str());
    t.append("  ");
    t.append(trace::delay(h).as_str());
    t.append(trace::note(hops, i));
    t
}

fn tell_hops(hops: &[HopStat]) -> (out: Vec<Event>)
    requires
        trace::all_wf(hops@),
    ensures
        told(out@) == route_logs(hops@),
{
    let mut out = quiet();
    if hops.len() == 0 {
        emit_log(&mut out, "未获得任何链路数据".to_string());
        return out;
    }
    emit_log(
        &mut out,
        "跳数  节点地址            应答/发出  丢包率   时延 平均/最小/最大 (ms)".to_string(),
    );
    let ghost head = told(out@);
    let mut i: usize = 0;
    while i < hops.len()
        invariant
            i <= hops@.len(),
            trace::all_wf(hops@),
            told(out@) == hop_logs(head, hops@, i as nat),
        decreases hops.len() - i,
    {
        emit_log(&mut out, tell_hop(hops, i));
        i = i + 1;
    }
    out
}

fn tell_fetch(p: &Endpoint) -> (t: String)
    ensures
        Told::Log(t@) == fetch_log(*p),
{
    let mut t = "访问 http://".to_string();
    t.append(p.host.as_str());
    t.append(p.path.as_str());
    t.append(" ...");
    t
}

impl Run {
    fn take_hops(&mut self, hops: Vec<HopStat>) -> (out: Vec<Event>)
        requires
            old(self).wf(),
            old(self).task is Trace,
            trace::all_wf(hops@),
            trace::numbered_to(hops@, old(self).opts.max_hops),
        ensures
            final(self).wf(),
            traced(*old(self), hops, *final(self), told(out@)),
    {
        assert(listed_pages(self.pages@).len() >= 3);
        let mut out = tell_hops(hops.as_slice());
        emit_step(&mut out, 6, "检查应用层 HTTP 连通性");
        emit_log(&mut out, tell_fetch(&self.pages[0]));
        self.session.hops = hops;
        self.task = Task::Fetch(0);
        out
    }
}

// ---- the pages ----

/// What is told of a fetched page.
pub open spec fn page_logs(h: HttpResult) -> Seq<Told> {
    match h.status_code {
        Some(c) => {
            let out = quietness().push(
                Told::Log(
                    "HTTP "@ + text::dec(c as nat) + "，耗时 "@ + text::dec(h.elapsed_ms as nat)
                        + "ms"@,
                ),
            );
            if h.note@.len() > 0 {
                out.push(Told::Log("备注："@ + h.note@))
            } else {
                out
            }
        },
        None => quietness().push(Told::Log("失败："@ + h.note@)),
    }
}

/// The first page that can be fetched shows that the web works and ends the
/// fetching; where none can be, the first failure is kept.
pub open spec fn fetched(a: Run, i: int, h: HttpResult, b: Run, out: Seq<Told>) -> bool {
    let over = h.good() || i + 1 >= a.pages@.len();
    &&& b == Run {
        session: Session {
            http: if h.good() || a.session.http is None {
                Some(h)
            } else {
                a.session.http
            },
            ..a.session
        },
        task: if over {
            Task::Conclude
        } else {
            Task::Fetch((i + 1) as usize)
        },
        ..a
    }
    &&& out == if over {
        page_logs(h)
    } else {
        page_logs(h).push(fetch_log(a.pages@[i + 1]))
    }
}

fn tell_page(h: &HttpResult) -> (out: Vec<Event>)
    ensures
        told(out@) == page_logs(*h),
{
    let mut out = quiet();
    match h.status_code {
        Some(c) => {
            let mut t = "HTTP ".to_string();
            t.append(text::decimal(c as u128).as_str());
            t.append("，耗时 ");
            t.append(text::decimal(h.elapsed_ms as u128).as_str());
            t.append("ms");
            emit_log(&mut out, t);
            if !h.note.as_str().is_empty() {
                let mut t = "备注：".to_string();
                t.append(h.note.as_str());
                emit_log(&mut out, t);
            }
        },
        None => {
            let mut t = "失败：".to_string();
            t.append(h.note.as_str());
            emit_log(&mut out, t);
        },
    }
    out
}

impl Run {
    fn take_page(&mut self, i: usize, h: HttpResult) -> (out: Vec<Event>)
        requires
            old(self).wf(),
            old(self).task == Task::Fetch(i),
        ensures
            final(self).wf(),
            fetched(*old(self), i as int, h, *final(self), told(out@)),
    {
        let mut out = tell_page(&h);
        let ok = h.ok();
        if ok || self.session.http.is_none() {
            self.session.http = Some(h);
        }
        let n = self.pages.len();
        if ok || i + 1 >= n {
            self.task = Task::Conclude;
        } else {
            emit_log(&mut out, tell_fetch(&self.pages[i + 1]));
            self.task = Task::Fetch(i + 1);
        }
        out
    }
}

// ---- the whole ----

/// The diagnosis of what was measured.
pub open spec fn concluded(a: Run, b: Run, out: Seq<Told>) -> bool {
    &&& b == Run {
        session: Session { diagnosis: b.session.diagnosis, ..a.session },
        task: Task::Done,
        ..a
    }
    &&& b.session.diagnosis matches Some(d) && d@ == diagnose::opinion(evidence(a.session))
    &&& out == quietness().push(step(7, "综合分析，定位瓶颈"@))
}

/// The pings, where they could be sent, are well-formed and as many as asked for.
pub open spec fn are_pings(r: Result<PingStats, String>, count: u32) -> bool {
    r matches Ok(st) ==> st.wf() && st.sent == count
}

/// The samples are well-formed and as many as asked for.
pub open spec fn are_samples(q: QualityStats, count: u32) -> bool {
    q.wf() && q.sent == count
}

/// The answer is one to the job of the run: as many well-formed pings and samples as
/// it asked for, the server and the page that it named, and hops in order, none
/// beyond the last one that it asked for.
pub open spec fn fits(run: Run, answer: Answer) -> bool {
    match (run.task, answer) {
        (Task::ResolveTarget, Answer::Resolved(_)) => true,
        (Task::ListAdapters, Answer::Adapters(_)) => true,
        (Task::PingGateway(_), Answer::Pinged(r)) => are_pings(r, run.opts.count),
        (Task::AskGateway(_), Answer::Asked(_, _)) => true,
        (Task::SampleGateway(_), Answer::Sampled(q)) => are_samples(q, run.opts.quality_count),
        (Task::PingPublic(_), Answer::Pinged(r)) => are_pings(r, 4),
        (Task::PingTarget, Answer::Pinged(r)) => are_pings(r, run.opts.count),
        (Task::SamplePublic(_), Answer::Sampled(q)) => are_samples(q, 4),
        (Task::SampleTarget, Answer::Sampled(q)) => are_samples(q, run.opts.quality_count),
        (Task::AskServer(i), Answer::Queried(r)) => answers_for(r, run.servers@[i as int]),
        (Task::AskSystem, Answer::System(_)) => true,
        (Task::Trace, Answer::Traced(hops)) => trace::ordered(hops@) && trace::numbered_to(
            hops@,
            run.opts.max_hops,
        ),
        (Task::Fetch(i), Answer::Fetched(h)) => h.host@ == run.pages@[i as int].host@,
        _ => false,
    }
}

fn has_pings(r: &Result<PingStats, String>, count: u32) -> (b: bool)
    ensures
        b == are_pings(*r, count),
{
    match r {
        Ok(st) => st.received <= st.sent && st.sent == count,
        Err(_) => true,
    }
}

fn has_samples(q: &QualityStats, count: u32) -> (b: bool)
    ensures
        b == are_samples(*q, count),
{
    q.succeeded <= q.sent && q.sent == count
}

/// The result is that of a query to this server.
pub open spec fn answers_for(r: DnsQueryResult, server: (Ipv4Addr, String)) -> bool {
    &&& r.server == server.0
    &&& r.label@ == server.1@
    &&& r.domain@ == DNS_TEST_DOMAIN@
}

/// What an answer leads to.
pub open spec fn advanced(a: Run, answer: Answer, b: Run, out: Seq<Told>) -> bool {
    match (a.task, answer) {
        (Task::ResolveTarget, Answer::Resolved(r)) => resolved(a, r, b, out),
        (Task::ListAdapters, Answer::Adapters(v)) => listed(a, v, b, out),
        (Task::PingGateway(gw), Answer::Pinged(r)) => gateway_pinged(a, gw, r, b, out),
        (Task::AskGateway(gw), Answer::Asked(ok, mac)) => gateway_asked(a, gw, ok, mac, b, out),
        (Task::SampleGateway(_), Answer::Sampled(q)) => gateway_sampled(a, q, b, out),
        (Task::PingPublic(i), Answer::Pinged(r)) => public_pinged(a, i as int, r, b, out),
        (Task::PingTarget, Answer::Pinged(r)) => target_pinged(a, r, b, out),
        (Task::SamplePublic(i), Answer::Sampled(q)) => public_sampled(a, i as int, q, b, out),
        (Task::SampleTarget, Answer::Sampled(q)) => target_sampled(a, q, b, out),
        (Task::AskServer(i), Answer::Queried(r)) => server_asked(a, i as int, r, b, out),
        (Task::AskSystem, Answer::System(r)) => system_asked(a, r, b, out),
        (Task::Trace, Answer::Traced(hops)) => traced(a, hops, b, out),
        (Task::Fetch(i), Answer::Fetched(h)) => fetched(a, i as int, h, b, out),
        _ => a == b && out == quietness(),
    }
}

/// The job is the one that the task asks for.
pub open spec fn asks_for(run: Run, job: Job) -> bool {
    match run.task {
        Task::ResolveTarget => job matches Job::Resolve(t) && t@ == run.opts.target@,
        Task::ListAdapters => job == Job::ListAdapters,
        Task::PingGateway(gw) => job == (Job::Ping {
            addr: gw,
            count: run.opts.count,
            timeout_ms: run.opts.timeout_ms,
        }),
        Task::AskGateway(gw) => job == Job::Arp(gw),
        Task::SampleGateway(gw) => job matches Job::Sample {
            addr,
            port,
            count,
            wait_ms,
            interval_ms,
            label,
        } && addr == gw && port == 9 && count == run.opts.quality_count && wait_ms == 1200
            && interval_ms == 200 && label is Some && label->0@ == "网关段"@,
        Task::PingPublic(i) => job == (Job::Ping {
            addr: public_check(i as int).0,
            count: 4,
            timeout_ms: run.opts.timeout_ms,
        }),
        Task::PingTarget => job == (Job::Ping {
            addr: run.session.target,
            count: run.opts.count,
            timeout_ms: run.opts.timeout_ms,
        }),
        Task::SamplePublic(i) => job == (Job::Sample {
            addr: run.session.publics@[i as int].0,
            port: 53,
            count: 4,
            wait_ms: 1200,
            interval_ms: 150,
            label: None,
        }),
        Task::SampleTarget => job matches Job::Sample {
            addr,
            port,
            count,
            wait_ms,
            interval_ms,
            label,
        } && addr == run.session.target && port == 80 && count == run.opts.quality_count
            && wait_ms == 1500 && interval_ms == 200 && label is Some && label->0@ == "端到端"@,
        Task::AskServer(i) => job matches Job::Query { server, name, domain, wait_ms } && server
            == run.servers@[i as int].0 && name@ == run.servers@[i as int].1@ && domain@
            == DNS_TEST_DOMAIN@ && wait_ms == 3000,
        Task::AskSystem => job matches Job::ResolveSystem { domain, wait_ms } && domain@
            == DNS_TEST_DOMAIN@ && wait_ms == 5000,
        Task::Trace => job == (Job::Trace {
            target: run.session.target,
            count: run.opts.count,
            timeout_ms: run.opts.timeout_ms,
            max_hops: run.opts.max_hops,
        }),
        Task::Fetch(i) => job matches Job::Fetch { page, wait_ms } && page@
            == run.pages@[i as int]@ && wait_ms == 8000,
        Task::Conclude => job == Job::Conclude,
        Task::Done => job == Job::Done,
    }
}

impl Run {
    /// What is to be done next.
    pub fn job(&self) -> (j: Job)
        requires
            self.wf(),
        ensures
            asks_for(*self, j),
    {
        match self.task {
            Task::ResolveTarget => Job::Resolve(self.opts.target.clone()),
            Task::ListAdapters => Job::ListAdapters,
            Task::PingGateway(gw) => Job::Ping {
                addr: gw,
                count: self.opts.count,
                timeout_ms: self.opts.timeout_ms,
            },
            Task::AskGateway(gw) => Job::Arp(gw),
            Task::SampleGateway(gw) => Job::Sample {
                addr: gw,
                port: 9,
                count: self.opts.quality_count,
                wait_ms: 1200,
                interval_ms: 200,
                label: Some("网关段"),
            },
            Task::PingPublic(i) => Job::Ping {
                addr: check_at(i).0,
                count: 4,
                timeout_ms: self.opts.timeout_ms,
            },
            Task::PingTarget => Job::Ping {
                addr: self.session.target,
                count: self.opts.count,
                timeout_ms: self.opts.timeout_ms,
            },
            Task::SamplePublic(i) => Job::Sample {
                addr: self.session.publics[i].0,
                port: 53,
                count: 4,
                wait_ms: 1200,
                interval_ms: 150,
                label: None,
            },
            Task::SampleTarget => Job::Sample {
                addr: self.session.target,
                port: 80,
                count: self.opts.quality_count,
                wait_ms: 1500,
                interval_ms: 200,
                label: Some("端到端"),
            },
            Task::AskServer(i) => Job::Query {
                server: self.servers[i].0,
                name: self.servers[i].1.clone(),
                domain: DNS_TEST_DOMAIN,
                wait_ms: 3000,
            },
            Task::AskSystem => Job::ResolveSystem { domain: DNS_TEST_DOMAIN, wait_ms: 5000 },
            Task::Trace => Job::Trace {
                target: self.session.target,
                count: self.opts.count,
                timeout_ms: self.opts.timeout_ms,
                max_hops: self.opts.max_hops,
            },
            Task::Fetch(i) => Job::Fetch { page: self.pages[i].duplicate(), wait_ms: 8000 },
            Task::Conclude => Job::Conclude,
            Task::Done => Job::Done,
        }
    }

    /// Whether the answer is one to the present job.
    pub fn accepts(&self, answer: &Answer) -> (r: bool)
        requires
            self.wf(),
        ensures
            r == fits(*self, *answer),
    {
        match (self.task, answer) {
            (Task::ResolveTarget, Answer::Resolved(_)) => true,
            (Task::ListAdapters, Answer::Adapters(_)) => true,
            (Task::PingGateway(_), Answer::Pinged(r)) => has_pings(r, self.opts.count),
            (Task::AskGateway(_), Answer::Asked(_, _)) => true,
            (Task::SampleGateway(_), Answer::Sampled(q)) => has_samples(q, self.opts.quality_count),
            (Task::PingPublic(_), Answer::Pinged(r)) => has_pings(r, 4),
            (Task::PingTarget, Answer::Pinged(r)) => has_pings(r, self.opts.count),
            (Task::SamplePublic(_), Answer::Sampled(q)) => has_samples(q, 4),
            (Task::SampleTarget, Answer::Sampled(q)) => has_samples(q, self.opts.quality_count),
            (Task::AskServer(i), Answer::Queried(r)) => r.server == self.servers[i].0 && text::same(
                r.label.as_str(),
                self.servers[i].1.as_str(),
            ) && text::same(r.domain.as_str(), DNS_TEST_DOMAIN),
            (Task::AskSystem, Answer::System(_)) => true,
            (Task::Trace, Answer::Traced(hops)) => are_ordered_to(
                hops.as_slice(),
                self.opts.max_hops,
            ),
            (Task::Fetch(i), Answer::Fetched(h)) => text::same(
                h.host.as_str(),
                self.pages[i].host.as_str(),
            ),
            _ => false,
        }
    }

    /// Takes in the answer to the present job and moves on to the next.
    pub fn advance(&mut self, answer: Answer) -> (out: Vec<Event>)
        requires
            old(self).wf(),
            fits(*old(self), answer),
        ensures
            final(self).wf(),
            advanced(*old(self), answer, *final(self), told(out@)),
    {
        match (self.task, answer) {
            (Task::ResolveTarget, Answer::Resolved(r)) => self.take_address(r),
            (Task::ListAdapters, Answer::Adapters(v)) => self.take_adapters(v),
            (Task::PingGateway(gw), Answer::Pinged(r)) => self.take_gateway_pings(gw, r),
            (Task::AskGateway(gw), Answer::Asked(ok, mac)) => self.take_gateway_arp(gw, ok, mac),
            (Task::SampleGateway(_), Answer::Sampled(q)) => self.take_gateway_samples(q),
            (Task::PingPublic(i), Answer::Pinged(r)) => self.take_public_pings(i, r),
            (Task::PingTarget, Answer::Pinged(r)) => self.take_target_pings(r),
            (Task::SamplePublic(i), Answer::Sampled(q)) => self.take_public_samples(i, q),
            (Task::SampleTarget, Answer::Sampled(q)) => self.take_target_samples(q),
            (Task::AskServer(i), Answer::Queried(r)) => self.take_server(i, r),
            (Task::AskSystem, Answer::System(r)) => self.take_system(r),
            (Task::Trace, Answer::Traced(hops)) => self.take_hops(hops),
            (Task::Fetch(i), Answer::Fetched(h)) => self.take_page(i, h),
            _ => quiet(),
        }
    }

    /// What the diagnosis rests on.
    fn inputs(&self) -> (inp: Inputs<'_>)
        ensures
            inp@ == evidence(self.session),
    {
        let s = &self.session;
        Inputs {
            adapter: s.primary.as_ref(),
            adapters: s.adapters.as_slice(),
            gateway_addr: s.gateway_addr,
            gateway: s.gateway.as_ref(),
            gateway_arp: s.gateway_arp,
            publics: s.publics.as_slice(),
            publics_quality: s.publics_quality.as_slice(),
            gateway_quality: s.gateway_quality.as_ref(),
            target_quality: s.target_quality.as_ref(),
            target: s.target,
            target_stats: s.target_stats.as_ref(),
            dns: s.dns.as_slice(),
            dns_domain: s.dns_domain.as_str(),
            system_dns: &s.system_dns,
            hops: s.hops.as_slice(),
            http: s.http.as_ref(),
        }
    }

    /// Whether the diagnosis can be made: the hop behind the last one that answers
    /// has a number.
    pub fn can_conclude(&self) -> (r: bool)
        requires
            self.wf(),
        ensures
            r == evidence(self.session).wf(),
    {
        can_run(&self.inputs())
    }

    /// Makes the diagnosis.
    pub fn conclude(&mut self) -> (out: Vec<Event>)
        requires
            old(self).wf(),
            old(self).task is Conclude,
            evidence(old(self).session).wf(),
        ensures
            final(self).wf(),
            concluded(*old(self), *final(self), told(out@)),
    {
        let mut out = quiet();
        emit_step(&mut out, 7, "综合分析，定位瓶颈");
        let d = diagnose::run(&self.inputs());
        self.session.diagnosis = Some(d);
        self.task = Task::Done;
        out
    }
}

// ---- laws ----

/// The step that a task belongs to.
pub open spec fn step_of(task: Task) -> nat {
    match task {
        Task::ResolveTarget => 0,
        Task::ListAdapters => 1,
        Task::PingGateway(_) | Task::AskGateway(_) | Task::SampleGateway(_) => 2,
        Task::PingPublic(_) | Task::PingTarget | Task::SamplePublic(_) | Task::SampleTarget => 3,
        Task::AskServer(_) | Task::AskSystem => 4,
        Task::Trace => 5,
        Task::Fetch(_) | Task::Conclude => 6,
        Task::Done => 7,
    }
}

/// The numbers of the steps that are announced.
pub open spec fn steps(out: Seq<Told>) -> Seq<nat>
    decreases out.len(),
{
    if out.len() == 0 {
        Seq::empty()
    } else {
        match out.last() {
            Told::Step(n, _, _) => steps(out.drop_last()).push(n),
            Told::Log(_) => steps(out.drop_last()),
        }
    }
}

/// The steps behind `from` up to `to`.
pub open spec fn steps_between(from: nat, to: nat) -> Seq<nat> {
    Seq::new((to - from) as nat, |i: int| (from + 1 + i) as nat)
}

proof fn lemma_steps_push(out: Seq<Told>, t: Told)
    ensures
        steps(out.push(t)) == match t {
            Told::Step(n, _, _) => steps(out).push(n),
            Told::Log(_) => steps(out),
        },
{
    assert(out.push(t).drop_last() == out);
}

proof fn lemma_no_steps_in_adapter_logs(v: Seq<AdapterInfo>)
    ensures
        steps(adapter_logs(v)) == Seq::<nat>::empty(),
    decreases v.len(),
{
    if v.len() > 0 {
        lemma_no_steps_in_adapter_logs(v.drop_last());
        lemma_steps_push(
            adapter_logs(v.drop_last()),
            Told::Log(adapter_log(v.last()@)),
        );
    }
}

proof fn lemma_no_steps_in_hop_logs(out: Seq<Told>, hops: Seq<HopStat>, n: nat)
    ensures
        steps(hop_logs(out, hops, n)) == steps(out),
    decreases n,
{
    if n > 0 {
        lemma_no_steps_in_hop_logs(out, hops, (n - 1) as nat);
        lemma_steps_push(
            hop_logs(out, hops, (n - 1) as nat),
            Told::Log(hop_log(hops, n - 1)),
        );
    }
}

/// The steps are announced in order, each of them once: an answer announces the
/// steps that lie between the task that it answers and the next one.
pub proof fn law_steps_in_order(a: Run, answer: Answer, b: Run, out: Seq<Told>)
    requires
        fits(a, answer),
        advanced(a, answer, b, out),
    ensures
        step_of(a.task) <= step_of(b.task),
        steps(out) == steps_between(step_of(a.task), step_of(b.task)),
{
    assert(steps(quietness()) == Seq::<nat>::empty());
    assert forall|v: Seq<Told>, t: Told| #[trigger] steps(v.push(t)) == match t {
        Told::Step(n, _, _) => steps(v).push(n),
        Told::Log(_) => steps(v),
    } by {
        lemma_steps_push(v, t);
    }
    match answer {
        Answer::Adapters(v) => {
            lemma_no_steps_in_adapter_logs(v@);
        },
        Answer::Traced(hops) => {
            lemma_no_steps_in_hop_logs(
                quietness().push(
                    Told::Log("跳数  节点地址            应答/发出  丢包率   时延 平均/最小/最大 (ms)"@),
                ),
                hops@,
                hops@.len(),
            );
        },
        _ => {},
    }
    assert(steps(out) =~= steps_between(step_of(a.task), step_of(b.task)));
}

/// A run starts before or in its first step and ends with its last one.
pub proof fn law_first_and_last_step(opts: RunOpts, time: String, a: Run, b: Run, out: Seq<Told>)
    ensures
        started(opts, time, b, out) ==> steps(out) == steps_between(0, step_of(b.task)),
        concluded(a, b, out) && a.task is Conclude ==> {
            &&& steps(out) == steps_between(step_of(a.task), step_of(b.task))
            &&& step_of(b.task) == TOTAL_STEPS
        },
{
    assert(steps(quietness()) == Seq::<nat>::empty());
    if out.len() > 0 {
        lemma_steps_push(quietness(), out.last());
    }
    if started(opts, time, b, out) {
        assert(steps(out) =~= steps_between(0, step_of(b.task)));
    }
    if concluded(a, b, out) && a.task is Conclude {
        assert(steps(out) =~= steps_between(step_of(a.task), step_of(b.task)));
    }
}

/// A course: each answer leads from one run to the next, telling something.
pub open spec fn course(runs: Seq<Run>, answers: Seq<Answer>, outs: Seq<Seq<Told>>) -> bool {
    &&& runs.len() == answers.len() + 1
    &&& outs.len() == answers.len()
    &&& forall|i: int|
        #![trigger answers[i]]
        0 <= i < answers.len() ==> fits(runs[i], answers[i]) && advanced(
            runs[i],
            answers[i],
            runs[i + 1],
            outs[i],
        )
}

/// All the steps that are announced on the way.
pub open spec fn all_steps(outs: Seq<Seq<Told>>) -> Seq<nat>
    decreases outs.len(),
{
    if outs.len() == 0 {
        Seq::empty()
    } else {
        all_steps(outs.drop_last()) + steps(outs.last())
    }
}

/// However a course goes, it announces the steps between its first task and its
/// last one in order, each of them once.
pub proof fn law_course_announces_each_step_once(
    runs: Seq<Run>,
    answers: Seq<Answer>,
    outs: Seq<Seq<Told>>,
)
    requires
        course(runs, answers, outs),
    ensures
        step_of(runs[0].task) <= step_of(runs.last().task),
        all_steps(outs) == steps_between(step_of(runs[0].task), step_of(runs.last().task)),
    decreases answers.len(),
{
    if answers.len() == 0 {
        assert(all_steps(outs) =~= steps_between(
            step_of(runs[0].task),
            step_of(runs.last().task),
        ));
    } else {
        let n = answers.len() - 1;
        let (r, a, o) = (runs.drop_last(), answers.drop_last(), outs.drop_last());
        assert forall|i: int| #![trigger a[i]] 0 <= i < a.len() implies fits(r[i], a[i])
            && advanced(r[i], a[i], r[i + 1], o[i]) by {
            assert(a[i] == answers[i]);
        }
        law_course_announces_each_step_once(r, a, o);
        assert(answers[n] == answers.last());
        law_steps_in_order(runs[n], answers[n], runs[n + 1], outs[n]);
        assert(all_steps(outs) =~= steps_between(
            step_of(runs[0].task),
            step_of(runs.last().task),
        ));
    }
}

/// The place of a task in the course of a run.
pub open spec fn phase(task: Task) -> nat {
    match task {
        Task::ResolveTarget => 0,
        Task::ListAdapters => 1,
        Task::PingGateway(_) => 2,
        Task::AskGateway(_) => 3,
        Task::SampleGateway(_) => 4,
        Task::PingPublic(_) => 5,
        Task::PingTarget => 6,
        Task::SamplePublic(_) => 7,
        Task::SampleTarget => 8,
        Task::AskServer(_) => 9,
        Task::AskSystem => 10,
        Task::Trace => 11,
        Task::Fetch(_) => 12,
        Task::Conclude => 13,
        Task::Done => 14,
    }
}

/// The place of a task among those of its kind.
pub open spec fn index(task: Task) -> nat {
    match task {
        Task::PingPublic(i) | Task::SamplePublic(i) | Task::AskServer(i) | Task::Fetch(i) => {
            i as nat
        },
        _ => 0,
    }
}

proof fn lemma_silent_from(publics: Seq<(Ipv4Addr, &'static str, PingStats)>, i: int)
    requires
        0 <= i,
    ensures
        silent_from(publics, i) matches Some(k) ==> i <= k < publics.len(),
    decreases publics.len() - i,
{
    if i < publics.len() && publics[i].2.received != 0 {
        lemma_silent_from(publics, i + 1);
    }
}

/// A run goes on and on: no task comes twice, and none comes back once a later one
/// was reached. What a task of several is counted by, the public addresses, the
/// servers and the pages, stays as it is; so every run comes to its end.
pub proof fn law_tasks_in_order(a: Run, answer: Answer, b: Run, out: Seq<Told>)
    requires
        a.wf(),
        fits(a, answer),
        advanced(a, answer, b, out),
    ensures
        phase(a.task) < phase(b.task) || phase(a.task) == phase(b.task) && index(a.task) < index(
            b.task,
        ),
        phase(a.task) == phase(b.task) ==> match b.task {
            Task::PingPublic(i) => i < PUBLIC_COUNT,
            Task::SamplePublic(i) => i < a.session.publics@.len() && b.session.publics@
                == a.session.publics@,
            Task::AskServer(i) => i < a.servers@.len() && b.servers@ == a.servers@,
            Task::Fetch(i) => i < a.pages@.len() && b.pages@ == a.pages@,
            _ => false,
        },
{
    lemma_silent_from(b.session.publics@, 0);
    if let Task::SamplePublic(i) = a.task {
        lemma_silent_from(a.session.publics@, i + 1);
    }
    assert(a.servers.len() == a.servers@.len());
    assert(a.pages.len() == a.pages@.len());
}

/// The public addresses that answered no ping, in order.
pub open spec fn silent_addresses(publics: Seq<(Ipv4Addr, &'static str, PingStats)>) -> Seq<
    Ipv4Addr,
>
    decreases publics.len(),
{
    if publics.len() == 0 {
        Seq::empty()
    } else if publics.last().2.received == 0 {
        silent_addresses(publics.drop_last()).push(publics.last().0)
    } else {
        silent_addresses(publics.drop_last())
    }
}

/// The addresses of the samples, in order.
pub open spec fn sampled_addresses(samples: Seq<(Ipv4Addr, QualityStats)>) -> Seq<Ipv4Addr> {
    samples.map_values(|p: (Ipv4Addr, QualityStats)| p.0)
}

/// The results are those of the first of the servers, in order.
pub open spec fn asked_in_order(
    dns: Seq<DnsQueryResult>,
    servers: Seq<(Ipv4Addr, String)>,
) -> bool {
    &&& dns.len() <= servers.len()
    &&& forall|k: int| 0 <= k < dns.len() ==> answers_for(#[trigger] dns[k], servers[k])
}

/// The counts of pings and samples are those that the options ask for.
pub open spec fn counts_kept(s: Session, opts: RunOpts) -> bool {
    &&& s.gateway matches Some(st) ==> st.sent == opts.count
    &&& s.gateway_quality matches Some(q) ==> q.sent == opts.quality_count
    &&& s.target_quality matches Some(q) ==> q.sent == opts.quality_count
    &&& forall|k: int| 0 <= k < s.publics@.len() ==> (#[trigger] s.publics@[k]).2.sent == 4
    &&& forall|k: int|
        0 <= k < s.publics_quality@.len() ==> (#[trigger] s.publics_quality@[k]).1.sent == 4
}

/// What the measurements of a run have to do with each other, once all is measured.
pub open spec fn settled(run: Run) -> bool {
    let s = run.session;
    &&& s.gateway_addr == gateway_of(s.primary)
    &&& s.gateway_arp is Some <==> s.gateway_addr is Some
    &&& s.gateway_quality is Some <==> gateway_silent(s)
    &&& sampled_addresses(s.publics_quality@) == silent_addresses(s.publics@)
    &&& s.target_quality is Some
    &&& counts_kept(s, run.opts)
    &&& named(run.servers@) == unrepeated(all_servers(s.primary))
    &&& s.dns@.len() == run.servers@.len()
    &&& asked_in_order(s.dns@, run.servers@)
    &&& trace::ordered(s.hops@)
    &&& trace::numbered_to(s.hops@, run.opts.max_hops)
}

/// The same, as far as the run has come.
spec fn on_its_way(run: Run) -> bool {
    let s = run.session;
    let p = phase(run.task);
    &&& counts_kept(s, run.opts)
    &&& if p <= 1 {
        s.gateway_addr is None && s.primary is None
    } else {
        s.gateway_addr == gateway_of(s.primary)
    }
    &&& p <= 2 ==> s.gateway is None
    &&& 2 <= p <= 4 ==> s.gateway_addr is Some
    &&& s.gateway is Some ==> s.gateway_addr is Some
    &&& p <= 3 ==> s.gateway_arp is None
    &&& p >= 4 ==> (s.gateway_arp is Some <==> s.gateway_addr is Some)
    &&& p <= 4 ==> s.gateway_quality is None
    &&& p == 4 ==> gateway_silent(s)
    &&& p >= 5 ==> (s.gateway_quality is Some <==> gateway_silent(s))
    &&& p <= 6 ==> s.publics_quality@.len() == 0
    &&& run.task matches Task::SamplePublic(i) ==> {
        &&& i < s.publics@.len()
        &&& s.publics@[i as int].2.received == 0
        &&& sampled_addresses(s.publics_quality@) == silent_addresses(s.publics@.take(i as int))
    }
    &&& p >= 8 ==> sampled_addresses(s.publics_quality@) == silent_addresses(s.publics@)
    &&& p >= 9 ==> {
        &&& s.target_quality is Some
        &&& named(run.servers@) == unrepeated(all_servers(s.primary))
        &&& asked_in_order(s.dns@, run.servers@)
    }
    &&& p <= 8 ==> s.dns@.len() == 0
    &&& run.task matches Task::AskServer(i) ==> s.dns@.len() == i && i < run.servers@.len()
    &&& p >= 10 ==> s.dns@.len() == run.servers@.len()
    &&& p <= 11 ==> s.hops@.len() == 0
    &&& trace::ordered(s.hops@)
    &&& trace::numbered_to(s.hops@, run.opts.max_hops)
}

/// Between `from` and the next silent public address none is silent.
proof fn lemma_silent_addresses(publics: Seq<(Ipv4Addr, &'static str, PingStats)>, from: int)
    requires
        0 <= from <= publics.len(),
    ensures
        match silent_from(publics, from) {
            Some(k) => {
                &&& from <= k < publics.len()
                &&& publics[k].2.received == 0
                &&& silent_addresses(publics.take(k)) == silent_addresses(publics.take(from))
            },
            None => silent_addresses(publics) == silent_addresses(publics.take(from)),
        },
    decreases publics.len() - from,
{
    if from < publics.len() && publics[from].2.received != 0 {
        lemma_silent_addresses(publics, from + 1);
        let t = publics.take(from + 1);
        assert(t.drop_last() == publics.take(from));
        assert(t.last() == publics[from]);
    } else if from == publics.len() {
        assert(publics.take(from) == publics);
    }
}

/// What holds of a run on its way holds behind the next answer.
proof fn lemma_stays_on_its_way(a: Run, answer: Answer, b: Run, out: Seq<Told>)
    requires
        on_its_way(a),
        fits(a, answer),
        advanced(a, answer, b, out),
    ensures
        on_its_way(b),
{
    let (s, t) = (a.session, b.session);
    assert(t.publics.len() == t.publics@.len());
    assert(a.servers.len() == a.servers@.len());
    lemma_silent_addresses(t.publics@, 0);
    assert(silent_addresses(t.publics@.take(0)) == Seq::<Ipv4Addr>::empty());
    if let Task::SamplePublic(i) = a.task {
        let k = i + 1;
        let u = s.publics@.take(k);
        assert(u.drop_last() == s.publics@.take(i as int));
        assert(u.last() == s.publics@[i as int]);
        assert(sampled_addresses(t.publics_quality@) == sampled_addresses(s.publics_quality@).push(
            s.publics@[i as int].0,
        ));
        lemma_silent_addresses(s.publics@, k);
    }
    if let Task::PingPublic(i) = a.task {
        assert forall|k: int| 0 <= k < t.publics@.len() implies (#[trigger] t.publics@[k]).2.sent
            == 4 by {
            if t.publics@.len() == s.publics@.len() + 1 {
                if k < s.publics@.len() {
                    assert(t.publics@.drop_last()[k] == t.publics@[k]);
                    assert(s.publics@[k].2.sent == 4);
                }
            } else {
                assert(s.publics@[k].2.sent == 4);
            }
        }
        assert(sampled_addresses(t.publics_quality@) == Seq::<Ipv4Addr>::empty());
    }
    if a.task is PingTarget {
        assert(sampled_addresses(t.publics_quality@) == Seq::<Ipv4Addr>::empty());
    }
    if a.task is SampleTarget {
        law_servers_unrepeated(all_servers(s.primary));
        assert(named(b.servers@).len() > 0);
    }
}

/// However the measurements come out, those of a run belong together. The gateway is
/// the first one of the adapter in use; it is asked for on the link layer exactly
/// where there is one, and its connections are sampled exactly where it was pinged
/// and answered nothing. The public addresses that are sampled are exactly those
/// that answered no ping, in order. Every DNS server is asked once, in order. Pings
/// and samples are as many as asked for.
pub proof fn law_measurements_belong_together(
    opts: RunOpts,
    time: String,
    first: Seq<Told>,
    runs: Seq<Run>,
    answers: Seq<Answer>,
    outs: Seq<Seq<Told>>,
)
    requires
        course(runs, answers, outs),
        started(opts, time, runs[0], first),
    ensures
        runs.last().task is Conclude ==> settled(runs.last()),
        forall|b: Run, out: Seq<Told>|
            runs.last().task is Conclude && #[trigger] concluded(runs.last(), b, out) ==> settled(b),
{
    lemma_course_on_its_way(opts, time, first, runs, answers, outs);
}

proof fn lemma_course_on_its_way(
    opts: RunOpts,
    time: String,
    first: Seq<Told>,
    runs: Seq<Run>,
    answers: Seq<Answer>,
    outs: Seq<Seq<Told>>,
)
    requires
        course(runs, answers, outs),
        started(opts, time, runs[0], first),
    ensures
        on_its_way(runs.last()),
    decreases answers.len(),
{
    if answers.len() > 0 {
        let n = answers.len() - 1;
        let (r, a, o) = (runs.drop_last(), answers.drop_last(), outs.drop_last());
        assert forall|i: int| #![trigger a[i]] 0 <= i < a.len() implies fits(r[i], a[i])
            && advanced(r[i], a[i], r[i + 1], o[i]) by {
            assert(a[i] == answers[i]);
        }
        lemma_course_on_its_way(opts, time, first, r, a, o);
        assert(answers[n] == answers.last());
        lemma_stays_on_its_way(runs[n], answers[n], runs[n + 1], outs[n]);
    }
}

/// A run of at most 254 hops always comes to its diagnosis: once all is measured,
/// it can be made. With 255 hops the last one may answer, and the hop behind it has
/// no number.
pub proof fn law_diagnosis_can_be_made(run: Run)
    requires
        run.wf(),
        run.task is Conclude,
        run.opts.max_hops <= 254,
    ensures
        evidence(run.session).wf(),
{
    route::law_break_behind_last_answer(run.session.hops@);
}

/// Any page that can be fetched shows that the web works: the page that is kept for
/// the diagnosis is a good one exactly where the last one fetched is, and a good
/// one ends the fetching.
pub proof fn law_any_page_will_do(a: Run, h: HttpResult, b: Run, out: Seq<Told>)
    requires
        a.wf(),
        a.task is Fetch,
        advanced(a, Answer::Fetched(h), b, out),
    ensures
        b.session.http is Some,
        b.session.http->0.good() <==> h.good(),
        h.good() ==> b.task is Conclude && b.session.http == Some(h),
        !h.good() && b.task is Conclude ==> index(a.task) + 1 == a.pages@.len(),
{
}

/// No DNS server is asked twice in a row, and none that is there is left out.
pub proof fn law_servers_unrepeated(v: Seq<(Ipv4Addr, Seq<char>)>)
    ensures
        forall|i: int|
            0 < i < unrepeated(v).len() ==> (#[trigger] unrepeated(v)[i]).0 != unrepeated(v)[i
                - 1].0,
        forall|i: int|
            0 <= i < v.len() ==> exists|j: int|
                0 <= j < unrepeated(v).len() && (#[trigger] unrepeated(v)[j]).0 == (
                #[trigger] v[i]).0,
        v.len() > 0 ==> unrepeated(v).len() > 0 && unrepeated(v).last().0 == v.last().0,
    decreases v.len(),
{
    if v.len() > 0 {
        let init = v.drop_last();
        law_servers_unrepeated(init);
        let u = unrepeated(init);
        let w = unrepeated(v);
        assert forall|i: int| 0 <= i < v.len() implies exists|j: int|
            0 <= j < w.len() && (#[trigger] w[j]).0 == (#[trigger] v[i]).0 by {
            if i < init.len() {
                assert(init[i] == v[i]);
                let j = choose|j: int| 0 <= j < u.len() && (#[trigger] u[j]).0 == init[i].0;
                assert(w[j] == u[j]);
            } else {
                assert(w[w.len() - 1].0 == v[i].0);
            }
        }
        assert forall|i: int| 0 < i < w.len() implies (#[trigger] w[i]).0 != w[i - 1].0 by {
            if i < u.len() {
                assert(w[i] == u[i] && w[i - 1] == u[i - 1]);
            }
        }
    }
}

/// Each answer is kept where it belongs: the address of the target, or the default one
/// where it has none; the adapters with the one in use and its first gateway; what the
/// pings, samples, queries, hops and pages came to. Pings that could not be sent leave
/// no trace, and neither does a resolver that failed.
#[verifier::rlimit(40)]
pub proof fn law_answers_are_kept(a: Run, answer: Answer, b: Run, out: Seq<Told>)
    requires
        a.wf(),
        fits(a, answer),
        advanced(a, answer, b, out),
    ensures
        a.task is ResolveTarget ==> match answer->Resolved_0 {
            Some(x) => b.session.target == x,
            None => b.session.target == (Ipv4Addr { a: 223, b: 5, c: 5, d: 5 }),
        },
        a.task is ListAdapters ==> {
            let v = answer->Adapters_0;
            &&& b.session.adapters == v
            &&& match env::primary(v@) {
                Some(k) => b.session.primary is Some && b.session.primary->0@ == v@[k]@,
                None => b.session.primary is None,
            }
            &&& b.session.gateway_addr is Some <==> b.session.primary is Some
                && b.session.primary->0.gateways@.len() > 0
            &&& b.session.gateway_addr matches Some(gw) ==> gw == b.session.primary->0.gateways@[0]
        },
        a.task is PingGateway ==> match answer->Pinged_0 {
            Ok(st) => b.session.gateway == Some(st),
            Err(_) => b.session.gateway == a.session.gateway,
        },
        a.task is AskGateway ==> b.session.gateway_arp == Some(answer->Asked_0),
        a.task is SampleGateway ==> b.session.gateway_quality == Some(answer->Sampled_0),
        a.task matches Task::PingPublic(i) ==> match answer->Pinged_0 {
            Ok(st) => {
                let v = b.session.publics@;
                &&& v.len() == a.session.publics@.len() + 1
                &&& v.take(v.len() - 1) == a.session.publics@
                &&& v[v.len() - 1].2 == st
                &&& i == 0 ==> v[v.len() - 1].0 == (Ipv4Addr { a: 223, b: 5, c: 5, d: 5 })
                    && v[v.len() - 1].1@ == "阿里 DNS"@
                &&& i == 1 ==> v[v.len() - 1].0 == (Ipv4Addr { a: 119, b: 29, c: 29, d: 29 })
                    && v[v.len() - 1].1@ == "DNSPod"@
                &&& i == 2 ==> v[v.len() - 1].0 == (Ipv4Addr { a: 8, b: 8, c: 8, d: 8 })
                    && v[v.len() - 1].1@ == "Google DNS"@
            },
            Err(_) => b.session.publics@ == a.session.publics@,
        },
        a.task is PingTarget ==> match answer->Pinged_0 {
            Ok(st) => b.session.target_stats == Some(st),
            Err(_) => b.session.target_stats is None,
        },
        a.task matches Task::SamplePublic(i) ==> b.session.publics_quality@
            == a.session.publics_quality@ + seq![
            (a.session.publics@[i as int].0, answer->Sampled_0),
        ],
        a.task is SampleTarget ==> b.session.target_quality == Some(answer->Sampled_0),
        a.task is AskServer ==> b.session.dns@ == a.session.dns@ + seq![answer->Queried_0],
        a.task is AskSystem ==> match answer->System_0 {
            Ok(v) => b.session.system_dns == Some(v),
            Err(_) => b.session.system_dns == a.session.system_dns,
        },
        a.task is Trace ==> b.session.hops == answer->Traced_0,
        a.task is Fetch ==> {
            let h = answer->Fetched_0;
            let good = h.status_code is Some && 200 <= h.status_code->0 <= 399;
            &&& good || a.session.http is None ==> b.session.http == Some(h)
            &&& !good && a.session.http is Some ==> b.session.http == a.session.http
        },
{
    if let Task::PingPublic(i) = a.task {
        if answer->Pinged_0 is Ok {
            let v = b.session.publics@;
            assert(v.take(v.len() - 1) =~= v.drop_last());
        }
    }
    if let Task::SamplePublic(i) = a.task {
        assert(b.session.publics_quality@ =~= a.session.publics_quality@ + seq![
            (a.session.publics@[i as int].0, answer->Sampled_0),
        ]);
    }
    if a.task is AskServer {
        assert(b.session.dns@ =~= a.session.dns@ + seq![answer->Queried_0]);
    }
}

/// An answer changes nothing but what it is about. The options, the pages and what the
/// run started from stay as they are throughout.
#[verifier::rlimit(40)]
pub proof fn law_nothing_else_changes(a: Run, answer: Answer, b: Run, out: Seq<Told>)
    requires
        a.wf(),
        fits(a, answer),
        advanced(a, answer, b, out),
    ensures
        b.opts == a.opts && b.pages == a.pages,
        b.session.time == a.session.time && b.session.target_input == a.session.target_input,
        b.session.count == a.session.count && b.session.timeout_ms == a.session.timeout_ms,
        b.session.quality_count == a.session.quality_count,
        b.session.dns_domain == a.session.dns_domain,
        b.session.diagnosis == a.session.diagnosis,
        !(a.task is ResolveTarget) ==> b.session.target == a.session.target,
        !(a.task is ListAdapters) ==> b.session.adapters == a.session.adapters && b.session.primary
            == a.session.primary && b.session.gateway_addr == a.session.gateway_addr,
        !(a.task is PingGateway) ==> b.session.gateway == a.session.gateway,
        !(a.task is AskGateway) ==> b.session.gateway_arp == a.session.gateway_arp,
        !(a.task is SampleGateway) ==> b.session.gateway_quality == a.session.gateway_quality,
        !(a.task is PingPublic) ==> b.session.publics@ == a.session.publics@,
        !(a.task is SamplePublic) ==> b.session.publics_quality@ == a.session.publics_quality@,
        !(a.task is PingTarget || a.task == Task::PingPublic(2)) ==> b.session.target_stats
            == a.session.target_stats,
        !(a.task is SampleTarget) ==> b.session.target_quality == a.session.target_quality
            && b.servers@ == a.servers@,
        !(a.task is AskServer) ==> b.session.dns@ == a.session.dns@,
        !(a.task is AskSystem) ==> b.session.system_dns == a.session.system_dns,
        !(a.task is Trace) ==> b.session.hops == a.session.hops,
        !(a.task is Fetch) ==> b.session.http == a.session.http,
{
}

proof fn lemma_pings_of(
    publics: Seq<(Ipv4Addr, &'static str, PingStats)>,
    i: int,
    target: Ipv4Addr,
)
    requires
        0 <= i <= publics.len(),
    ensures
        match pings_of(publics, i, target) {
            Some(st) => exists|k: int|
                #![trigger publics[k]]
                i <= k < publics.len() && publics[k].0 == target && publics[k].2 == st && forall|
                    j: int,
                |
                    i <= j < k ==> (#[trigger] publics[j]).0 != target,
            None => forall|k: int| i <= k < publics.len() ==> (#[trigger] publics[k]).0 != target,
        },
    decreases publics.len() - i,
{
    if i < publics.len() && publics[i].0 != target {
        lemma_pings_of(publics, i + 1, target);
        if let Some(st) = pings_of(publics, i + 1, target) {
            let k = choose|k: int|
                #![trigger publics[k]]
                i + 1 <= k < publics.len() && publics[k].0 == target && publics[k].2 == st
                    && forall|j: int| i + 1 <= j < k ==> (#[trigger] publics[j]).0 != target;
            assert(publics[k].0 == target && publics[k].2 == st);
        }
    }
}

proof fn lemma_next_silent(publics: Seq<(Ipv4Addr, &'static str, PingStats)>, i: int)
    requires
        0 <= i <= publics.len(),
    ensures
        match silent_from(publics, i) {
            Some(k) => i <= k < publics.len() && publics[k].2.received == 0 && forall|j: int|
                i <= j < k ==> (#[trigger] publics[j]).2.received > 0,
            None => forall|j: int| i <= j < publics.len() ==> (#[trigger] publics[j]).2.received
                > 0,
        },
    decreases publics.len() - i,
{
    if i < publics.len() && publics[i].2.received > 0 {
        lemma_next_silent(publics, i + 1);
    }
}

/// The sampling goes on behind public address `from`: with the next one that answered no
/// ping or, where there is none, with the target.
pub open spec fn samples_next(
    publics: Seq<(Ipv4Addr, &'static str, PingStats)>,
    from: int,
    task: Task,
) -> bool {
    match task {
        Task::SamplePublic(k) => {
            &&& from <= k < publics.len()
            &&& publics[k as int].2.received == 0
            &&& forall|j: int| from <= j < k ==> (#[trigger] publics[j]).2.received > 0
        },
        Task::SampleTarget => forall|j: int|
            from <= j < publics.len() ==> (#[trigger] publics[j]).2.received > 0,
        _ => false,
    }
}

/// What follows an answer. The gateway is pinged where there is one, then asked for on
/// the link layer; its connections are sampled exactly where its pings were sent and
/// none came back. Then the public addresses are pinged in turn and, unless it is one of
/// them, the target, whose pings are else those of the public address. Then the public
/// addresses that answered no ping are sampled, and the target. Then every DNS server
/// is asked, the resolver, the hops, and page after page until one comes.
#[verifier::rlimit(40)]
pub proof fn law_what_follows_an_answer(a: Run, answer: Answer, b: Run, out: Seq<Told>)
    requires
        a.wf(),
        fits(a, answer),
        advanced(a, answer, b, out),
    ensures
        a.task is ResolveTarget ==> b.task == Task::ListAdapters,
        a.task is ListAdapters ==> match b.session.gateway_addr {
            Some(gw) => b.task == Task::PingGateway(gw),
            None => b.task == Task::PingPublic(0),
        },
        a.task matches Task::PingGateway(gw) ==> b.task == Task::AskGateway(gw),
        a.task matches Task::AskGateway(gw) ==> b.task == if a.session.gateway is Some
            && a.session.gateway->0.received == 0 {
            Task::SampleGateway(gw)
        } else {
            Task::PingPublic(0)
        },
        a.task is SampleGateway ==> b.task == Task::PingPublic(0),
        a.task == Task::PingPublic(0) ==> b.task == Task::PingPublic(1),
        a.task == Task::PingPublic(1) ==> b.task == Task::PingPublic(2),
        a.task == Task::PingPublic(2) ==> {
            let v = b.session.publics@;
            if exists|k: int| 0 <= k < v.len() && (#[trigger] v[k]).0 == a.session.target {
                &&& samples_next(v, 0, b.task)
                &&& b.session.target_stats is Some
                &&& exists|k: int|
                    0 <= k < v.len() && (#[trigger] v[k]).0 == a.session.target && v[k].2
                        == b.session.target_stats->0
            } else {
                b.task == Task::PingTarget
            }
        },
        a.task is PingTarget ==> samples_next(a.session.publics@, 0, b.task),
        a.task matches Task::SamplePublic(i) ==> samples_next(a.session.publics@, i + 1, b.task),
        a.task is SampleTarget ==> b.task == Task::AskServer(0),
        a.task matches Task::AskServer(i) ==> b.task == if i + 1 < a.servers@.len() {
            Task::AskServer((i + 1) as usize)
        } else {
            Task::AskSystem
        },
        a.task is AskSystem ==> b.task == Task::Trace,
        a.task is Trace ==> b.task == Task::Fetch(0),
        a.task matches Task::Fetch(i) ==> {
            let h = answer->Fetched_0;
            let good = h.status_code is Some && 200 <= h.status_code->0 <= 399;
            b.task == if good || i + 1 == a.pages@.len() {
                Task::Conclude
            } else {
                Task::Fetch((i + 1) as usize)
            }
        },
{
    lemma_pings_of(b.session.publics@, 0, a.session.target);
    lemma_next_silent(b.session.publics@, 0);
    lemma_next_silent(a.session.publics@, 0);
    assert(b.session.publics.len() == b.session.publics@.len());
    if let Task::SamplePublic(i) = a.task {
        lemma_next_silent(a.session.publics@, i + 1);
    }
}

/// What the jobs are: the target is resolved by its name; pings are as many and wait as
/// long as asked for, those of public addresses are four; connections are sampled on
/// the discard port of the gateway, the DNS port of public addresses and the web port
/// of the target; servers and the resolver are asked for the test domain; the hops are
/// those to the target, with as many probes as asked for and no more hops.
#[verifier::rlimit(40)]
pub proof fn law_jobs_of_a_run(run: &Run, job: Job)
    requires
        call_ensures(Run::job, (run,), job),
    ensures
        run.task is ResolveTarget ==> job is Resolve && job->Resolve_0@ == run.opts.target@,
        run.task is ListAdapters ==> job is ListAdapters,
        job matches Job::Ping { addr, count, timeout_ms } ==> {
            &&& timeout_ms == run.opts.timeout_ms
            &&& run.task is PingPublic ==> count == 4
            &&& !(run.task is PingPublic) ==> count == run.opts.count
            &&& match run.task {
                Task::PingGateway(gw) => addr == gw,
                Task::PingTarget => addr == run.session.target,
                Task::PingPublic(i) => addr == if i == 0 {
                    Ipv4Addr { a: 223, b: 5, c: 5, d: 5 }
                } else if i == 1 {
                    Ipv4Addr { a: 119, b: 29, c: 29, d: 29 }
                } else {
                    Ipv4Addr { a: 8, b: 8, c: 8, d: 8 }
                },
                _ => false,
            }
        },
        run.task is PingGateway || run.task is PingTarget || run.task is PingPublic <==> job
            is Ping,
        run.task matches Task::AskGateway(gw) ==> job == Job::Arp(gw),
        run.task is SampleGateway || run.task is SampleTarget || run.task is SamplePublic <==> job
            is Sample,
        job matches Job::Sample { addr, port, count, wait_ms, interval_ms, label } ==> {
            match run.task {
                Task::SampleGateway(gw) => addr == gw && port == 9 && count
                    == run.opts.quality_count && wait_ms == 1200 && interval_ms == 200,
                Task::SamplePublic(i) => addr == run.session.publics@[i as int].0 && port == 53
                    && count == 4 && wait_ms == 1200 && interval_ms == 150,
                _ => addr == run.session.target && port == 80 && count == run.opts.quality_count
                    && wait_ms == 1500 && interval_ms == 200,
            }
        },
        run.task matches Task::AskServer(i) ==> (job matches Job::Query {
            server,
            name,
            domain,
            wait_ms,
        } && server == run.servers@[i as int].0 && name@ == run.servers@[i as int].1@ && domain@
            == "www.baidu.com"@ && wait_ms == 3000),
        run.task is AskSystem ==> (job matches Job::ResolveSystem { domain, wait_ms } && domain@
            == "www.baidu.com"@ && wait_ms == 5000),
        run.task is Trace ==> (job matches Job::Trace { target, count, timeout_ms, max_hops }
            && target == run.session.target && count == run.opts.count && timeout_ms
            == run.opts.timeout_ms && max_hops == run.opts.max_hops),
        run.task matches Task::Fetch(i) ==> (job matches Job::Fetch { page, wait_ms } && page.host@
            == run.pages@[i as int].host@ && page.path@ == run.pages@[i as int].path@
            && page.expect@ == run.pages@[i as int].expect@ && wait_ms == 8000),
        run.task is Conclude ==> job is Conclude,
        run.task is Done ==> job is Done,
{
}

/// The DNS servers to ask are those of the adapter in use, in their order, then
/// 223.5.5.5 and 8.8.8.8; one that repeats the address before it is left out.
pub proof fn law_servers_to_ask(
    p: Option<AdapterInfo>,
    v: Seq<(Ipv4Addr, Seq<char>)>,
    x: (Ipv4Addr, Seq<char>),
)
    ensures
        ({
            let all = all_servers(p);
            let n = all.len();
            &&& n == 2 + (if p is Some {
                p->0.dns_servers@.len()
            } else {
                0
            })
            &&& forall|i: int|
                0 <= i < n - 2 ==> (#[trigger] all[i]).0 == p->0.dns_servers@[i]
            &&& all[n - 2].0 == (Ipv4Addr { a: 223, b: 5, c: 5, d: 5 })
            &&& all[n - 1].0 == (Ipv4Addr { a: 8, b: 8, c: 8, d: 8 })
        }),
        unrepeated(Seq::empty()) == Seq::<(Ipv4Addr, Seq<char>)>::empty(),
        v.len() == 0 || v[v.len() - 1].0 != x.0 ==> unrepeated(v + seq![x]) == unrepeated(v)
            + seq![x],
        v.len() > 0 && v[v.len() - 1].0 == x.0 ==> unrepeated(v + seq![x]) == unrepeated(v),
{
    let w = v + seq![x];
    assert(w.drop_last() =~= v);
    assert(w.last() == x);
    law_servers_unrepeated(v);
    if v.len() > 0 {
        assert(v.last() == v[v.len() - 1]);
    }
    assert(unrepeated(v).push(x) =~= unrepeated(v) + seq![x]);
}

/// Something was told in these words.
pub open spec fn says(out: Seq<Told>, words: Seq<char>) -> bool {
    exists|k: int| 0 <= k < out.len() && #[trigger] out[k] == Told::Log(words)
}

proof fn lemma_says_push(out: Seq<Told>, t: Told, words: Seq<char>)
    ensures
        says(out, words) ==> says(out.push(t), words),
        t == Told::Log(words) ==> says(out.push(t), words),
{
    if says(out, words) {
        let k = choose|k: int| 0 <= k < out.len() && #[trigger] out[k] == Told::Log(words);
        assert(out.push(t)[k] == Told::Log(words));
    }
    if t == Told::Log(words) {
        assert(out.push(t)[out.len() as int] == Told::Log(words));
    }
}

proof fn lemma_hop_said(out: Seq<Told>, hops: Seq<HopStat>, n: nat, i: int)
    requires
        0 <= i < n,
    ensures
        says(hop_logs(out, hops, n), hop_log(hops, i)),
    decreases n,
{
    let init = hop_logs(out, hops, (n - 1) as nat);
    let t = Told::Log(hop_log(hops, n - 1));
    if i < n - 1 {
        lemma_hop_said(out, hops, (n - 1) as nat, i);
    }
    lemma_says_push(init, t, hop_log(hops, i));
}

/// What was measured is told: every hop, with its number, who answered, answers of
/// probes, loss, round trips and the remark on it; pings and samples with their
/// numbers; a page with its status and what is wrong with it.
#[verifier::rlimit(40)]
pub proof fn law_results_are_told(a: Run, answer: Answer, b: Run, out: Seq<Told>, i: int)
    requires
        a.wf(),
        fits(a, answer),
        advanced(a, answer, b, out),
    ensures
        a.task is Trace && 0 <= i < b.session.hops@.len() ==> {
            let h = b.session.hops@[i];
            says(
                out,
                text::padded(text::dec(h.ttl as nat), 4) + "  "@ + text::padded(
                    if h.responder is Some {
                        h.responder->0.text()
                    } else {
                        "*"@
                    },
                    16,
                ) + "  "@ + text::dec(h.received as nat) + "/"@ + text::dec(h.sent as nat) + "  "@
                    + (binary64::fixed0(
                    binary64::quotient_percent((h.sent - h.received) as nat, h.sent as nat),
                ) + "%"@) + "  "@ + (if h.received > 0 {
                    binary64::fixed1(h.avg_ms@) + " / "@ + text::dec(h.min_ms as nat) + " / "@
                        + text::dec(h.max_ms as nat)
                } else {
                    "-"@
                }) + trace::note_text(b.session.hops@, i),
            )
        },
        a.task is PingGateway && answer->Pinged_0 is Ok ==> says(
            out,
            trace::stats_text(answer->Pinged_0->Ok_0@),
        ),
        a.task is PingTarget && answer->Pinged_0 is Ok ==> says(
            out,
            "目标 "@ + a.session.target.text() + ": "@ + trace::stats_text(
                answer->Pinged_0->Ok_0@,
            ),
        ),
        a.task is SampleGateway ==> says(
            out,
            "网关段 TCP 采样: "@ + quality::quality_text(answer->Sampled_0@),
        ),
        a.task is SampleTarget ==> says(
            out,
            "端到端 TCP 采样: "@ + quality::quality_text(answer->Sampled_0@),
        ),
        a.task is Fetch && answer->Fetched_0.status_code is Some ==> says(
            out,
            "HTTP "@ + text::dec(answer->Fetched_0.status_code->0 as nat) + "，耗时 "@ + text::dec(
                answer->Fetched_0.elapsed_ms as nat,
            ) + "ms"@,
        ),
        a.task is Fetch && answer->Fetched_0.status_code is Some && answer->Fetched_0.note@.len()
            > 0 ==> says(out, "备注："@ + answer->Fetched_0.note@),
        a.task is Fetch && answer->Fetched_0.status_code is None ==> says(
            out,
            "失败："@ + answer->Fetched_0.note@,
        ),
        a.task is AskGateway && answer->Asked_1 is Some ==> says(
            out,
            "ARP 检测网关 "@ + a.task->AskGateway_0.text() + ": 链路层可达（MAC "@
                + answer->Asked_1->0@ + "）"@,
        ),
{
    if a.task is Trace && 0 <= i < b.session.hops@.len() {
        let hops = b.session.hops@;
        let head = quietness().push(
            Told::Log("跳数  节点地址            应答/发出  丢包率   时延 平均/最小/最大 (ms)"@),
        );
        lemma_hop_said(head, hops, hops.len(), i);
        let all = route_logs(hops);
        let t = step(6, "检查应用层 HTTP 连通性"@);
        lemma_says_push(all, t, hop_log(hops, i));
        lemma_says_push(all.push(t), fetch_log(a.pages@[0]), hop_log(hops, i));
    }
    if a.task is PingGateway && answer->Pinged_0 is Ok {
        lemma_says_at(out, 0, trace::stats_text(answer->Pinged_0->Ok_0@));
    }
    if a.task is PingTarget && answer->Pinged_0 is Ok {
        lemma_says_at(
            out,
            0,
            "目标 "@ + a.session.target.text() + ": "@ + trace::stats_text(
                answer->Pinged_0->Ok_0@,
            ),
        );
    }
    if a.task is SampleGateway {
        lemma_says_at(out, 0, "网关段 TCP 采样: "@ + quality::quality_text(answer->Sampled_0@));
    }
    if a.task is SampleTarget {
        lemma_says_at(out, 0, "端到端 TCP 采样: "@ + quality::quality_text(answer->Sampled_0@));
    }
    if a.task is Fetch {
        let h = answer->Fetched_0;
        if h.status_code is Some {
            lemma_says_at(
                out,
                0,
                "HTTP "@ + text::dec(h.status_code->0 as nat) + "，耗时 "@ + text::dec(
                    h.elapsed_ms as nat,
                ) + "ms"@,
            );
            if h.note@.len() > 0 {
                lemma_says_at(out, 1, "备注："@ + h.note@);
            }
        } else {
            lemma_says_at(out, 0, "失败："@ + h.note@);
        }
    }
    if a.task is AskGateway && answer->Asked_1 is Some {
        lemma_says_at(
            out,
            0,
            "ARP 检测网关 "@ + a.task->AskGateway_0.text() + ": 链路层可达（MAC "@
                + answer->Asked_1->0@ + "）"@,
        );
    }
}

proof fn lemma_says_at(out: Seq<Told>, k: int, words: Seq<char>)
    requires
        0 <= k < out.len(),
        out[k] == Told::Log(words),
    ensures
        says(out, words),
{
}

/// The diagnosis of a run rests on its own measurements, each taken for what it is.
pub proof fn law_diagnosis_rests_on_measurements(s: Session)
    ensures
        evidence(s).adapter == s.primary,
        evidence(s).gateway_addr == s.gateway_addr,
        evidence(s).gateway == s.gateway,
        evidence(s).gateway_arp == s.gateway_arp,
        evidence(s).publics == s.publics@,
        evidence(s).publics_quality == s.publics_quality@,
        evidence(s).gateway_quality == s.gateway_quality,
        evidence(s).target_quality == s.target_quality,
        evidence(s).target == s.target,
        evidence(s).target_stats == s.target_stats,
        evidence(s).dns == s.dns@,
        evidence(s).dns_domain == s.dns_domain@,
        evidence(s).system_dns is Some <==> s.system_dns is Some,
        s.system_dns matches Some(v) ==> evidence(s).system_dns == Some(v@),
        evidence(s).hops == s.hops@,
        evidence(s).http == s.http,
{
}

/// A run starts with nothing measured. A target that is an address is taken as that
/// address, and the adapters come first; any other target is resolved before them.
pub proof fn law_run_starts_blank(opts: RunOpts, time: String, r: (Run, Vec<Event>))
    requires
        call_ensures(Run::start, (opts, time), r),
    ensures
        ({
            let s = r.0.session;
            &&& r.0.opts == opts
            &&& s.time == time
            &&& s.target_input@ == opts.target@
            &&& s.count == opts.count && s.timeout_ms == opts.timeout_ms && s.quality_count
                == opts.quality_count
            &&& s.dns_domain@ == "www.baidu.com"@
            &&& s.adapters@.len() == 0 && s.primary is None
            &&& s.gateway_addr is None && s.gateway is None && s.gateway_arp is None
            &&& s.gateway_quality is None && s.target_quality is None && s.target_stats is None
            &&& s.publics@.len() == 0 && s.publics_quality@.len() == 0
            &&& s.dns@.len() == 0 && s.system_dns is None
            &&& s.hops@.len() == 0 && s.http is None && s.diagnosis is None
            &&& (exists|x: Ipv4Addr| opts.target@ == #[trigger] x.text()) ==> r.0.task
                == Task::ListAdapters && s.target.text() == opts.target@
            &&& !(exists|x: Ipv4Addr| opts.target@ == #[trigger] x.text()) ==> r.0.task
                == Task::ResolveTarget
        }),
{
}

/// The diagnosis ends the run and changes nothing else.
pub proof fn law_run_ends_with_its_diagnosis(a: Run, b: Run, out: Seq<Told>)
    requires
        concluded(a, b, out),
    ensures
        b.task == Task::Done,
        b.session.diagnosis is Some,
        b.session.diagnosis->0@ == diagnose::opinion(evidence(a.session)),
        evidence(b.session) == evidence(a.session),
        b.session == (Session { diagnosis: b.session.diagnosis, ..a.session }),
{
}

/// Which answers fit a job: pings and samples that were sent as often as asked for, with
/// no more answers than that; the result of the very server that was asked, for the test
/// domain; hops in order and within the limit; the very page that was fetched; and of
/// course no answer to another job.
pub proof fn law_answers_that_fit(run: &Run, answer: &Answer, r: bool)
    requires
        call_ensures(Run::accepts, (run, answer), r),
    ensures
        run.task is ResolveTarget ==> (r <==> answer is Resolved),
        run.task is ListAdapters ==> (r <==> answer is Adapters),
        run.task is AskGateway ==> (r <==> answer is Asked),
        run.task is AskSystem ==> (r <==> answer is System),
        run.task is PingGateway || run.task is PingTarget ==> (r <==> answer is Pinged && (
        answer->Pinged_0 is Err || answer->Pinged_0->Ok_0.received <= answer->Pinged_0->Ok_0.sent
            == run.opts.count)),
        run.task is PingPublic ==> (r <==> answer is Pinged && (answer->Pinged_0 is Err
            || answer->Pinged_0->Ok_0.received <= answer->Pinged_0->Ok_0.sent == 4)),
        run.task is SampleGateway || run.task is SampleTarget ==> (r <==> answer is Sampled
            && answer->Sampled_0.succeeded <= answer->Sampled_0.sent == run.opts.quality_count),
        run.task is SamplePublic ==> (r <==> answer is Sampled && answer->Sampled_0.succeeded
            <= answer->Sampled_0.sent == 4),
        run.task matches Task::AskServer(i) ==> (r <==> answer is Queried
            && answer->Queried_0.server == run.servers@[i as int].0 && answer->Queried_0.label@
            == run.servers@[i as int].1@ && answer->Queried_0.domain@ == "www.baidu.com"@),
        run.task matches Task::Fetch(i) ==> (r <==> answer is Fetched && answer->Fetched_0.host@
            == run.pages@[i as int].host@),
        run.task is Trace && r ==> answer is Traced && forall|i: int|
            0 <= i < answer->Traced_0@.len() ==> (#[trigger] answer->Traced_0@[i]).received
                <= answer->Traced_0@[i].sent && answer->Traced_0@[i].ttl <= run.opts.max_hops,
        run.task is Conclude || run.task is Done ==> !r,
{
}

/// What is told of the adapters, public addresses, servers and the resolver: every
/// adapter and the one in use; what the pings of a public address came to, or why they
/// were not sent; whether connections to it succeed; what each server and the resolver
/// answered, or why not.
#[verifier::rlimit(40)]
pub proof fn law_more_results_are_told(a: Run, answer: Answer, b: Run, out: Seq<Told>, k: int)
    requires
        a.wf(),
        fits(a, answer),
        advanced(a, answer, b, out),
    ensures
        a.task is ListAdapters && 0 <= k < b.session.adapters@.len() ==> {
            let x = b.session.adapters@[k];
            says(
                out,
                "- "@ + x.kind@ + " \""@ + (if x.friendly@.len() > 0 {
                    x.friendly@
                } else {
                    x.name@
                }) + "\"："@ + x.description@ + "，IPv4 "@ + (match x.ipv4 {
                    Some((ip, bits)) => ip.text() + "/"@ + text::dec(bits as nat),
                    None => "无 IPv4"@,
                }) + "，网关 "@ + addr::list_text(x.gateways@, ","@) + "，状态 "@ + (if x.up {
                    "已连接"@
                } else {
                    "未连接"@
                }),
            )
        },
        a.task is ListAdapters && b.session.primary is Some ==> says(
            out,
            "主用适配器: \""@ + (if b.session.primary->0.friendly@.len() > 0 {
                b.session.primary->0.friendly@
            } else {
                b.session.primary->0.name@
            }) + "\"（"@ + b.session.primary->0.kind@ + "）"@,
        ),
        a.task matches Task::PingPublic(i) ==> {
            let who = (if i == 0 {
                Ipv4Addr { a: 223, b: 5, c: 5, d: 5 }
            } else if i == 1 {
                Ipv4Addr { a: 119, b: 29, c: 29, d: 29 }
            } else {
                Ipv4Addr { a: 8, b: 8, c: 8, d: 8 }
            }).text() + " ("@ + (if i == 0 {
                "阿里 DNS"@
            } else if i == 1 {
                "DNSPod"@
            } else {
                "Google DNS"@
            }) + ")"@;
            says(
                out,
                match answer->Pinged_0 {
                    Ok(st) => who + ": "@ + trace::stats_text(st@),
                    Err(e) => who + ": 探测失败: "@ + e@,
                },
            )
        },
        a.task matches Task::SamplePublic(i) ==> says(
            out,
            "TCP 采样 "@ + a.session.publics@[i as int].0.text() + " :53: "@ + if answer->Sampled_0.succeeded
                > 0 {
                "可达，"@ + quality::quality_text(answer->Sampled_0@)
            } else {
                "连接失败"@
            },
        ),
        a.task matches Task::AskServer(i) ==> {
            let r = answer->Queried_0;
            let who = r.server.text() + " ("@ + r.label@ + ") 解析 "@ + "www.baidu.com"@;
            says(
                out,
                if r.success {
                    who + ": 成功（"@ + text::dec(r.elapsed_ms as nat) + "ms）-> "@
                        + addr::list_text(r.answers@, ", "@)
                } else {
                    who + ": 失败（"@ + (if r.error is Some {
                        r.error->0@
                    } else {
                        "未知错误"@
                    }) + "）"@
                },
            )
        },
        a.task is AskSystem ==> says(
            out,
            match answer->System_0 {
                Ok(v) => "系统解析器解析 "@ + "www.baidu.com"@ + ": 成功 -> "@ + addr::list_text(
                    v@,
                    ", "@,
                ),
                Err(e) => "系统解析器解析 "@ + "www.baidu.com"@ + ": 失败（"@ + e@ + "）"@,
            },
        ),
{
    match a.task {
        Task::ListAdapters => {
            let v = b.session.adapters@;
            let lines = if v.len() == 0 {
                quietness().push(Told::Log("警告: 未读取到任何网络适配器"@))
            } else {
                adapter_logs(v)
            };
            let more = lines.push(Told::Log(primary_log(b.session.primary)));
            let next = more.push(step(2, "检查网关连通性"@));
            let p = primary_log(b.session.primary);
            lemma_says_push(lines, Told::Log(p), p);
            lemma_says_push(more, step(2, "检查网关连通性"@), p);
            lemma_rest_said(next, out, p);
            if 0 <= k < v.len() {
                let t = adapter_log(v[k]@);
                lemma_adapter_said(v, k);
                lemma_says_push(lines, Told::Log(p), t);
                lemma_says_push(more, step(2, "检查网关连通性"@), t);
                lemma_rest_said(next, out, t);
            }
        },
        Task::PingPublic(i) => {
            let (ip, name) = public_check(i as int);
            let t = pings_log(ip.text() + " ("@ + name + ")"@, answer->Pinged_0)->Log_0;
            lemma_says_at(out, 0, t);
        },
        Task::SamplePublic(i) => {
            let t = "TCP 采样 "@ + a.session.publics@[i as int].0.text() + " :53: "@
                + if answer->Sampled_0.succeeded > 0 {
                "可达，"@ + quality::quality_text(answer->Sampled_0@)
            } else {
                "连接失败"@
            };
            lemma_says_at(out, 0, t);
        },
        Task::AskServer(i) => {
            let t = server_log(
                a.servers@[i as int].0,
                a.servers@[i as int].1@,
                answer->Queried_0,
            );
            lemma_says_at(out, 0, t);
        },
        Task::AskSystem => {
            lemma_says_at(out, 0, out[0]->Log_0);
        },
        _ => {},
    }
}

proof fn lemma_adapter_said(v: Seq<AdapterInfo>, k: int)
    requires
        0 <= k < v.len(),
    ensures
        says(adapter_logs(v), adapter_log(v[k]@)),
    decreases v.len(),
{
    let init = adapter_logs(v.drop_last());
    let t = Told::Log(adapter_log(v.last()@));
    if k < v.len() - 1 {
        lemma_adapter_said(v.drop_last(), k);
    }
    lemma_says_push(init, t, adapter_log(v[k]@));
}

/// What was told so far is still told when more follows.
proof fn lemma_rest_said(some: Seq<Told>, all: Seq<Told>, words: Seq<char>)
    requires
        says(some, words),
        some.len() <= all.len(),
        forall|k: int| 0 <= k < some.len() ==> #[trigger] some[k] == all[k],
    ensures
        says(all, words),
{
    let k = choose|k: int| 0 <= k < some.len() && #[trigger] some[k] == Told::Log(words);
    assert(all[k] == Told::Log(words));
}

} // verus!
