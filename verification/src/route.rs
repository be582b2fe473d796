//! Where on the route to a target the trouble lies.

use crate::addr::Ipv4Addr;
use crate::binary64;
use crate::rounding;
use crate::text;
use crate::trace;
use crate::trace::{any_answer, HopStat};
use vstd::prelude::*;

verus! {

/// The part of the network that a node belongs to.
#[derive(Clone, Copy, Debug, PartialEq, Eq, Structural)]
pub enum Segment {
    Local,
    TargetSide,
    Carrier,
}

impl Segment {
    /// The name of the part.
    pub open spec fn text(self) -> Seq<char> {
        match self {
            Segment::Local => "本地网络段"@,
            Segment::TargetSide => "目标侧"@,
            Segment::Carrier => "运营商网络"@,
        }
    }

    /// The name of the part.
    pub fn name(self) -> (t: &'static str)
        ensures
            t@ == self.text(),
    {
        match self {
            Segment::Local => "本地网络段",
            Segment::TargetSide => "目标侧",
            Segment::Carrier => "运营商网络",
        }
    }
}

/// The part of the network that hop `index` of `total` belongs to, where `ip` answered.
pub open spec fn segment(ip: Ipv4Addr, index: int, total: int) -> Segment {
    if ip.local() || index == 0 {
        Segment::Local
    } else if index + 1 == total {
        Segment::TargetSide
    } else {
        Segment::Carrier
    }
}

/// Tells the part of the network that a hop belongs to.
pub fn seg_label(ip: Ipv4Addr, index: usize, total: usize) -> (r: Segment)
    requires
        index < usize::MAX,
    ensures
        r == segment(ip, index as int, total as int),
{
    if ip.is_local() || index == 0 {
        Segment::Local
    } else if index + 1 == total {
        Segment::TargetSide
    } else {
        Segment::Carrier
    }
}

/// What the hops say of the route.
#[derive(Clone, Debug)]
pub enum RouteVerdict {
    Clean(String),
    Bottleneck { msg: String, suggestion: String },
    Unreachable { msg: String, suggestion: String },
}

/// What the hops say of the route, in sequences of characters.
pub ghost enum Fate {
    Clean(Seq<char>),
    Bottleneck(Seq<char>, Seq<char>),
    Unreachable(Seq<char>, Seq<char>),
}

impl RouteVerdict {
    /// The verdict, its strings as sequences.
    pub open spec fn view(&self) -> Fate {
        match *self {
            RouteVerdict::Clean(m) => Fate::Clean(m@),
            RouteVerdict::Bottleneck { msg, suggestion } => Fate::Bottleneck(msg@, suggestion@),
            RouteVerdict::Unreachable { msg, suggestion } => Fate::Unreachable(msg@, suggestion@),
        }
    }
}

/// The last hop that answered.
pub open spec fn last_answer(hops: Seq<HopStat>) -> Option<int>
    decreases hops.len(),
{
    if hops.len() == 0 {
        None
    } else if hops.last().received > 0 {
        Some(hops.len() - 1)
    } else {
        last_answer(hops.drop_last())
    }
}

/// The share of lost probes of a hop, in percent.
pub open spec fn hop_loss(h: HopStat) -> nat {
    trace::loss(h.sent as nat, h.received as nat)
}

/// The hops from `from` on that answer lose less than a tenth.
pub open spec fn steady_from(hops: Seq<HopStat>, from: int) -> bool {
    forall|k: int|
        from <= k < hops.len() && (#[trigger] hops[k]).received > 0 ==> hop_loss(hops[k]) < 10
            * rounding::one()
}

/// What is wrong with hop `i`: heavy loss, or a sharp rise of the round trip over
/// the hop before it. A hop that does not answer is not judged.
pub open spec fn complaint(hops: Seq<HopStat>, i: int) -> Option<Seq<char>> {
    let h = hops[i];
    let loss = hop_loss(h);
    if h.received == 0 {
        None
    } else if loss >= 20 * rounding::one() {
        Some(
            if steady_from(hops, i + 1) && loss < 50 * rounding::one() {
                "丢包 "@ + binary64::fixed0(loss) + "%（其后节点正常，也可能是该节点限速 ICMP）"@
            } else {
                "丢包 "@ + binary64::fixed0(loss) + "%"@
            },
        )
    } else if i > 0 && hops[i - 1].received > 0 && binary64::rises(
        hops[i - 1].avg_ms@,
        h.avg_ms@,
    ) {
        Some(
            "时延突增：第 "@ + text::dec(hops[i - 1].ttl as nat) + " 跳 "@ + binary64::fixed0(
                hops[i - 1].avg_ms@,
            ) + "ms → 第 "@ + text::dec(h.ttl as nat) + " 跳 "@ + binary64::fixed0(h.avg_ms@)
                + "ms"@,
        )
    } else {
        None
    }
}

/// The first hop from `i` on with something wrong.
pub open spec fn first_complaint(hops: Seq<HopStat>, i: int) -> Option<int>
    decreases hops.len() - i,
{
    if i < 0 || i >= hops.len() {
        None
    } else if complaint(hops, i) is Some {
        Some(i)
    } else {
        first_complaint(hops, i + 1)
    }
}

/// The address of the node that answered at a hop, empty where none did.
pub open spec fn address_text(h: HopStat) -> Seq<char> {
    match h.responder {
        Some(x) => x.text(),
        None => Seq::empty(),
    }
}

/// The part of the network that hop `i` belongs to.
pub open spec fn hop_segment(hops: Seq<HopStat>, i: int, target: Ipv4Addr) -> Segment {
    let ip = match hops[i].responder {
        Some(x) => x,
        None => target,
    };
    segment(ip, i, hops.len() as int)
}

/// What to do about a break of the route.
pub open spec fn break_advice(s: Segment) -> Seq<char> {
    if s == Segment::Local {
        "断点在本地网络段，检查本机路由器 / 上级路由的配置与连线"@
    } else {
        "断点在运营商网络内，建议联系运营商报修并附上本报告"@
    }
}

/// What to do about a bottleneck on the route.
pub open spec fn bottleneck_advice(s: Segment) -> Seq<char> {
    match s {
        Segment::Local => "问题在本地网络（本机、Wi-Fi、路由器或内网设备），建议重启路由器、改用有线或排除内网高流量设备"@,
        Segment::TargetSide => "瓶颈靠近目标服务器一侧，可能是对方服务繁忙或其入口带宽不足，本地链路基本正常"@,
        Segment::Carrier => "问题在运营商网络内，本地链路正常，建议向运营商报修并附上本报告"@,
    }
}

/// The route breaks behind its last hop that answers.
pub open spec fn broken(hops: Seq<HopStat>, target: Ipv4Addr) -> Fate {
    match last_answer(hops) {
        None => Fate::Unreachable(
            "链路从第 1 跳起即中断，没有任何中间节点应答"@,
            "若网关 ping 正常，问题在网关之后（运营商侧或上级路由）；请联系运营商报修"@,
        ),
        Some(i) => {
            let s = hop_segment(hops, i, target);
            Fate::Unreachable(
                "到目标 "@ + target.text() + " 的链路在第 "@ + text::dec(hops[i].ttl as nat + 1)
                    + " 跳之后中断，最后可达节点为第 "@ + text::dec(hops[i].ttl as nat) + " 跳 "@
                    + address_text(hops[i]) + "（"@ + s.text() + "）"@,
                break_advice(s),
            )
        },
    }
}

/// What the hops say of the route to `target`. Where there is other evidence that
/// the network works, a route without answers is no break.
pub open spec fn fate(
    hops: Seq<HopStat>,
    target_reachable: bool,
    target: Ipv4Addr,
    evidence: bool,
) -> Fate {
    if hops.len() == 0 {
        if evidence {
            Fate::Clean("ICMP 被屏蔽，逐跳探测无数据，但 TCP / HTTP / DNS 验证链路实际可达"@)
        } else {
            Fate::Unreachable(
                "逐跳探测没有任何数据，目标 "@ + target.text() + " 不可达"@,
                "检查本机出站流量是否被防火墙整体拦截"@,
            )
        }
    } else if !target_reachable {
        if !evidence {
            broken(hops, target)
        } else if !trace::answered_from(hops, 0) {
            Fate::Clean("ICMP 被屏蔽，逐跳探测无任何节点应答，但 TCP / HTTP / DNS 验证链路实际可达"@)
        } else {
            Fate::Clean(
                "目标 "@ + target.text()
                    + " 不回应 ICMP，但 TCP / HTTP / DNS 验证链路实际可达（中间部分节点也不回 ICMP）"@,
            )
        }
    } else {
        match first_complaint(hops, 0) {
            Some(i) => {
                let s = hop_segment(hops, i, target);
                Fate::Bottleneck(
                    "第 "@ + text::dec(hops[i].ttl as nat) + " 跳 "@ + address_text(hops[i]) + "（"@
                        + s.text() + "）"@ + complaint(hops, i)->0,
                    bottleneck_advice(s),
                )
            },
            None => Fate::Clean(
                "到目标的 "@ + text::dec(hops.len()) + " 跳链路未见明显丢包或时延突增，全程平均时延 "@
                    + binary64::fixed0(hops.last().avg_ms@) + "ms"@,
            ),
        }
    }
}

/// The number of the hop behind the last one that answers is a TTL, where the
/// verdict names it.
pub open spec fn countable(hops: Seq<HopStat>, target_reachable: bool, evidence: bool) -> bool {
    !target_reachable && !evidence ==> (last_answer(hops) matches Some(i) ==> hops[i].ttl < 255)
}

fn find_last_answer(hops: &[HopStat]) -> (r: Option<usize>)
    ensures
        match r {
            Some(i) => i < hops@.len() && last_answer(hops@) == Some(i as int),
            None => last_answer(hops@) is None,
        },
{
    let mut n: usize = hops.len();
    assert(hops@.take(n as int) == hops@);
    while n > 0
        invariant
            n <= hops@.len(),
            last_answer(hops@.take(n as int)) == last_answer(hops@),
        decreases n,
    {
        if hops[n - 1].received > 0 {
            return Some(n - 1);
        }
        assert(hops@.take(n as int).drop_last() == hops@.take(n - 1));
        n = n - 1;
    }
    None
}

/// Whether the verdict on these hops can be given.
pub fn is_countable(hops: &[HopStat], target_reachable: bool, evidence: bool) -> (r: bool)
    ensures
        r == countable(hops@, target_reachable, evidence),
{
    if target_reachable || evidence {
        return true;
    }
    match find_last_answer(hops) {
        Some(i) => hops[i].ttl < 255,
        None => true,
    }
}

fn is_steady_from(hops: &[HopStat], from: usize) -> (r: bool)
    requires
        trace::all_wf(hops@),
    ensures
        r == steady_from(hops@, from as int),
{
    let mut k: usize = from;
    while k < hops.len()
        invariant
            from <= k,
            trace::all_wf(hops@),
            forall|j: int|
                from <= j < k && j < hops@.len() && (#[trigger] hops@[j]).received > 0 ==> hop_loss(
                    hops@[j],
                ) < 10 * rounding::one(),
        decreases hops.len() - k,
    {
        if hops[k].received > 0 && !hops[k].loss_pct().below(10) {
            return false;
        }
        k = k + 1;
    }
    true
}

fn address(h: &HopStat) -> (t: String)
    ensures
        t@ == address_text(*h),
{
    match h.responder {
        Some(x) => x.to_text(),
        None => String::new(),
    }
}

fn segment_of(hops: &[HopStat], i: usize, target: Ipv4Addr) -> (r: Segment)
    requires
        i < hops@.len(),
    ensures
        r == hop_segment(hops@, i as int, target),
{
    let ip = match hops[i].responder {
        Some(x) => x,
        None => target,
    };
    seg_label(ip, i, hops.len())
}

fn complain(hops: &[HopStat], i: usize) -> (r: Option<String>)
    requires
        i < hops@.len(),
        trace::all_wf(hops@),
    ensures
        match r {
            Some(t) => complaint(hops@, i as int) == Some(t@),
            None => complaint(hops@, i as int) is None,
        },
{
    let h = &hops[i];
    if h.received == 0 {
        return None;
    }
    let loss = h.loss_pct();
    if !loss.below(20) {
        let mut t = "丢包 ".to_string();
        t.append(loss.fixed0().as_str());
        if is_steady_from(hops, i + 1) && loss.below(50) {
            t.append("%（其后节点正常，也可能是该节点限速 ICMP）");
        } else {
            t.append("%");
        }
        Some(t)
    } else if i > 0 && hops[i - 1].received > 0 && hops[i - 1].avg_ms.rises_to(h.avg_ms) {
        let p = &hops[i - 1];
        let mut t = "时延突增：第 ".to_string();
        t.append(text::decimal(p.ttl as u128).as_str());
        t.append(" 跳 ");
        t.append(p.avg_ms.fixed0().as_str());
        t.append("ms → 第 ");
        t.append(text::decimal(h.ttl as u128).as_str());
        t.append(" 跳 ");
        t.append(h.avg_ms.fixed0().as_str());
        t.append("ms");
        Some(t)
    } else {
        None
    }
}

fn report_break(hops: &[HopStat], target: Ipv4Addr) -> (r: RouteVerdict)
    requires
        last_answer(hops@) matches Some(i) ==> hops@[i].ttl < 255,
    ensures
        r@ == broken(hops@, target),
{
    match find_last_answer(hops) {
        None => RouteVerdict::Unreachable {
            msg: "链路从第 1 跳起即中断，没有任何中间节点应答".to_string(),
            suggestion: "若网关 ping 正常，问题在网关之后（运营商侧或上级路由）；请联系运营商报修".to_string(),
        },
        Some(i) => {
            let h = &hops[i];
            let s = segment_of(hops, i, target);
            let mut t = "到目标 ".to_string();
            t.append(target.to_text().as_str());
            t.append(" 的链路在第 ");
            t.append(text::decimal((h.ttl + 1) as u128).as_str());
            t.append(" 跳之后中断，最后可达节点为第 ");
            t.append(text::decimal(h.ttl as u128).as_str());
            t.append(" 跳 ");
            t.append(address(h).as_str());
            t.append("（");
            t.append(s.name());
            t.append("）");
            let advice = match s {
                Segment::Local => "断点在本地网络段，检查本机路由器 / 上级路由的配置与连线",
                _ => "断点在运营商网络内，建议联系运营商报修并附上本报告",
            };
            RouteVerdict::Unreachable { msg: t, suggestion: advice.to_string() }
        },
    }
}

/// Finds losses, sharp rises and breaks on the route to `target`. `evidence` says
/// that the network is known to work by other means than ICMP.
pub fn analyze_route(
    hops: &[HopStat],
    target_reachable: bool,
    target: Ipv4Addr,
    evidence: bool,
) -> (r: RouteVerdict)
    requires
        target_reachable ==> trace::all_wf(hops@),
        countable(hops@, target_reachable, evidence),
    ensures
        r@ == fate(hops@, target_reachable, target, evidence),
{
    if hops.len() == 0 {
        if evidence {
            return RouteVerdict::Clean(
                "ICMP 被屏蔽，逐跳探测无数据，但 TCP / HTTP / DNS 验证链路实际可达".to_string(),
            );
        }
        let mut t = "逐跳探测没有任何数据，目标 ".to_string();
        t.append(target.to_text().as_str());
        t.append(" 不可达");
        return RouteVerdict::Unreachable {
            msg: t,
            suggestion: "检查本机出站流量是否被防火墙整体拦截".to_string(),
        };
    }
    if !target_reachable {
        if !evidence {
            return report_break(hops, target);
        }
        if !any_answer(hops, 0) {
            return RouteVerdict::Clean(
                "ICMP 被屏蔽，逐跳探测无任何节点应答，但 TCP / HTTP / DNS 验证链路实际可达".to_string(),
            );
        }
        let mut t = "目标 ".to_string();
        t.append(target.to_text().as_str());
        t.append(" 不回应 ICMP，但 TCP / HTTP / DNS 验证链路实际可达（中间部分节点也不回 ICMP）");
        return RouteVerdict::Clean(t);
    }
    let mut i: usize = 0;
    while i < hops.len()
        invariant
            i <= hops@.len(),
            hops@.len() > 0,
            trace::all_wf(hops@),
            target_reachable,
            first_complaint(hops@, i as int) == first_complaint(hops@, 0),
        decreases hops.len() - i,
    {
        if let Some(wrong) = complain(hops, i) {
            let s = segment_of(hops, i, target);
            let mut t = "第 ".to_string();
            t.append(text::decimal(hops[i].ttl as u128).as_str());
            t.append(" 跳 ");
            t.append(address(&hops[i]).as_str());
            t.append("（");
            t.append(s.name());
            t.append("）");
            t.append(wrong.as_str());
            let advice = match s {
                Segment::Local => "问题在本地网络（本机、Wi-Fi、路由器或内网设备），建议重启路由器、改用有线或排除内网高流量设备",
                Segment::TargetSide => "瓶颈靠近目标服务器一侧，可能是对方服务繁忙或其入口带宽不足，本地链路基本正常",
                Segment::Carrier => "问题在运营商网络内，本地链路正常，建议向运营商报修并附上本报告",
            };
            return RouteVerdict::Bottleneck { msg: t, suggestion: advice.to_string() };
        }
        i = i + 1;
    }
    let mut t = "到目标的 ".to_string();
    t.append(text::decimal(hops.len() as u128).as_str());
    t.append(" 跳链路未见明显丢包或时延突增，全程平均时延 ");
    t.append(hops[hops.len() - 1].avg_ms.fixed0().as_str());
    t.append("ms");
    RouteVerdict::Clean(t)
}

proof fn lemma_first_complaint(hops: Seq<HopStat>, i: int)
    requires
        0 <= i <= hops.len(),
    ensures
        match first_complaint(hops, i) {
            Some(k) => {
                &&& i <= k < hops.len()
                &&& complaint(hops, k) is Some
                &&& forall|j: int| i <= j < k ==> #[trigger] complaint(hops, j) is None
            },
            None => forall|j: int| i <= j < hops.len() ==> #[trigger] complaint(hops, j) is None,
        },
    decreases hops.len() - i,
{
    if i < hops.len() && complaint(hops, i) is None {
        lemma_first_complaint(hops, i + 1);
    }
}

/// On the route to a target that answers, the bottleneck is the first hop with
/// something wrong; the route is clean exactly where nothing is wrong with any hop.
pub proof fn law_bottleneck_is_first(hops: Seq<HopStat>, target: Ipv4Addr, evidence: bool)
    requires
        hops.len() > 0,
    ensures
        match first_complaint(hops, 0) {
            Some(k) => {
                &&& 0 <= k < hops.len()
                &&& hops[k].received > 0
                &&& complaint(hops, k) is Some
                &&& forall|j: int| 0 <= j < k ==> #[trigger] complaint(hops, j) is None
                &&& fate(hops, true, target, evidence) is Bottleneck
            },
            None => {
                &&& forall|j: int| 0 <= j < hops.len() ==> #[trigger] complaint(hops, j) is None
                &&& fate(hops, true, target, evidence) is Clean
            },
        },
{
    lemma_first_complaint(hops, 0);
}

/// A route breaks behind the last hop that answers: no hop behind it does.
pub proof fn law_break_behind_last_answer(hops: Seq<HopStat>)
    ensures
        match last_answer(hops) {
            Some(i) => {
                &&& 0 <= i < hops.len()
                &&& hops[i].received > 0
                &&& !trace::answered_from(hops, i + 1)
            },
            None => !trace::answered_from(hops, 0),
        },
    decreases hops.len(),
{
    if hops.len() > 0 && hops.last().received == 0 {
        let init = hops.drop_last();
        law_break_behind_last_answer(init);
        assert forall|k: int|
            0 <= k < hops.len() && (#[trigger] hops[k]).received > 0 implies k < init.len()
            && init[k].received > 0 by {
            if k == hops.len() - 1 {
                assert(hops[k] == hops.last());
            } else {
                assert(init[k] == hops[k]);
            }
        }
    }
}

/// The hop answers, but loses at least a fifth of its probes.
pub open spec fn loses_a_fifth(h: HopStat) -> bool {
    0 < h.received && 5 * (h.sent - h.received) >= h.sent
}

/// Hop `k` answers more than 30 ms and more than four fifths later than the hop
/// before it, which answers too.
pub open spec fn slows_down(hops: Seq<HopStat>, k: int) -> bool {
    &&& k > 0
    &&& hops[k].received > 0
    &&& hops[k - 1].received > 0
    &&& binary64::rises(hops[k - 1].avg_ms@, hops[k].avg_ms@)
}

proof fn lemma_hop_thresholds(h: HopStat)
    requires
        0 < h.received <= h.sent,
    ensures
        hop_loss(h) >= 20 * rounding::one() <==> 5 * (h.sent - h.received) >= h.sent,
        hop_loss(h) < 10 * rounding::one() <==> 10 * (h.sent - h.received) < h.sent,
        hop_loss(h) < 50 * rounding::one() <==> 2 * (h.sent - h.received) < h.sent,
{
    let lost = (h.sent - h.received) as nat;
    binary64::law_percent_compares_as_counts(lost, h.sent as nat, 20);
    binary64::law_percent_compares_as_counts(lost, h.sent as nat, 10);
    binary64::law_percent_compares_as_counts(lost, h.sent as nat, 50);
}

proof fn lemma_complaint_is_fault(hops: Seq<HopStat>, k: int)
    requires
        0 <= k < hops.len(),
        hops[k].received <= hops[k].sent,
    ensures
        complaint(hops, k) is Some <==> loses_a_fifth(hops[k]) || slows_down(hops, k),
{
    if hops[k].received > 0 {
        lemma_hop_thresholds(hops[k]);
    }
}

/// A route to a target that answers has a bottleneck exactly where some hop, the last
/// one included, loses at least a fifth of its probes while it still answers, or
/// answers much later than the hop before it. Else the route is clean.
pub proof fn law_any_faulty_hop_is_a_bottleneck(
    hops: Seq<HopStat>,
    target: Ipv4Addr,
    evidence: bool,
)
    requires
        hops.len() > 0,
        forall|k: int| 0 <= k < hops.len() ==> (#[trigger] hops[k]).received <= hops[k].sent,
    ensures
        forall|k: int|
            0 <= k < hops.len() && 0 < (#[trigger] hops[k]).received && (hops[k].sent
                - hops[k].received) * 100 >= 20 * hops[k].sent ==> fate(
                hops,
                true,
                target,
                evidence,
            ) is Bottleneck,
        forall|k: int|
            #![trigger hops[k]]
            0 <= k < hops.len() && slows_down(hops, k) ==> fate(
                hops,
                true,
                target,
                evidence,
            ) is Bottleneck,
        (forall|k: int|
            #![trigger hops[k]]
            0 <= k < hops.len() ==> !loses_a_fifth(hops[k]) && !slows_down(hops, k)) ==> fate(
            hops,
            true,
            target,
            evidence,
        ) is Clean,
        !(fate(hops, true, target, evidence) is Unreachable),
{
    lemma_first_complaint(hops, 0);
    assert forall|k: int| #![trigger hops[k]] 0 <= k < hops.len() implies (complaint(hops, k)
        is Some <==> loses_a_fifth(hops[k]) || slows_down(hops, k)) by {
        lemma_complaint_is_fault(hops, k);
    }
}

/// Who is blamed for a fault at hop `k`: the local network where a private address
/// answers there or it is the first hop, else the target's side at the last hop, else
/// the carrier.
pub open spec fn blamed_at(hops: Seq<HopStat>, k: int, target: Ipv4Addr) -> Seq<char> {
    let x = if hops[k].responder is Some {
        hops[k].responder->0
    } else {
        target
    };
    if k == 0 || x.a == 10 || x.a == 127 || (x.a == 172 && x.b / 16 == 1) || (x.a == 192 && x.b
        == 168) || (x.a == 169 && x.b == 254) {
        "本地网络段"@
    } else if k == hops.len() - 1 {
        "目标侧"@
    } else {
        "运营商网络"@
    }
}

/// The bottleneck is the first hop with a fault. It is named by its number, its
/// address and its part of the network, with what it loses or by how much it is
/// slower than the hop before it; the advice goes by the part of the network. Loss of
/// less than half at a hop behind which every hop that answers loses less than a tenth
/// may be no more than a limit on ICMP.
#[verifier::rlimit(40)]
pub proof fn law_first_faulty_hop_is_blamed(
    hops: Seq<HopStat>,
    k: int,
    target: Ipv4Addr,
    evidence: bool,
)
    requires
        0 <= k < hops.len(),
        forall|j: int| 0 <= j < hops.len() ==> (#[trigger] hops[j]).received <= hops[j].sent,
        forall|j: int|
            #![trigger hops[j]]
            0 <= j < k ==> !loses_a_fifth(hops[j]) && !slows_down(hops, j),
        loses_a_fifth(hops[k]) || slows_down(hops, k),
    ensures
        fate(hops, true, target, evidence) matches Fate::Bottleneck(msg, advice) && {
            let who = blamed_at(hops, k, target);
            let what = "第 "@ + text::dec(hops[k].ttl as nat) + " 跳 "@ + (if hops[k].responder
                is Some {
                hops[k].responder->0.text()
            } else {
                ""@
            }) + "（"@ + who + "）"@;
            &&& loses_a_fifth(hops[k]) ==> msg == what + ("丢包 "@ + binary64::fixed0(
                binary64::quotient_percent(
                    (hops[k].sent - hops[k].received) as nat,
                    hops[k].sent as nat,
                ),
            ) + if 2 * (hops[k].sent - hops[k].received) < hops[k].sent && forall|j: int|
                k < j < hops.len() && 0 < (#[trigger] hops[j]).received ==> 10 * (hops[j].sent
                    - hops[j].received) < hops[j].sent {
                "%（其后节点正常，也可能是该节点限速 ICMP）"@
            } else {
                "%"@
            })
            &&& !loses_a_fifth(hops[k]) ==> msg == what + ("时延突增：第 "@ + text::dec(
                hops[k - 1].ttl as nat,
            ) + " 跳 "@ + binary64::fixed0(hops[k - 1].avg_ms@) + "ms → 第 "@ + text::dec(
                hops[k].ttl as nat,
            ) + " 跳 "@ + binary64::fixed0(hops[k].avg_ms@) + "ms"@)
            &&& who == "本地网络段"@ ==> advice
                == "问题在本地网络（本机、Wi-Fi、路由器或内网设备），建议重启路由器、改用有线或排除内网高流量设备"@
            &&& who == "目标侧"@ ==> advice
                == "瓶颈靠近目标服务器一侧，可能是对方服务繁忙或其入口带宽不足，本地链路基本正常"@
            &&& who == "运营商网络"@ ==> advice
                == "问题在运营商网络内，本地链路正常，建议向运营商报修并附上本报告"@
        },
{
    lemma_first_complaint(hops, 0);
    assert forall|j: int| #![trigger hops[j]] 0 <= j < hops.len() implies (complaint(hops, j)
        is Some <==> loses_a_fifth(hops[j]) || slows_down(hops, j)) by {
        lemma_complaint_is_fault(hops, j);
    }
    assert forall|j: int| 0 <= j < k implies #[trigger] complaint(hops, j) is None by {
        assert(hops[j].received <= hops[j].sent);
    }
    assert(hops[k].received > 0);
    assert(complaint(hops, k) is Some);
    let found = first_complaint(hops, 0);
    assert(found == Some(k)) by {
        if found is Some && found->0 < k {
            assert(complaint(hops, found->0) is None);
        }
    }
    assert forall|j: int| 0 <= j < hops.len() && 0 < (#[trigger] hops[j]).received implies (hop_loss(
        hops[j],
    ) < 10 * rounding::one() <==> 10 * (hops[j].sent - hops[j].received) < hops[j].sent) by {
        lemma_hop_thresholds(hops[j]);
    }
    lemma_hop_thresholds(hops[k]);
    lemma_segment_names();
    let s = hop_segment(hops, k, target);
    assert(s.text() == blamed_at(hops, k, target));
    assert(address_text(hops[k]) =~= if hops[k].responder is Some {
        hops[k].responder->0.text()
    } else {
        ""@
    }) by {
        reveal_strlit("");
    }
    if loses_a_fifth(hops[k]) {
        assert(steady_from(hops, k + 1) <==> forall|j: int|
            k < j < hops.len() && 0 < (#[trigger] hops[j]).received ==> 10 * (hops[j].sent
                - hops[j].received) < hops[j].sent);
    }
}

/// The parts of the network have different names.
proof fn lemma_segment_names()
    ensures
        "本地网络段"@ != "目标侧"@,
        "本地网络段"@ != "运营商网络"@,
        "目标侧"@ != "运营商网络"@,
{
    reveal_strlit("本地网络段");
    reveal_strlit("目标侧");
    reveal_strlit("运营商网络");
    assert("本地网络段"@[0] != "运营商网络"@[0]);
}

/// A clean route to a target that answers is told with the number of its hops and the
/// average round trip of the last one.
pub proof fn law_clean_route_is_told(hops: Seq<HopStat>, target: Ipv4Addr, evidence: bool)
    requires
        hops.len() > 0,
        forall|k: int| 0 <= k < hops.len() ==> (#[trigger] hops[k]).received <= hops[k].sent,
        forall|k: int|
            #![trigger hops[k]]
            0 <= k < hops.len() ==> !loses_a_fifth(hops[k]) && !slows_down(hops, k),
    ensures
        fate(hops, true, target, evidence) == Fate::Clean(
            "到目标的 "@ + text::dec(hops.len()) + " 跳链路未见明显丢包或时延突增，全程平均时延 "@ + binary64::fixed0(
                hops[hops.len() - 1].avg_ms@,
            ) + "ms"@,
        ),
{
    law_any_faulty_hop_is_a_bottleneck(hops, target, evidence);
}

/// Where the target does not answer and nothing else shows that the network works, the
/// route is broken. The break lies behind hop `k` where that one answers and none
/// behind it does; it is named with its number, its address and its part of the
/// network.
pub proof fn law_break_is_behind_last_answer(hops: Seq<HopStat>, k: int, target: Ipv4Addr)
    requires
        0 <= k < hops.len(),
        hops[k].received > 0,
        forall|j: int| k < j < hops.len() ==> (#[trigger] hops[j]).received == 0,
    ensures
        ({
            let who = blamed_at(hops, k, target);
            fate(hops, false, target, false) == Fate::Unreachable(
                "到目标 "@ + target.text() + " 的链路在第 "@ + text::dec(hops[k].ttl as nat + 1)
                    + " 跳之后中断，最后可达节点为第 "@ + text::dec(hops[k].ttl as nat) + " 跳 "@ + (
                if hops[k].responder is Some {
                    hops[k].responder->0.text()
                } else {
                    ""@
                }) + "（"@ + who + "）"@,
                if who == "本地网络段"@ {
                    "断点在本地网络段，检查本机路由器 / 上级路由的配置与连线"@
                } else {
                    "断点在运营商网络内，建议联系运营商报修并附上本报告"@
                },
            )
        }),
{
    law_break_behind_last_answer(hops);
    let i = last_answer(hops);
    assert(trace::answered_from(hops, 0));
    assert(i is Some);
    assert(i->0 == k) by {
        if i->0 < k {
            assert(trace::answered_from(hops, i->0 + 1));
        }
        if i->0 > k {
            assert(hops[i->0].received == 0);
        }
    }
    lemma_segment_names();
    reveal_strlit("");
    assert(address_text(hops[k]) =~= if hops[k].responder is Some {
        hops[k].responder->0.text()
    } else {
        ""@
    });
}

/// Where the target does not answer, the route is broken exactly where nothing else
/// shows that the network works; it then never has a bottleneck. Where no hop
/// answers either, the break is said to be at the first one.
pub proof fn law_silent_target(hops: Seq<HopStat>, target: Ipv4Addr, evidence: bool)
    ensures
        evidence ==> fate(hops, false, target, evidence) is Clean,
        !evidence ==> fate(hops, false, target, evidence) is Unreachable,
        hops.len() == 0 ==> fate(hops, true, target, evidence) == fate(
            hops,
            false,
            target,
            evidence,
        ),
        !evidence && hops.len() > 0 && (forall|k: int|
            0 <= k < hops.len() ==> (#[trigger] hops[k]).received == 0) ==> fate(
            hops,
            false,
            target,
            evidence,
        ) == Fate::Unreachable(
            "链路从第 1 跳起即中断，没有任何中间节点应答"@,
            "若网关 ping 正常，问题在网关之后（运营商侧或上级路由）；请联系运营商报修"@,
        ),
        !evidence && hops.len() == 0 ==> (fate(hops, false, target, evidence)
            matches Fate::Unreachable(msg, _) && text::holds(msg, target.text())),
{
    law_break_behind_last_answer(hops);
    if hops.len() == 0 {
        let t = target.text();
        text::lemma_holds_itself(t);
        text::lemma_holds_concat("逐跳探测没有任何数据，目标 "@, t, t);
        text::lemma_holds_concat("逐跳探测没有任何数据，目标 "@ + t, " 不可达"@, t);
    }
}

/// Where the target does not answer but other evidence shows that the network works, that
/// is said, and ICMP is said to be blocked exactly where no hop answers either.
pub proof fn law_blocked_pings_are_told(hops: Seq<HopStat>, target: Ipv4Addr)
    ensures
        fate(hops, false, target, true) matches Fate::Clean(m) && {
            &&& text::holds(m, "TCP / HTTP / DNS 验证链路实际可达"@)
            &&& (exists|k: int| 0 <= k < hops.len() && (#[trigger] hops[k]).received > 0)
                ==> text::holds(m, target.text())
            &&& !(exists|k: int| 0 <= k < hops.len() && (#[trigger] hops[k]).received > 0)
                ==> text::holds(m, "ICMP 被屏蔽"@)
        },
{
    let words = "TCP / HTTP / DNS 验证链路实际可达"@;
    reveal_strlit("TCP / HTTP / DNS 验证链路实际可达");
    reveal_strlit("ICMP 被屏蔽");
    reveal_strlit("ICMP 被屏蔽，逐跳探测无数据，但 TCP / HTTP / DNS 验证链路实际可达");
    reveal_strlit("ICMP 被屏蔽，逐跳探测无任何节点应答，但 TCP / HTTP / DNS 验证链路实际可达");
    reveal_strlit(" 不回应 ICMP，但 TCP / HTTP / DNS 验证链路实际可达（中间部分节点也不回 ICMP）");
    let a = "ICMP 被屏蔽，逐跳探测无数据，但 TCP / HTTP / DNS 验证链路实际可达"@;
    let b = "ICMP 被屏蔽，逐跳探测无任何节点应答，但 TCP / HTTP / DNS 验证链路实际可达"@;
    let c = " 不回应 ICMP，但 TCP / HTTP / DNS 验证链路实际可达（中间部分节点也不回 ICMP）"@;
    let n = words.len() as int;
    assert(a.subrange(19, 19 + n) =~= words);
    assert(b.subrange(23, 23 + n) =~= words);
    assert(c.subrange(12, 12 + n) =~= words);
    assert(a.subrange(0, 0int + "ICMP 被屏蔽"@.len()) =~= "ICMP 被屏蔽"@);
    assert(b.subrange(0, 0int + "ICMP 被屏蔽"@.len()) =~= "ICMP 被屏蔽"@);
    let t = target.text();
    text::lemma_holds_itself(t);
    text::lemma_holds_concat("目标 "@, t, t);
    text::lemma_holds_concat("目标 "@ + t, c, t);
    text::lemma_holds_concat("目标 "@ + t, c, words);
}

/// A verdict is the fate of its route, in the same words.
pub proof fn law_verdict_tells_the_fate(
    hops: &[HopStat],
    target_reachable: bool,
    target: Ipv4Addr,
    evidence: bool,
    r: RouteVerdict,
)
    requires
        call_ensures(analyze_route, (hops, target_reachable, target, evidence), r),
    ensures
        match r {
            RouteVerdict::Clean(m) => fate(hops@, target_reachable, target, evidence)
                == Fate::Clean(m@),
            RouteVerdict::Bottleneck { msg, suggestion } => fate(
                hops@,
                target_reachable,
                target,
                evidence,
            ) == Fate::Bottleneck(msg@, suggestion@),
            RouteVerdict::Unreachable { msg, suggestion } => fate(
                hops@,
                target_reachable,
                target,
                evidence,
            ) == Fate::Unreachable(msg@, suggestion@),
        },
{
}

} // verus!
