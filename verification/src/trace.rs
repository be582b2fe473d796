//! Ping statistics and the route to a target, hop by hop.
//!
//! A probe whose TTL is N runs out at the N-th router on the way, which answers
//! and thereby shows itself. Several probes for every hop give its losses and
//! round trips.

use crate::addr::Ipv4Addr;
use crate::binary64;
use crate::binary64::Binary64;
use crate::icmp::{Reply, IP_SUCCESS};
use crate::rounding;
use crate::text;
use vstd::arithmetic::power2::*;
use vstd::prelude::*;

verus! {

/// The TTL of a probe that is meant for the target itself.
pub const FULL_TTL: u8 = 255;

/// What a series of pings came to.
#[derive(Clone, Copy, Debug)]
pub struct PingStats {
    pub sent: u32,
    pub received: u32,
    pub min_ms: u32,
    pub max_ms: u32,
    pub avg_ms: Binary64,
}

/// The numbers of a series of pings; `avg` in units of 2^-1074.
pub ghost struct Pings {
    pub sent: nat,
    pub received: nat,
    pub min: nat,
    pub max: nat,
    pub avg: nat,
}

/// The share of lost pings, in percent.
pub open spec fn loss(sent: nat, received: nat) -> nat {
    binary64::quotient_percent((sent - received) as nat, sent)
}

/// A series of pings in words.
pub open spec fn stats_text(p: Pings) -> Seq<char> {
    if p.received == 0 {
        "收到 0/"@ + text::dec(p.sent) + " 个应答，丢包 100%"@
    } else {
        "收到 "@ + text::dec(p.received) + "/"@ + text::dec(p.sent) + " 个应答，丢包 "@
            + binary64::fixed1(loss(p.sent, p.received)) + "%，平均 "@ + binary64::fixed1(p.avg)
            + "ms（最小 "@ + text::dec(p.min) + " / 最大 "@ + text::dec(p.max) + "ms）"@
    }
}

impl Default for PingStats {
    fn default() -> (r: Self)
        ensures
            r@ == (Pings { sent: 0, received: 0, min: 0, max: 0, avg: 0 }),
    {
        PingStats { sent: 0, received: 0, min_ms: 0, max_ms: 0, avg_ms: Binary64::zero() }
    }
}

impl PingStats {
    /// The numbers of the series.
    pub open spec fn view(&self) -> Pings {
        Pings {
            sent: self.sent as nat,
            received: self.received as nat,
            min: self.min_ms as nat,
            max: self.max_ms as nat,
            avg: self.avg_ms@,
        }
    }

    /// No more answers than pings.
    pub open spec fn wf(&self) -> bool {
        self.received <= self.sent
    }

    /// The share of lost pings, in percent.
    pub fn loss_pct(&self) -> (r: Binary64)
        requires
            self.wf(),
        ensures
            r@ == loss(self.sent as nat, self.received as nat),
    {
        Binary64::quotient_percent(self.sent - self.received, self.sent)
    }
}

/// Says in words what a series of pings came to.
pub fn fmt_stats(s: &PingStats) -> (t: String)
    requires
        s.wf(),
    ensures
        t@ == stats_text(s@),
{
    if s.received == 0 {
        let mut t = "收到 0/".to_string();
        t.append(text::decimal(s.sent as u128).as_str());
        t.append(" 个应答，丢包 100%");
        t
    } else {
        let mut t = "收到 ".to_string();
        t.append(text::decimal(s.received as u128).as_str());
        t.append("/");
        t.append(text::decimal(s.sent as u128).as_str());
        t.append(" 个应答，丢包 ");
        t.append(s.loss_pct().fixed1().as_str());
        t.append("%，平均 ");
        t.append(s.avg_ms.fixed1().as_str());
        t.append("ms（最小 ");
        t.append(text::decimal(s.min_ms as u128).as_str());
        t.append(" / 最大 ");
        t.append(text::decimal(s.max_ms as u128).as_str());
        t.append("ms）");
        t
    }
}

/// The share of lost pings lies between 0 and 100 percent; it is 0 exactly where
/// all were answered, and 100 exactly where none was.
pub proof fn law_loss_in_percent(sent: nat, received: nat)
    requires
        received <= sent,
        0 < sent <= u32::MAX,
    ensures
        loss(sent, received) <= 100 * rounding::one(),
        loss(sent, received) == 0 <==> received == sent,
        loss(sent, received) == 100 * rounding::one() <==> received == 0,
{
    binary64::law_percent((sent - received) as nat, sent);
}

/// The smallest of the round trips, 0 where there are none.
pub open spec fn least(rtts: Seq<u32>) -> nat
    decreases rtts.len(),
{
    if rtts.len() == 0 {
        0
    } else if rtts.len() == 1 || rtts.last() < least(rtts.drop_last()) {
        rtts.last() as nat
    } else {
        least(rtts.drop_last())
    }
}

/// The largest of the round trips, 0 where there are none.
pub open spec fn greatest(rtts: Seq<u32>) -> nat
    decreases rtts.len(),
{
    if rtts.len() == 0 {
        0
    } else if rtts.last() > greatest(rtts.drop_last()) {
        rtts.last() as nat
    } else {
        greatest(rtts.drop_last())
    }
}

/// The sum of the round trips, rounded after every addition.
pub open spec fn rounded_sum(rtts: Seq<u32>) -> nat
    decreases rtts.len(),
{
    if rtts.len() == 0 {
        0
    } else {
        rounding::nearest(
            rounded_sum(rtts.drop_last()) + rtts.last() as nat * rounding::one(),
            1,
        )
    }
}

/// What `sent` pings with these round trips come to.
pub open spec fn summary(rtts: Seq<u32>, sent: nat) -> Pings {
    Pings {
        sent,
        received: rtts.len(),
        min: least(rtts),
        max: greatest(rtts),
        avg: if rtts.len() == 0 {
            0
        } else {
            rounding::nearest(rounded_sum(rtts), rtts.len())
        },
    }
}

/// A sum of `n` round trips is at most `n * 2^32` and, unless it is zero, at least one.
proof fn lemma_sum_bounds(rtts: Seq<u32>)
    requires
        rtts.len() < 0x1_0000_0000,
    ensures
        rounded_sum(rtts) <= rtts.len() * pow2(1106),
        rounded_sum(rtts) == 0 || rounded_sum(rtts) >= rounding::one(),
    decreases rtts.len(),
{
    let u = rounding::one();
    lemma2_to64();
    lemma_pow2_adds(32, 1074);
    lemma_pow2_pos(1074);
    if rtts.len() > 0 {
        let init = rtts.drop_last();
        lemma_sum_bounds(init);
        let n = rtts.len();
        let r = rtts.last() as nat;
        let s = rounded_sum(init) + r * u;
        assert(r * u <= pow2(1106)) by (nonlinear_arith)
            requires
                r < 0x1_0000_0000,
                pow2(1106) == 0x1_0000_0000 * u,
        ;
        assert(s <= n * pow2(1106)) by (nonlinear_arith)
            requires
                s <= (n - 1) * pow2(1106) + pow2(1106),
        ;
        rounding::lemma_nearest_exact(n, 1106);
        assert(s * 1 <= (n * pow2(1106)) * 1);
        rounding::lemma_nearest_monotone(s, 1, n * pow2(1106), 1);
        if s == 0 {
            rounding::lemma_nearest_zero(1);
        } else {
            assert(s >= u) by (nonlinear_arith)
                requires
                    s == rounded_sum(init) + r * u,
                    rounded_sum(init) >= u || rounded_sum(init) == 0,
                    s > 0,
            ;
            rounding::lemma_nearest_exact(1, 1074);
            assert(u * 1 <= s * 1);
            rounding::lemma_nearest_monotone(u, 1, s, 1);
        }
    } else {
        assert(0 * pow2(1106) == 0) by (nonlinear_arith);
    }
}

/// Sums up the round trips of `sent` pings.
pub fn stats_from(rtts: &Vec<u32>, sent: u32) -> (r: PingStats)
    requires
        rtts.len() <= u32::MAX,
    ensures
        r@ == summary(rtts@, sent as nat),
        rtts@.len() <= sent ==> r.wf(),
{
    if rtts.len() == 0 {
        return PingStats { sent, received: 0, min_ms: 0, max_ms: 0, avg_ms: Binary64::zero() };
    }
    let mut min: u32 = rtts[0];
    let mut max: u32 = rtts[0];
    let mut sum = Binary64::zero();
    let mut i: usize = 0;
    assert(rtts@.take(1).drop_last() == Seq::<u32>::empty());
    while i < rtts.len()
        invariant
            i <= rtts.len() <= u32::MAX,
            rtts.len() > 0,
            i == 0 ==> min == rtts[0] && max == rtts[0],
            i > 0 ==> min == least(rtts@.take(i as int)),
            i > 0 ==> max == greatest(rtts@.take(i as int)),
            sum@ == rounded_sum(rtts@.take(i as int)),
        decreases rtts.len() - i,
    {
        let x = rtts[i];
        proof {
            let t = rtts@.take(i + 1);
            assert(t.drop_last() == rtts@.take(i as int));
            assert(t.last() == x);
            if i == 0 {
                assert(t.drop_last() == Seq::<u32>::empty());
                assert(greatest(Seq::<u32>::empty()) == 0);
            }
            lemma_sum_bounds(t.drop_last());
            let u = rounding::one();
            lemma2_to64();
            lemma_pow2_adds(32, 1074);
            lemma_pow2_adds(32, 1106);
            assert(i as nat * pow2(1106) + x as nat * u <= binary64::largest()) by (nonlinear_arith)
                requires
                    i + 1 <= 0x1_0000_0000,
                    x < 0x1_0000_0000,
                    pow2(1106) == 0x1_0000_0000 * u,
                    binary64::largest() == 0x1_0000_0000 * pow2(1106),
            ;
        }
        if x < min {
            min = x;
        }
        if x > max {
            max = x;
        }
        sum = sum.plus(Binary64::from_integer(x as u64));
        i = i + 1;
    }
    proof {
        assert(rtts@.take(i as int) == rtts@);
        lemma_sum_bounds(rtts@);
    }
    PingStats {
        sent,
        received: rtts.len() as u32,
        min_ms: min,
        max_ms: max,
        avg_ms: sum.over(rtts.len() as u32),
    }
}

/// The plain sum of the round trips.
pub open spec fn total(rtts: Seq<u32>) -> nat
    decreases rtts.len(),
{
    if rtts.len() == 0 {
        0
    } else {
        total(rtts.drop_last()) + rtts.last() as nat
    }
}

proof fn lemma_sum_exact(rtts: Seq<u32>)
    requires
        total(rtts) < 0x20_0000_0000_0000,
    ensures
        rounded_sum(rtts) == total(rtts) * rounding::one(),
    decreases rtts.len(),
{
    let u = rounding::one();
    if rtts.len() > 0 {
        lemma_sum_exact(rtts.drop_last());
        let a = total(rtts.drop_last());
        let b = rtts.last() as nat;
        assert(a * u + b * u == (a + b) * u) by (nonlinear_arith);
        rounding::lemma_nearest_exact(a + b, 1074);
    } else {
        assert(0 * u == 0) by (nonlinear_arith);
    }
}

proof fn lemma_extremes(rtts: Seq<u32>)
    ensures
        forall|i: int| 0 <= i < rtts.len() ==> least(rtts) <= #[trigger] rtts[i] <= greatest(rtts),
        least(rtts) * rtts.len() <= total(rtts) <= greatest(rtts) * rtts.len(),
        rtts.len() > 0 ==> exists|i: int| 0 <= i < rtts.len() && #[trigger] rtts[i] == least(rtts),
        rtts.len() > 0 ==> exists|i: int|
            0 <= i < rtts.len() && #[trigger] rtts[i] == greatest(rtts),
    decreases rtts.len(),
{
    if rtts.len() > 0 {
        let init = rtts.drop_last();
        lemma_extremes(init);
        let n = init.len();
        let (a, b) = (least(init), greatest(init));
        let (c, d) = (least(rtts), greatest(rtts));
        assert(rtts[n as int] == rtts.last());
        assert forall|i: int| 0 <= i < rtts.len() implies c <= #[trigger] rtts[i] <= d by {
            if i < n {
                assert(init[i] == rtts[i]);
            }
        }
        if n > 0 {
            let i = choose|i: int| 0 <= i < init.len() && #[trigger] init[i] == a;
            let j = choose|i: int| 0 <= i < init.len() && #[trigger] init[i] == b;
            assert(rtts[i] == init[i] && rtts[j] == init[j]);
            assert(c * (n + 1) <= a * n + rtts.last() as nat) by (nonlinear_arith)
                requires
                    c <= a,
                    c <= rtts.last() as nat,
            ;
            assert(d * (n + 1) >= b * n + rtts.last() as nat) by (nonlinear_arith)
                requires
                    d >= b,
                    d >= rtts.last() as nat,
            ;
        } else {
            assert(init =~= Seq::<u32>::empty());
            assert(greatest(init) == 0 && total(init) == 0);
        }
    } else {
        assert(total(rtts) == 0 && least(rtts) == 0 && greatest(rtts) == 0);
    }
}

/// The average of the round trips is the binary64 number nearest to their true
/// average, and lies between the smallest and the largest of them. A sum of
/// 2^53 ms or more is left out: there the additions themselves round.
pub proof fn law_average_between_extremes(rtts: Seq<u32>, sent: nat)
    requires
        rtts.len() > 0,
        total(rtts) < 0x20_0000_0000_0000,
    ensures
        summary(rtts, sent).avg == rounding::nearest(total(rtts) * rounding::one(), rtts.len()),
        summary(rtts, sent).min * rounding::one() <= summary(rtts, sent).avg,
        summary(rtts, sent).avg <= summary(rtts, sent).max * rounding::one(),
        forall|i: int|
            0 <= i < rtts.len() ==> summary(rtts, sent).min <= #[trigger] rtts[i] <= summary(
                rtts,
                sent,
            ).max,
        exists|i: int| 0 <= i < rtts.len() && #[trigger] rtts[i] == summary(rtts, sent).min,
        exists|i: int| 0 <= i < rtts.len() && #[trigger] rtts[i] == summary(rtts, sent).max,
{
    lemma_sum_exact(rtts);
    lemma_extremes(rtts);
    let u = rounding::one();
    let n = rtts.len();
    let (lo, hi, t) = (least(rtts), greatest(rtts), total(rtts));
    rounding::lemma_nearest_exact(lo, 1074);
    rounding::lemma_nearest_exact(hi, 1074);
    assert((lo * u) * n <= (t * u) * 1) by (nonlinear_arith)
        requires
            lo * n <= t,
    ;
    assert((t * u) * 1 <= (hi * u) * n) by (nonlinear_arith)
        requires
            t <= hi * n,
    ;
    rounding::lemma_nearest_monotone(lo * u, 1, t * u, n);
    rounding::lemma_nearest_monotone(t * u, n, hi * u, 1);
}

/// Whether a probe was answered by its target or, where hops count, by a router
/// on the way.
pub open spec fn counts(r: Reply, hops: bool) -> bool {
    r.status == IP_SUCCESS || (hops && r.from_hop())
}

/// The replies that count, in order. A probe that could not be sent has none.
pub open spec fn counted(replies: Seq<Option<Reply>>, hops: bool) -> Seq<Reply>
    decreases replies.len(),
{
    if replies.len() == 0 {
        Seq::empty()
    } else {
        let init = counted(replies.drop_last(), hops);
        match replies.last() {
            Some(r) => if counts(r, hops) {
                init.push(r)
            } else {
                init
            },
            None => init,
        }
    }
}

/// The round trips of the replies.
pub open spec fn round_trips(replies: Seq<Reply>) -> Seq<u32> {
    replies.map_values(|r: Reply| r.rtt_ms)
}

/// How many of the replies came from the target.
pub open spec fn arrivals(replies: Seq<Reply>) -> nat
    decreases replies.len(),
{
    if replies.len() == 0 {
        0
    } else {
        arrivals(replies.drop_last()) + if replies.last().status == IP_SUCCESS {
            1nat
        } else {
            0nat
        }
    }
}

/// How many of the replies came from `x`.
pub open spec fn votes(replies: Seq<Reply>, x: Ipv4Addr) -> nat
    decreases replies.len(),
{
    if replies.len() == 0 {
        0
    } else {
        votes(replies.drop_last(), x) + if replies.last().responder == x {
            1nat
        } else {
            0nat
        }
    }
}

/// Keeps the replies that count.
fn keep(replies: &Vec<Option<Reply>>, hops: bool) -> (kept: Vec<Reply>)
    ensures
        kept@ == counted(replies@, hops),
        kept.len() <= replies.len(),
{
    let mut kept: Vec<Reply> = Vec::new();
    let mut i: usize = 0;
    while i < replies.len()
        invariant
            i <= replies.len(),
            kept@ == counted(replies@.take(i as int), hops),
            kept.len() <= i,
        decreases replies.len() - i,
    {
        assert(replies@.take(i + 1).drop_last() == replies@.take(i as int));
        if let Some(r) = replies[i] {
            if r.status == IP_SUCCESS || (hops && r.is_hop_reply()) {
                kept.push(r);
            }
        }
        i = i + 1;
    }
    assert(replies@.take(i as int) == replies@);
    kept
}

/// Lists the round trips of the replies.
fn list_round_trips(replies: &Vec<Reply>) -> (v: Vec<u32>)
    ensures
        v@ == round_trips(replies@),
{
    let mut v: Vec<u32> = Vec::new();
    let mut i: usize = 0;
    while i < replies.len()
        invariant
            i <= replies.len(),
            v@ == round_trips(replies@).take(i as int),
        decreases replies.len() - i,
    {
        v.push(replies[i].rtt_ms);
        i = i + 1;
    }
    assert(round_trips(replies@).take(i as int) == round_trips(replies@));
    v
}

/// Sums up the pings of one target: the replies of `replies.len()` probes.
pub fn ping_stats(replies: &Vec<Option<Reply>>) -> (r: PingStats)
    requires
        replies.len() <= u32::MAX,
    ensures
        r@ == summary(round_trips(counted(replies@, false)), replies@.len()),
        r.wf(),
{
    let kept = keep(replies, false);
    let rtts = list_round_trips(&kept);
    stats_from(&rtts, replies.len() as u32)
}

/// What the probes of one hop came to.
#[derive(Clone, Debug)]
pub struct HopStat {
    pub ttl: u8,
    /// Who answered most often, where there are several paths.
    pub responder: Option<Ipv4Addr>,
    /// Everyone who answered, in ascending order.
    pub responders: Vec<Ipv4Addr>,
    pub sent: u32,
    pub received: u32,
    pub min_ms: u32,
    pub max_ms: u32,
    pub avg_ms: Binary64,
    /// How often the target itself answered; then the route ends here.
    pub reached_dest: u32,
}

impl HopStat {
    /// No more answers than probes.
    pub open spec fn wf(&self) -> bool {
        self.received <= self.sent
    }

    /// The probes of the hop as a series of pings.
    pub open spec fn pings(&self) -> Pings {
        Pings {
            sent: self.sent as nat,
            received: self.received as nat,
            min: self.min_ms as nat,
            max: self.max_ms as nat,
            avg: self.avg_ms@,
        }
    }

    /// The hop sums up these probes.
    pub open spec fn sums_up(&self, ttl: u8, replies: Seq<Option<Reply>>) -> bool {
        let kept = counted(replies, true);
        &&& self.ttl == ttl
        &&& self.pings() == summary(round_trips(kept), replies.len())
        &&& self.reached_dest == arrivals(kept)
        &&& self.responder is Some <==> kept.len() > 0
        &&& self.responder matches Some(x) ==> forall|y: Ipv4Addr|
            votes(kept, x) >= #[trigger] votes(kept, y)
        &&& forall|x: Ipv4Addr| self.responders@.contains(x) <==> #[trigger] votes(kept, x) > 0
        &&& forall|i: int, j: int|
            0 <= i < j < self.responders@.len() ==> (#[trigger] self.responders@[i]).number() < (
            #[trigger] self.responders@[j]).number()
    }

    /// The share of lost probes, in percent.
    pub fn loss_pct(&self) -> (r: Binary64)
        requires
            self.wf(),
        ensures
            r@ == loss(self.sent as nat, self.received as nat),
    {
        Binary64::quotient_percent(self.sent - self.received, self.sent)
    }
}

/// Counts the replies from `x`.
fn count_votes(replies: &Vec<Reply>, x: Ipv4Addr) -> (n: usize)
    ensures
        n == votes(replies@, x),
{
    let mut n: usize = 0;
    let mut i: usize = 0;
    while i < replies.len()
        invariant
            i <= replies.len(),
            n == votes(replies@.take(i as int), x),
            n <= i,
        decreases replies.len() - i,
    {
        assert(replies@.take(i + 1).drop_last() == replies@.take(i as int));
        if replies[i].responder == x {
            n = n + 1;
        }
        i = i + 1;
    }
    assert(replies@.take(i as int) == replies@);
    n
}

/// Counts the replies from the target.
fn count_arrivals(replies: &Vec<Reply>) -> (n: usize)
    ensures
        n == arrivals(replies@),
        n <= replies.len(),
{
    let mut n: usize = 0;
    let mut i: usize = 0;
    while i < replies.len()
        invariant
            i <= replies.len(),
            n == arrivals(replies@.take(i as int)),
            n <= i,
        decreases replies.len() - i,
    {
        assert(replies@.take(i + 1).drop_last() == replies@.take(i as int));
        if replies[i].status == IP_SUCCESS {
            n = n + 1;
        }
        i = i + 1;
    }
    assert(replies@.take(i as int) == replies@);
    n
}

/// In ascending order, nothing twice.
spec fn ascending(v: Seq<Ipv4Addr>) -> bool {
    forall|i: int, j: int|
        0 <= i < j < v.len() ==> (#[trigger] v[i]).number() < (#[trigger] v[j]).number()
}

/// Puts `x` in its place, unless it is there already.
fn insert_ascending(v: &mut Vec<Ipv4Addr>, x: Ipv4Addr)
    requires
        ascending(old(v)@),
    ensures
        ascending(final(v)@),
        forall|y: Ipv4Addr| #[trigger]
            final(v)@.contains(y) <==> old(v)@.contains(y) || y == x,
{
    let n: u32 = x.to_number();
    let mut i: usize = 0;
    while i < v.len() && v[i].to_number() < n
        invariant
            i <= v.len(),
            n == x.number(),
            v@ == old(v)@,
            ascending(v@),
            forall|k: int| 0 <= k < i ==> (#[trigger] v@[k]).number() < n,
        decreases v.len() - i,
    {
        i = i + 1;
    }
    if i < v.len() && v[i].to_number() == n {
        proof {
            crate::addr::lemma_number_injective(v@[i as int], x);
            assert(v@.contains(x));
        }
        return;
    }
    v.insert(i, x);
    proof {
        let a = old(v)@;
        let b = v@;
        assert(b == a.insert(i as int, x));
        assert forall|y: Ipv4Addr| #[trigger] b.contains(y) <==> a.contains(y) || y == x by {
            if a.contains(y) {
                let k = choose|k: int| 0 <= k < a.len() && a[k] == y;
                if k < i {
                    assert(b[k] == y);
                } else {
                    assert(b[k + 1] == y);
                }
            }
            if y == x {
                assert(b[i as int] == x);
            }
            if b.contains(y) && y != x {
                let k = choose|k: int| 0 <= k < b.len() && b[k] == y;
                if k < i {
                    assert(a[k] == y);
                } else {
                    assert(a[k - 1] == y);
                }
            }
        }
        assert forall|j: int, k: int| 0 <= j < k < b.len() implies (#[trigger] b[j]).number() < (
        #[trigger] b[k]).number() by {
            if j < i && k > i {
                assert(a[j].number() < a[k - 1].number());
            }
            if k == i {
                assert(a[j].number() < n);
            }
            if j == i {
                assert(a[i as int].number() > n);
                if k > i + 1 {
                    assert(a[i as int].number() < a[k - 1].number());
                }
            }
        }
    }
}

/// Lists everyone who answered, in ascending order.
fn list_responders(replies: &Vec<Reply>) -> (v: Vec<Ipv4Addr>)
    ensures
        ascending(v@),
        forall|x: Ipv4Addr| v@.contains(x) <==> #[trigger] votes(replies@, x) > 0,
{
    let mut v: Vec<Ipv4Addr> = Vec::new();
    let mut i: usize = 0;
    while i < replies.len()
        invariant
            i <= replies.len(),
            ascending(v@),
            forall|x: Ipv4Addr|
                v@.contains(x) <==> #[trigger] votes(replies@.take(i as int), x) > 0,
        decreases replies.len() - i,
    {
        let ghost before = v@;
        insert_ascending(&mut v, replies[i].responder);
        proof {
            assert(replies@.take(i + 1).drop_last() == replies@.take(i as int));
            assert forall|x: Ipv4Addr|
                v@.contains(x) <==> #[trigger] votes(replies@.take(i + 1), x) > 0 by {
                assert(before.contains(x) <==> votes(replies@.take(i as int), x) > 0);
            }
        }
        i = i + 1;
    }
    assert(replies@.take(i as int) == replies@);
    v
}

/// Sums up the probes of the hop at `ttl`.
pub fn hop_stat(ttl: u8, replies: &Vec<Option<Reply>>) -> (h: HopStat)
    requires
        replies.len() <= u32::MAX,
    ensures
        h.sums_up(ttl, replies@),
        h.wf(),
{
    let kept = keep(replies, true);
    let responders = list_responders(&kept);
    let mut responder: Option<Ipv4Addr> = None;
    let mut most: usize = 0;
    let mut i: usize = 0;
    while i < responders.len()
        invariant
            i <= responders.len(),
            forall|x: Ipv4Addr| responders@.contains(x) <==> #[trigger] votes(kept@, x) > 0,
            i > 0 ==> responder is Some,
            responder is None ==> i == 0 && most == 0,
            responder matches Some(x) ==> most == votes(kept@, x) && most > 0,
            forall|k: int| 0 <= k < i ==> most >= votes(kept@, #[trigger] responders@[k]),
        decreases responders.len() - i,
    {
        let n = count_votes(&kept, responders[i]);
        proof {
            assert(responders@.contains(responders@[i as int]));
        }
        if n > most {
            most = n;
            responder = Some(responders[i]);
        }
        i = i + 1;
    }
    proof {
        if kept@.len() > 0 {
            assert(votes(kept@, kept@.last().responder) > 0);
            assert(responders@.contains(kept@.last().responder));
        }
        if let Some(x) = responder {
            assert forall|y: Ipv4Addr| votes(kept@, x) >= #[trigger] votes(kept@, y) by {
                if votes(kept@, y) > 0 {
                    assert(responders@.contains(y));
                    let k = choose|k: int| 0 <= k < responders@.len() && responders@[k] == y;
                    assert(most >= votes(kept@, responders@[k]));
                }
            }
            assert(kept@.len() > 0);
        }
    }
    let rtts = list_round_trips(&kept);
    let stats = stats_from(&rtts, replies.len() as u32);
    HopStat {
        ttl,
        responder,
        responders,
        sent: stats.sent,
        received: stats.received,
        min_ms: stats.min_ms,
        max_ms: stats.max_ms,
        avg_ms: stats.avg_ms,
        reached_dest: count_arrivals(&kept) as u32,
    }
}

/// A route that is being explored: TTL by TTL, until the target answers or
/// `max_hops` is passed.
#[derive(Debug)]
pub struct Route {
    hops: Vec<HopStat>,
    ttl: u16,
    max_hops: u8,
    ended: bool,
}

impl Route {
    /// The hops found so far.
    pub closed spec fn hops(&self) -> Seq<HopStat> {
        self.hops@
    }

    /// The TTL to probe next; `None` where the exploration is over.
    pub closed spec fn next(&self) -> Option<u8> {
        if self.ended || self.ttl > self.max_hops {
            None
        } else {
            Some(self.ttl as u8)
        }
    }

    /// The largest TTL that is probed.
    pub closed spec fn limit(&self) -> u8 {
        self.max_hops
    }

    /// Every hop was probed once, in ascending order of TTL, and only the last
    /// one can be the target, where the exploration ends.
    pub closed spec fn wf(&self) -> bool {
        &&& 1 <= self.ttl <= self.max_hops + 1
        &&& ordered(self.hops@)
        &&& forall|i: int| 0 <= i < self.hops@.len() ==> (#[trigger] self.hops@[i]).ttl < self.ttl
        &&& self.ended <==> (self.hops@.len() > 0 && self.hops@.last().reached_dest > 0)
    }

    /// A route of which nothing is known.
    pub fn new(max_hops: u8) -> (r: Self)
        ensures
            r.wf(),
            r.hops() == Seq::<HopStat>::empty(),
            r.limit() == max_hops,
            r.next() == if max_hops == 0 {
                None
            } else {
                Some(1u8)
            },
    {
        Route { hops: Vec::new(), ttl: 1, max_hops, ended: false }
    }

    /// The TTL to probe next; `None` where the exploration is over.
    pub fn next_ttl(&self) -> (r: Option<u8>)
        requires
            self.wf(),
        ensures
            r == self.next(),
    {
        if self.ended || self.ttl > self.max_hops as u16 {
            None
        } else {
            Some(self.ttl as u8)
        }
    }

    /// Takes in what the probes at the next TTL came to; `None` where they could
    /// not be sent.
    pub fn record(&mut self, stat: Option<HopStat>)
        requires
            old(self).wf(),
            old(self).next() is Some,
            stat matches Some(h) ==> h.wf() && old(self).next() == Some(h.ttl),
        ensures
            final(self).wf(),
            recorded(*old(self), stat, *final(self)),
    {
        if let Some(h) = stat {
            self.ended = h.reached_dest > 0;
            self.hops.push(h);
        }
        self.ttl = self.ttl + 1;
    }

    /// The hops found.
    pub fn into_hops(self) -> (v: Vec<HopStat>)
        requires
            self.wf(),
        ensures
            v@ == self.hops(),
            ordered(v@),
            numbered_to(v@, self.limit()),
    {
        self.hops
    }
}

/// What the probes at the next TTL came to is taken in: the hop is added, and the
/// exploration goes on with the TTL behind it, unless the target answered or the
/// limit is reached.
pub open spec fn recorded(a: Route, stat: Option<HopStat>, b: Route) -> bool {
    &&& b.limit() == a.limit()
    &&& b.hops() == match stat {
        Some(h) => a.hops().push(h),
        None => a.hops(),
    }
    &&& b.next() == if a.next() == Some(a.limit()) || reaches(stat) {
        None
    } else {
        Some((a.next()->0 + 1) as u8)
    }
}

/// The target itself answered.
pub open spec fn reaches(stat: Option<HopStat>) -> bool {
    stat matches Some(h) && h.reached_dest > 0
}

/// An exploration from its start: each of `stats` is what the probes at the next TTL
/// came to.
pub open spec fn explored(routes: Seq<Route>, stats: Seq<Option<HopStat>>) -> bool {
    &&& routes.len() == stats.len() + 1
    &&& routes[0].hops() == Seq::<HopStat>::empty()
    &&& routes[0].next() == if routes[0].limit() == 0 {
        None
    } else {
        Some(1u8)
    }
    &&& forall|i: int|
        #![trigger stats[i]]
        0 <= i < stats.len() ==> {
            &&& routes[i].next() is Some
            &&& stats[i] matches Some(h) ==> routes[i].next() == Some(h.ttl)
            &&& recorded(routes[i], stats[i], routes[i + 1])
        }
}

/// The hops that could be probed, in order.
pub open spec fn found(stats: Seq<Option<HopStat>>) -> Seq<HopStat>
    decreases stats.len(),
{
    if stats.len() == 0 {
        Seq::empty()
    } else {
        match stats.last() {
            Some(h) => found(stats.drop_last()).push(h),
            None => found(stats.drop_last()),
        }
    }
}

/// A route is probed with the TTLs 1, 2, 3 and so on, none left out and none beyond
/// the limit. It is over exactly where the target answered the last probes or the
/// limit is reached; before that the target answered none. The hops are those that
/// could be probed; where all could, they have the TTLs 1, 2, 3 and so on.
pub proof fn law_route_explored_in_a_row(routes: Seq<Route>, stats: Seq<Option<HopStat>>)
    requires
        explored(routes, stats),
    ensures
        stats.len() <= routes[0].limit(),
        forall|i: int|
            #![trigger routes[i]]
            0 <= i < stats.len() ==> routes[i].next() == Some((i + 1) as u8),
        routes.last().next() is None <==> stats.len() == routes[0].limit() || (stats.len() > 0
            && reaches(stats.last())),
        routes.last().next() is Some ==> routes.last().next() == Some((stats.len() + 1) as u8),
        forall|i: int| #![trigger stats[i]] 0 <= i < stats.len() - 1 ==> !reaches(stats[i]),
        routes.last().limit() == routes[0].limit(),
        routes.last().hops() == found(stats),
        (forall|i: int| #![trigger stats[i]] 0 <= i < stats.len() ==> stats[i] is Some) ==> {
            &&& found(stats).len() == stats.len()
            &&& forall|i: int|
                0 <= i < stats.len() ==> (#[trigger] found(stats)[i]).ttl == i + 1
        },
    decreases stats.len(),
{
    if stats.len() > 0 {
        let n = stats.len() - 1;
        let (r, s) = (routes.drop_last(), stats.drop_last());
        assert forall|i: int| #![trigger s[i]] 0 <= i < s.len() implies {
            &&& r[i].next() is Some
            &&& s[i] matches Some(h) ==> r[i].next() == Some(h.ttl)
            &&& recorded(r[i], s[i], r[i + 1])
        } by {
            assert(s[i] == stats[i]);
        }
        law_route_explored_in_a_row(r, s);
        assert(stats[n] == stats.last());
        assert(r.last() == routes[n]);
        assert forall|i: int| #![trigger routes[i]] 0 <= i < stats.len() implies routes[i].next()
            == Some((i + 1) as u8) by {
            if i < n {
                assert(r[i] == routes[i]);
            }
        }
        assert forall|i: int| #![trigger stats[i]] 0 <= i < n implies !reaches(stats[i]) by {
            assert(s[i] == stats[i]);
            if i == n - 1 {
                assert(s.last() == stats[i]);
            }
        }
        if forall|i: int| #![trigger stats[i]] 0 <= i < stats.len() ==> stats[i] is Some {
            assert forall|i: int| #![trigger s[i]] 0 <= i < s.len() implies s[i] is Some by {
                assert(s[i] == stats[i]);
            }
            assert forall|i: int| 0 <= i < stats.len() implies (#[trigger] found(stats)[i]).ttl == i
                + 1 by {
                if i < n {
                    assert(found(stats)[i] == found(s)[i]);
                }
            }
        }
    }
}

/// Well-formed hops in ascending order of TTL, of which only the last one can be
/// the target.
pub open spec fn ordered(hops: Seq<HopStat>) -> bool {
    &&& forall|i: int| 0 <= i < hops.len() ==> (#[trigger] hops[i]).wf()
    &&& forall|i: int, j: int|
        0 <= i < j < hops.len() ==> (#[trigger] hops[i]).ttl < (#[trigger] hops[j]).ttl
    &&& forall|i: int| 0 <= i < hops.len() - 1 ==> (#[trigger] hops[i]).reached_dest == 0
}

/// No hop has a TTL above `max_hops`.
pub open spec fn numbered_to(hops: Seq<HopStat>, max_hops: u8) -> bool {
    forall|i: int| 0 <= i < hops.len() ==> (#[trigger] hops[i]).ttl <= max_hops
}

/// Whether the hops are in order and none has a TTL above `max_hops`.
pub fn are_ordered_to(hops: &[HopStat], max_hops: u8) -> (r: bool)
    ensures
        r == (ordered(hops@) && numbered_to(hops@, max_hops)),
{
    let mut i: usize = 0;
    while i < hops.len()
        invariant
            i <= hops@.len(),
            ordered(hops@.take(i as int)),
            numbered_to(hops@.take(i as int), max_hops),
        decreases hops.len() - i,
    {
        if hops[i].received > hops[i].sent || hops[i].ttl > max_hops {
            return false;
        }
        if i > 0 && (hops[i - 1].ttl >= hops[i].ttl || hops[i - 1].reached_dest != 0) {
            return false;
        }
        proof {
            let before = hops@.take(i as int);
            let now = hops@.take(i + 1);
            assert forall|j: int, k: int| 0 <= j < k < now.len() implies (#[trigger] now[j]).ttl < (
            #[trigger] now[k]).ttl by {
                if k == i && j < i - 1 {
                    assert(before[j].ttl < before[i - 1].ttl);
                }
                if k < i {
                    assert(before[j].ttl < before[k].ttl);
                }
            }
            assert forall|j: int| 0 <= j < now.len() implies (#[trigger] now[j]).wf() && now[j].ttl
                <= max_hops by {
                if j < i {
                    assert(before[j].wf() && before[j].ttl <= max_hops);
                }
            }
            assert forall|j: int| 0 <= j < now.len() - 1 implies (#[trigger] now[j]).reached_dest
                == 0 by {
                if j < i - 1 {
                    assert(before[j].reached_dest == 0);
                }
            }
        }
        i = i + 1;
    }
    assert(hops@.take(i as int) == hops@);
    true
}

/// All hops are well-formed.
pub open spec fn all_wf(hops: Seq<HopStat>) -> bool {
    forall|i: int| 0 <= i < hops.len() ==> (#[trigger] hops[i]).wf()
}

/// The address of a hop, or a star.
pub open spec fn node_text(h: HopStat) -> Seq<char> {
    match h.responder {
        Some(x) => x.text(),
        None => "*"@,
    }
}

/// The round trips of a hop, or a dash.
pub open spec fn delay_text(h: HopStat) -> Seq<char> {
    if h.received == 0 {
        "-"@
    } else {
        binary64::fixed1(h.avg_ms@) + " / "@ + text::dec(h.min_ms as nat) + " / "@ + text::dec(
            h.max_ms as nat,
        )
    }
}

/// The share of lost probes of a hop, in whole percent.
pub open spec fn loss_text(h: HopStat) -> Seq<char> {
    binary64::fixed0(loss(h.sent as nat, h.received as nat)) + "%"@
}

/// Some hop from `i` on answered.
pub open spec fn answered_from(hops: Seq<HopStat>, i: int) -> bool {
    exists|k: int| i <= k < hops.len() && (#[trigger] hops[k]).received > 0
}

/// What is remarkable about hop `i`.
pub open spec fn note_text(hops: Seq<HopStat>, i: int) -> Seq<char> {
    if hops[i].reached_dest > 0 {
        "  <- 目标"@
    } else if hops[i].received == 0 && answered_from(hops, i + 1) {
        "  (不回应 ICMP，但其后节点可达)"@
    } else {
        ""@
    }
}

/// Writes the address of a hop, or a star.
pub fn node(h: &HopStat) -> (t: String)
    ensures
        t@ == node_text(*h),
{
    match h.responder {
        Some(x) => x.to_text(),
        None => "*".to_string(),
    }
}

/// Writes the round trips of a hop, or a dash.
pub fn delay(h: &HopStat) -> (t: String)
    ensures
        t@ == delay_text(*h),
{
    if h.received == 0 {
        "-".to_string()
    } else {
        let mut t = h.avg_ms.fixed1();
        t.append(" / ");
        t.append(text::decimal(h.min_ms as u128).as_str());
        t.append(" / ");
        t.append(text::decimal(h.max_ms as u128).as_str());
        t
    }
}

/// Writes the share of lost probes of a hop.
pub fn loss_percent(h: &HopStat) -> (t: String)
    requires
        h.wf(),
    ensures
        t@ == loss_text(*h),
{
    let mut t = h.loss_pct().fixed0();
    t.append("%");
    t
}

/// Whether some hop from `from` on answered.
pub fn any_answer(hops: &[HopStat], from: usize) -> (r: bool)
    ensures
        r == answered_from(hops@, from as int),
{
    let mut k: usize = from;
    while k < hops.len()
        invariant
            from <= k,
            forall|j: int| from <= j < k && j < hops.len() ==> (#[trigger] hops@[j]).received == 0,
        decreases hops.len() - k,
    {
        if hops[k].received > 0 {
            return true;
        }
        k = k + 1;
    }
    false
}

/// Says what is remarkable about hop `i`.
pub fn note(hops: &[HopStat], i: usize) -> (t: &'static str)
    requires
        i < hops.len(),
    ensures
        t@ == note_text(hops@, i as int),
{
    if hops[i].reached_dest > 0 {
        "  <- 目标"
    } else if hops[i].received == 0 && any_answer(hops, i + 1) {
        "  (不回应 ICMP，但其后节点可达)"
    } else {
        ""
    }
}

/// The head of the table of hops.
pub open spec fn head_line() -> Seq<char> {
    "    "@ + text::padded("跳数"@, 4) + " "@ + text::padded("节点地址"@, 17) + " "@
        + text::padded("应答/发出"@, 8) + " "@ + text::padded("丢包率"@, 7) + " "@
        + "时延 平均/最小/最大 (ms)"@
}

/// The line of hop `i` in the table of hops.
pub open spec fn table_line(hops: Seq<HopStat>, i: int) -> Seq<char> {
    let h = hops[i];
    "    "@ + text::padded(text::dec(h.ttl as nat), 4) + " "@ + text::padded(node_text(h), 17)
        + " "@ + text::padded(
        text::dec(h.received as nat) + "/"@ + text::dec(h.sent as nat),
        8,
    ) + " "@ + text::padded(loss_text(h), 7) + " "@ + delay_text(h) + note_text(hops, i)
}

/// Writes the table of hops: its head and a line for every hop.
pub fn table(hops: &[HopStat]) -> (lines: Vec<String>)
    requires
        all_wf(hops@),
    ensures
        lines.len() == hops.len() + 1,
        lines[0]@ == head_line(),
        forall|i: int| 0 <= i < hops.len() ==> (#[trigger] lines@[i + 1])@ == table_line(hops@, i),
{
    let mut lines: Vec<String> = Vec::new();
    let mut t = "    ".to_string();
    t.append(text::pad("跳数".to_string(), 4).as_str());
    t.append(" ");
    t.append(text::pad("节点地址".to_string(), 17).as_str());
    t.append(" ");
    t.append(text::pad("应答/发出".to_string(), 8).as_str());
    t.append(" ");
    t.append(text::pad("丢包率".to_string(), 7).as_str());
    t.append(" ");
    t.append("时延 平均/最小/最大 (ms)");
    lines.push(t);
    let mut i: usize = 0;
    while i < hops.len()
        invariant
            i <= hops.len(),
            all_wf(hops@),
            lines.len() == i + 1,
            lines[0]@ == head_line(),
            forall|k: int| 0 <= k < i ==> (#[trigger] lines@[k + 1])@ == table_line(hops@, k),
        decreases hops.len() - i,
    {
        let h = &hops[i];
        let mut t = "    ".to_string();
        t.append(text::pad(text::decimal(h.ttl as u128), 4).as_str());
        t.append(" ");
        t.append(text::pad(node(h), 17).as_str());
        t.append(" ");
        let mut share = text::decimal(h.received as u128);
        share.append("/");
        share.append(text::decimal(h.sent as u128).as_str());
        t.append(text::pad(share, 8).as_str());
        t.append(" ");
        t.append(text::pad(loss_percent(h), 7).as_str());
        t.append(" ");
        t.append(delay(h).as_str());
        t.append(note(hops, i));
        lines.push(t);
        i = i + 1;
    }
    lines
}

// ---- laws ----

/// Only answers count, and all of them do, in their order. A probe is answered where
/// the target replied; where hops count, also where its TTL ran out on the way or in
/// reassembly. A probe that was not sent, timed out or failed otherwise counts for
/// nothing.
pub proof fn law_only_answers_count(
    a: Seq<Option<Reply>>,
    b: Seq<Option<Reply>>,
    r: Reply,
    hops: bool,
)
    ensures
        counted(a + b, hops) == counted(a, hops) + counted(b, hops),
        counted(Seq::empty(), hops) == Seq::<Reply>::empty(),
        counted(seq![None], hops) == Seq::<Reply>::empty(),
        counted(seq![Some(r)], hops) == if r.status == 0 || (hops && (r.status == 11013 || r.status
            == 11014)) {
            seq![r]
        } else {
            Seq::empty()
        },
    decreases b.len(),
{
    reveal_with_fuel(counted, 2);
    assert(seq![None::<Reply>].drop_last() =~= Seq::<Option<Reply>>::empty());
    assert(seq![Some(r)].drop_last() =~= Seq::<Option<Reply>>::empty());
    assert(Seq::<Reply>::empty().push(r) =~= seq![r]);
    if b.len() == 0 {
        assert(a + b =~= a);
        assert(counted(a, hops) + Seq::<Reply>::empty() =~= counted(a, hops));
    } else {
        assert((a + b).drop_last() =~= a + b.drop_last());
        law_only_answers_count(a, b.drop_last(), r, hops);
        assert(counted(a + b, hops) =~= counted(a, hops) + counted(b, hops));
    }
}

proof fn lemma_votes(replies: Seq<Reply>, x: Ipv4Addr)
    ensures
        votes(replies, x) == replies.filter(|r: Reply| r.responder == x).len(),
        votes(replies, x) > 0 <==> exists|k: int|
            0 <= k < replies.len() && (#[trigger] replies[k]).responder == x,
        arrivals(replies) == replies.filter(|r: Reply| r.status == 0).len(),
    decreases replies.len(),
{
    reveal(Seq::filter);
    if replies.len() > 0 {
        let init = replies.drop_last();
        let last = replies.len() - 1;
        lemma_votes(init, x);
        assert(replies[last] == replies.last());
        assert(forall|k: int| 0 <= k < last ==> #[trigger] replies[k] == init[k]);
        assert(forall|k: int| 0 <= k < last ==> #[trigger] init[k] == replies[k]);
    }
}

proof fn lemma_counted_short(replies: Seq<Option<Reply>>, hops: bool)
    ensures
        counted(replies, hops).len() <= replies.len(),
    decreases replies.len(),
{
    if replies.len() > 0 {
        lemma_counted_short(replies.drop_last(), hops);
    }
}

/// The smallest, largest and average round trip are those of these replies; where there
/// are none, they are all 0.
pub open spec fn spans(replies: Seq<Reply>, min: nat, max: nat, avg: nat) -> bool {
    &&& forall|k: int| 0 <= k < replies.len() ==> min <= (#[trigger] replies[k]).rtt_ms <= max
    &&& replies.len() > 0 ==> exists|k: int|
        0 <= k < replies.len() && (#[trigger] replies[k]).rtt_ms == min
    &&& replies.len() > 0 ==> exists|k: int|
        0 <= k < replies.len() && (#[trigger] replies[k]).rtt_ms == max
    &&& replies.len() == 0 ==> min == 0 && max == 0 && avg == 0
    &&& 0 < replies.len() && total(round_trips(replies)) < 0x20_0000_0000_0000 ==> avg
        == rounding::nearest(total(round_trips(replies)) * pow2(1074), replies.len())
}

proof fn lemma_spans(replies: Seq<Reply>, sent: nat)
    ensures
        ({
            let p = summary(round_trips(replies), sent);
            &&& spans(replies, p.min, p.max, p.avg)
            &&& p.received == replies.len()
            &&& p.sent == sent
        }),
{
    let rtts = round_trips(replies);
    let p = summary(rtts, sent);
    lemma_extremes(rtts);
    assert(forall|k: int| 0 <= k < replies.len() ==> #[trigger] rtts[k] == replies[k].rtt_ms);
    assert forall|k: int| 0 <= k < replies.len() implies p.min <= (#[trigger] replies[k]).rtt_ms
        <= p.max by {
        assert(rtts[k] == replies[k].rtt_ms);
    }
    if replies.len() > 0 {
        let i = choose|i: int| 0 <= i < rtts.len() && #[trigger] rtts[i] == least(rtts);
        let j = choose|j: int| 0 <= j < rtts.len() && #[trigger] rtts[j] == greatest(rtts);
        assert(replies[i].rtt_ms == p.min);
        assert(replies[j].rtt_ms == p.max);
        if total(rtts) < 0x20_0000_0000_0000 {
            law_average_between_extremes(rtts, sent);
        }
    } else {
        assert(rtts.len() == 0);
    }
}

/// The pings of a target: as many as there were probes, as many answered as the target
/// replied to, and the round trips of those replies.
pub proof fn law_pings_sum_up_replies(replies: &Vec<Option<Reply>>, r: PingStats)
    requires
        call_ensures(ping_stats, (replies,), r),
    ensures
        r.sent == replies@.len(),
        r.received == counted(replies@, false).len(),
        r.received <= r.sent,
        spans(counted(replies@, false), r.min_ms as nat, r.max_ms as nat, r.avg_ms@),
{
    lemma_spans(counted(replies@, false), replies@.len());
    lemma_counted_short(replies@, false);
    assert(r@.sent == replies@.len());
    assert(r@.received == counted(replies@, false).len());
}

/// A hop sums up its probes: it has their TTL, was sent them all and received every
/// answer; it was the target as often as the target itself replied. Who answered most
/// often is named, and everyone who answered is listed once, in ascending order.
pub proof fn law_hop_sums_up_replies(
    ttl: u8,
    replies: &Vec<Option<Reply>>,
    h: HopStat,
    other: Ipv4Addr,
)
    requires
        call_ensures(hop_stat, (ttl, replies), h),
    ensures
        ({
            let kept = counted(replies@, true);
            &&& h.ttl == ttl
            &&& h.sent == replies@.len()
            &&& h.received == kept.len()
            &&& spans(kept, h.min_ms as nat, h.max_ms as nat, h.avg_ms@)
            &&& h.reached_dest == kept.filter(|r: Reply| r.status == 0).len()
            &&& kept.len() == 0 ==> h.responder is None && h.responders@.len() == 0
            &&& kept.len() > 0 ==> h.responder is Some && kept.filter(
                |r: Reply| r.responder == other,
            ).len() <= kept.filter(|r: Reply| r.responder == h.responder->0).len()
            &&& kept.len() > 0 ==> h.responders@.contains(h.responder->0)
            &&& forall|k: int|
                0 <= k < kept.len() ==> h.responders@.contains((#[trigger] kept[k]).responder)
            &&& forall|i: int|
                0 <= i < h.responders@.len() ==> exists|k: int|
                    0 <= k < kept.len() && (#[trigger] kept[k]).responder == (
                    #[trigger] h.responders@[i])
            &&& forall|i: int, j: int|
                0 <= i < j < h.responders@.len() ==> (#[trigger] h.responders@[i]).number() < (
                #[trigger] h.responders@[j]).number()
        }),
{
    let kept = counted(replies@, true);
    lemma_spans(kept, replies@.len());
    lemma_votes(kept, Ipv4Addr { a: 0, b: 0, c: 0, d: 0 });
    assert(h.pings().sent == replies@.len() && h.pings().received == kept.len());
    assert forall|k: int| 0 <= k < kept.len() implies h.responders@.contains(
        (#[trigger] kept[k]).responder,
    ) by {
        lemma_votes(kept, kept[k].responder);
    }
    assert forall|i: int| 0 <= i < h.responders@.len() implies exists|k: int|
        0 <= k < kept.len() && (#[trigger] kept[k]).responder == (#[trigger] h.responders@[i]) by {
        let x = h.responders@[i];
        assert(h.responders@.contains(x));
        lemma_votes(kept, x);
    }
    if let Some(x) = h.responder {
        lemma_votes(kept, x);
        lemma_votes(kept, other);
        assert(votes(kept, x) >= votes(kept, other));
        if kept.len() > 0 {
            let y = kept[0].responder;
            lemma_votes(kept, y);
            assert(votes(kept, x) >= votes(kept, y));
        }
    }
    if kept.len() == 0 && h.responders@.len() > 0 {
        assert(h.responders@.contains(h.responders@[0]));
        lemma_votes(kept, h.responders@[0]);
    }
}

/// A series of pings is told with how many were answered of how many, the share that
/// was lost and the average, smallest and largest round trip; where none was
/// answered, as a loss of all.
pub proof fn law_pings_in_words(p: Pings)
    ensures
        p.received == 0 ==> stats_text(p) == "收到 0/"@ + text::dec(p.sent) + " 个应答，丢包 100%"@,
        p.received > 0 ==> {
            let pct = binary64::fixed1(
                binary64::quotient_percent((p.sent - p.received) as nat, p.sent),
            );
            let t = "收到 "@ + text::dec(p.received) + "/"@ + text::dec(p.sent) + " 个应答，丢包 "@ + pct
                + "%，平均 "@ + binary64::fixed1(p.avg) + "ms（最小 "@ + text::dec(p.min) + " / 最大 "@
                + text::dec(p.max) + "ms）"@;
            stats_text(p) == t
        },
{
}

/// A hop is marked as the target where the target replied; a silent hop is excused
/// exactly where some hop behind it answers; nothing else is remarked.
pub proof fn law_remark_on_a_hop(hops: Seq<HopStat>, i: int)
    requires
        0 <= i < hops.len(),
    ensures
        hops[i].reached_dest > 0 ==> note_text(hops, i) == "  <- 目标"@,
        hops[i].reached_dest == 0 && hops[i].received == 0 && (exists|k: int|
            i < k < hops.len() && (#[trigger] hops[k]).received > 0) ==> note_text(hops, i)
            == "  (不回应 ICMP，但其后节点可达)"@,
        hops[i].reached_dest == 0 && (hops[i].received > 0 || forall|k: int|
            i < k < hops.len() ==> (#[trigger] hops[k]).received == 0) ==> note_text(hops, i).len()
            == 0,
{
    reveal_strlit("");
}

/// The table of hops has a head and a line for every hop, in their order, which starts
/// with its TTL, names who answered or has a star, and shows answers of probes, the
/// share that was lost and the round trips.
pub proof fn law_table_shows_every_hop(hops: &[HopStat], lines: Vec<String>, i: int)
    requires
        call_ensures(table, (hops,), lines),
        0 <= i < hops@.len(),
    ensures
        lines@.len() == hops@.len() + 1,
        ({
            let h = hops@[i];
            let t = lines@[i + 1]@;
            let share = text::dec(h.received as nat) + "/"@ + text::dec(h.sent as nat);
            let loss = binary64::fixed0(
                binary64::quotient_percent((h.sent - h.received) as nat, h.sent as nat),
            ) + "%"@;
            t == "    "@ + text::padded(text::dec(h.ttl as nat), 4) + " "@ + text::padded(
                if h.responder is Some {
                    h.responder->0.text()
                } else {
                    "*"@
                },
                17,
            ) + " "@ + text::padded(share, 8) + " "@ + text::padded(loss, 7) + " "@ + (
            if h.received > 0 {
                binary64::fixed1(h.avg_ms@) + " / "@ + text::dec(h.min_ms as nat) + " / "@
                    + text::dec(h.max_ms as nat)
            } else {
                "-"@
            }) + note_text(hops@, i)
        }),
{
    assert(lines@[i + 1]@ == table_line(hops@, i));
}

/// After the probes of one TTL the exploration is over exactly where the target answered
/// one of them or the largest TTL was probed; else the next TTL follows. What was
/// found before is kept, and a hop that was probed is added behind it.
pub proof fn law_exploration_stops_at_the_target(a: Route, stat: Option<HopStat>, b: Route)
    requires
        recorded(a, stat, b),
        a.next() is Some,
        a.next()->0 <= a.limit(),
    ensures
        b.limit() == a.limit(),
        b.next() is None <==> a.next()->0 == a.limit() || (stat is Some && stat->0.reached_dest
            > 0),
        b.next() is Some ==> b.next()->0 == a.next()->0 + 1,
        stat is None ==> b.hops() == a.hops(),
        stat is Some ==> b.hops() == a.hops() + seq![stat->0],
{
    if stat is Some {
        assert(a.hops().push(stat->0) =~= a.hops() + seq![stat->0]);
    }
}

/// Hops are in order exactly where none has more answers than probes, their TTLs rise
/// and none but the last was the target; their TTLs are within a limit exactly where
/// none exceeds it.
pub proof fn law_hops_in_order(hops: &[HopStat], max_hops: u8, r: bool)
    requires
        call_ensures(are_ordered_to, (hops, max_hops), r),
    ensures
        r <==> {
            &&& forall|i: int|
                #![trigger hops@[i]]
                0 <= i < hops@.len() ==> hops@[i].received <= hops@[i].sent && hops@[i].ttl
                    <= max_hops
            &&& forall|i: int, j: int|
                #![trigger hops@[i], hops@[j]]
                0 <= i < j < hops@.len() ==> hops@[i].ttl < hops@[j].ttl && hops@[i].reached_dest
                    == 0
        },
{
    if r {
        assert forall|i: int, j: int|
            #![trigger hops@[i], hops@[j]]
            0 <= i < j < hops@.len() implies hops@[i].ttl < hops@[j].ttl && hops@[i].reached_dest
            == 0 by {}
    }
    if (forall|i: int|
        #![trigger hops@[i]]
        0 <= i < hops@.len() ==> hops@[i].received <= hops@[i].sent && hops@[i].ttl <= max_hops)
        && (forall|i: int, j: int|
        #![trigger hops@[i], hops@[j]]
        0 <= i < j < hops@.len() ==> hops@[i].ttl < hops@[j].ttl && hops@[i].reached_dest == 0) {
        assert forall|i: int| 0 <= i < hops@.len() - 1 implies (#[trigger] hops@[i]).reached_dest
            == 0 by {
            assert(hops@[i].ttl < hops@[i + 1].ttl);
        }
    }
}

/// An exploration starts with TTL 1 and no hops, unless none may be probed; it ends with
/// the hops that were found.
pub proof fn law_exploration_starts_at_one(
    max_hops: u8,
    r: Route,
    at: &Route,
    next: Option<u8>,
    over: Route,
    v: Vec<HopStat>,
)
    requires
        call_ensures(Route::new, (max_hops,), r),
        call_ensures(Route::next_ttl, (at,), next),
        call_ensures(Route::into_hops, (over,), v),
    ensures
        r.hops().len() == 0,
        r.limit() == max_hops,
        r.next() is Some <==> max_hops > 0,
        r.next() matches Some(n) ==> n == 1,
        next == at.next(),
        v@ == over.hops(),
{
}

/// Round trips are summed up as they are: how many there are of how many that were sent,
/// their smallest and largest, and their average, which is nearest to the true one.
pub proof fn law_round_trips_summed_up(rtts: &Vec<u32>, sent: u32, r: PingStats)
    requires
        call_ensures(stats_from, (rtts, sent), r),
        rtts@.len() <= u32::MAX,
    ensures
        r.sent == sent,
        r.received == rtts@.len(),
        forall|i: int| 0 <= i < rtts@.len() ==> r.min_ms <= (#[trigger] rtts@[i]) <= r.max_ms,
        rtts@.len() > 0 ==> rtts@.contains(r.min_ms) && rtts@.contains(r.max_ms),
        rtts@.len() == 0 ==> r.min_ms == 0 && r.max_ms == 0 && r.avg_ms@ == 0,
        0 < rtts@.len() && total(rtts@) < 0x20_0000_0000_0000 ==> r.avg_ms@ == rounding::nearest(
            total(rtts@) * pow2(1074),
            rtts@.len(),
        ),
{
    assert(r@.sent == sent && r@.received == rtts@.len());
    lemma_extremes(rtts@);
    if rtts@.len() > 0 {
        let i = choose|i: int| 0 <= i < rtts@.len() && #[trigger] rtts@[i] == least(rtts@);
        let j = choose|j: int| 0 <= j < rtts@.len() && #[trigger] rtts@[j] == greatest(rtts@);
        assert(rtts@[i] == r.min_ms && rtts@[j] == r.max_ms);
        if total(rtts@) < 0x20_0000_0000_0000 {
            law_average_between_extremes(rtts@, sent as nat);
        }
    }
}

/// A sum of round trips adds each of them once.
pub proof fn law_total_adds_each(a: Seq<u32>, b: Seq<u32>, x: u32)
    ensures
        total(a + b) == total(a) + total(b),
        total(seq![x]) == x,
        total(Seq::empty()) == 0,
    decreases b.len(),
{
    reveal_with_fuel(total, 2);
    assert(seq![x].drop_last() =~= Seq::<u32>::empty());
    if b.len() == 0 {
        assert(a + b =~= a);
    } else {
        assert((a + b).drop_last() =~= a + b.drop_last());
        law_total_adds_each(a, b.drop_last(), x);
    }
}

} // verus!
