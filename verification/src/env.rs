//! The network adapters of this machine.

use crate::addr::{IpAddr, Ipv4Addr};
use crate::dns;
use crate::dns::pick_v4;
use vstd::prelude::*;

verus! {

/// What kind of link an adapter has.
#[derive(Clone, Debug)]
pub enum LinkKind {
    Ethernet,
    Wifi,
    Ppp,
    Tunnel,
    Loopback,
    /// Any other kind, by the name the system gives it.
    Other(String),
}

impl LinkKind {
    /// The name of the kind.
    pub open spec fn name(self) -> Seq<char> {
        match self {
            LinkKind::Ethernet => "以太网"@,
            LinkKind::Wifi => "Wi-Fi"@,
            LinkKind::Ppp => "PPP 拨号"@,
            LinkKind::Tunnel => "隧道"@,
            LinkKind::Loopback => "环回"@,
            LinkKind::Other(t) => t@,
        }
    }

    /// The name of the kind.
    pub fn label(&self) -> (t: String)
        ensures
            t@ == self.name(),
    {
        match self {
            LinkKind::Ethernet => "以太网".to_string(),
            LinkKind::Wifi => "Wi-Fi".to_string(),
            LinkKind::Ppp => "PPP 拨号".to_string(),
            LinkKind::Tunnel => "隧道".to_string(),
            LinkKind::Loopback => "环回".to_string(),
            LinkKind::Other(t) => t.clone(),
        }
    }
}

/// An adapter as the system reports it.
#[derive(Clone, Debug)]
pub struct RawAdapter {
    pub name: String,
    pub friendly: String,
    pub description: String,
    pub kind: LinkKind,
    pub up: bool,
    pub addresses: Vec<IpAddr>,
    /// Addresses with the lengths of their network prefixes.
    pub prefixes: Vec<(IpAddr, u32)>,
    pub gateways: Vec<IpAddr>,
    pub dns_servers: Vec<IpAddr>,
}

/// What matters of an adapter.
#[derive(Clone, Debug)]
pub struct AdapterInfo {
    /// The name the system uses.
    pub name: String,
    /// The name people use.
    pub friendly: String,
    pub description: String,
    /// The kind of link.
    pub kind: String,
    /// Whether the adapter is connected.
    pub up: bool,
    /// The IPv4 address and the length of its network prefix.
    pub ipv4: Option<(Ipv4Addr, u8)>,
    pub gateways: Vec<Ipv4Addr>,
    pub dns_servers: Vec<Ipv4Addr>,
}

/// An adapter, its strings and lists as sequences.
pub ghost struct Adapter {
    pub name: Seq<char>,
    pub friendly: Seq<char>,
    pub description: Seq<char>,
    pub kind: Seq<char>,
    pub up: bool,
    pub ipv4: Option<(Ipv4Addr, u8)>,
    pub gateways: Seq<Ipv4Addr>,
    pub dns_servers: Seq<Ipv4Addr>,
}

impl AdapterInfo {
    /// The adapter, its strings and lists as sequences.
    pub open spec fn view(&self) -> Adapter {
        Adapter {
            name: self.name@,
            friendly: self.friendly@,
            description: self.description@,
            kind: self.kind@,
            up: self.up,
            ipv4: self.ipv4,
            gateways: self.gateways@,
            dns_servers: self.dns_servers@,
        }
    }

    /// The name to show.
    pub fn friendly_name(&self) -> (t: &str)
        ensures
            t@ == shown_name(self@),
    {
        if self.friendly.as_str().is_empty() {
            self.name.as_str()
        } else {
            self.friendly.as_str()
        }
    }

    /// Another adapter of the same contents.
    pub fn duplicate(&self) -> (r: Self)
        ensures
            r@ == self@,
    {
        AdapterInfo {
            name: self.name.clone(),
            friendly: self.friendly.clone(),
            description: self.description.clone(),
            kind: self.kind.clone(),
            up: self.up,
            ipv4: self.ipv4,
            gateways: copy_list(&self.gateways),
            dns_servers: copy_list(&self.dns_servers),
        }
    }
}

/// The name to show: the one people use, where there is one.
pub open spec fn shown_name(a: Adapter) -> Seq<char> {
    if a.friendly.len() == 0 {
        a.name
    } else {
        a.friendly
    }
}

/// Copies a list of addresses.
fn copy_list(v: &Vec<Ipv4Addr>) -> (r: Vec<Ipv4Addr>)
    ensures
        r@ == v@,
{
    let mut r: Vec<Ipv4Addr> = Vec::new();
    let mut i: usize = 0;
    while i < v.len()
        invariant
            i <= v.len(),
            r@ == v@.take(i as int),
        decreases v.len() - i,
    {
        r.push(v[i]);
        i = i + 1;
    }
    assert(v@.take(i as int) == v@);
    r
}

/// The length of the first prefix from `i` on that belongs to `x`, in one byte;
/// 24 where there is none.
pub open spec fn prefix_len(prefixes: Seq<(IpAddr, u32)>, i: int, x: Ipv4Addr) -> u8
    decreases prefixes.len() - i,
{
    if i < 0 || i >= prefixes.len() {
        24
    } else if prefixes[i].0 == IpAddr::V4(x) {
        (prefixes[i].1 % 256) as u8
    } else {
        prefix_len(prefixes, i + 1, x)
    }
}

fn find_prefix(prefixes: &Vec<(IpAddr, u32)>, x: Ipv4Addr) -> (n: u8)
    ensures
        n == prefix_len(prefixes@, 0, x),
{
    let mut i: usize = 0;
    while i < prefixes.len()
        invariant
            i <= prefixes.len(),
            prefix_len(prefixes@, i as int, x) == prefix_len(prefixes@, 0, x),
        decreases prefixes.len() - i,
    {
        if prefixes[i].0 == IpAddr::V4(x) {
            return (prefixes[i].1 % 256) as u8;
        }
        i = i + 1;
    }
    24
}

/// What matters of an adapter that the system reports. Its address is its first
/// IPv4 address.
pub open spec fn described(raw: RawAdapter) -> Adapter {
    let v4 = dns::only_v4(raw.addresses@);
    Adapter {
        name: raw.name@,
        friendly: raw.friendly@,
        description: raw.description@,
        kind: raw.kind.name(),
        up: raw.up,
        ipv4: if v4.len() == 0 {
            None
        } else {
            Some((v4[0], prefix_len(raw.prefixes@, 0, v4[0])))
        },
        gateways: dns::only_v4(raw.gateways@),
        dns_servers: dns::only_v4(raw.dns_servers@),
    }
}

fn describe(raw: &RawAdapter) -> (a: AdapterInfo)
    ensures
        a@ == described(*raw),
{
    let v4 = pick_v4(&raw.addresses);
    AdapterInfo {
        name: raw.name.clone(),
        friendly: raw.friendly.clone(),
        description: raw.description.clone(),
        kind: raw.kind.label(),
        up: raw.up,
        ipv4: if v4.len() == 0 {
            None
        } else {
            Some((v4[0], find_prefix(&raw.prefixes, v4[0])))
        },
        gateways: pick_v4(&raw.gateways),
        dns_servers: pick_v4(&raw.dns_servers),
    }
}

/// `x` belongs before `y`: connected ones first, then those with an IPv4 address,
/// then those with more gateways.
pub open spec fn before(x: Adapter, y: Adapter) -> bool {
    if x.up != y.up {
        x.up
    } else if x.ipv4 is Some != y.ipv4 is Some {
        x.ipv4 is Some
    } else {
        x.gateways.len() > y.gateways.len()
    }
}

fn belongs_before(x: &AdapterInfo, y: &AdapterInfo) -> (r: bool)
    ensures
        r == before(x@, y@),
{
    if x.up != y.up {
        x.up
    } else if x.ipv4.is_some() != y.ipv4.is_some() {
        x.ipv4.is_some()
    } else {
        x.gateways.len() > y.gateways.len()
    }
}

/// Where, from `i` on, the first adapter stands before which `x` belongs; the end
/// where there is none.
pub open spec fn place(v: Seq<Adapter>, i: int, x: Adapter) -> int
    decreases v.len() - i,
{
    if i < 0 || i >= v.len() || before(x, v[i]) {
        i
    } else {
        place(v, i + 1, x)
    }
}

/// The adapters in their order of importance; those of equal rank keep their order.
pub open spec fn arranged(v: Seq<Adapter>) -> Seq<Adapter>
    decreases v.len(),
{
    if v.len() == 0 {
        v
    } else {
        let init = arranged(v.drop_last());
        init.insert(place(init, 0, v.last()), v.last())
    }
}

/// The adapters that are not loopback ones, in the order of the report.
pub open spec fn usable(raws: Seq<RawAdapter>) -> Seq<Adapter>
    decreases raws.len(),
{
    if raws.len() == 0 {
        Seq::empty()
    } else if raws.last().kind is Loopback {
        usable(raws.drop_last())
    } else {
        usable(raws.drop_last()).push(described(raws.last()))
    }
}

/// The adapters, each by its contents.
pub open spec fn contents(v: Seq<AdapterInfo>) -> Seq<Adapter> {
    v.map_values(|a: AdapterInfo| a@)
}

/// Describes the adapters that the system reports, loopback ones left out, the
/// important ones first.
pub fn enumerate(raws: &Vec<RawAdapter>) -> (out: Vec<AdapterInfo>)
    ensures
        contents(out@) == arranged(usable(raws@)),
{
    let mut out: Vec<AdapterInfo> = Vec::new();
    let mut i: usize = 0;
    assert(contents(out@) == Seq::<Adapter>::empty());
    while i < raws.len()
        invariant
            i <= raws.len(),
            contents(out@) == arranged(usable(raws@.take(i as int))),
        decreases raws.len() - i,
    {
        assert(raws@.take(i + 1).drop_last() == raws@.take(i as int));
        let skip = match raws[i].kind {
            LinkKind::Loopback => true,
            _ => false,
        };
        if !skip {
            let a = describe(&raws[i]);
            let ghost v = contents(out@);
            let mut k: usize = 0;
            while k < out.len() && !belongs_before(&a, &out[k])
                invariant
                    k <= out.len(),
                    v == contents(out@),
                    place(v, k as int, a@) == place(v, 0, a@),
                decreases out.len() - k,
            {
                assert(v[k as int] == out@[k as int]@);
                k = k + 1;
            }
            proof {
                if k < out.len() {
                    assert(v[k as int] == out@[k as int]@);
                }
                let u = usable(raws@.take(i + 1));
                assert(u.drop_last() == usable(raws@.take(i as int)));
                assert(contents(out@.insert(k as int, a)) == v.insert(k as int, a@));
            }
            out.insert(k, a);
        }
        i = i + 1;
    }
    assert(raws@.take(i as int) == raws@);
    out
}

/// Connected, with an IPv4 address and, where asked for, with a gateway.
pub open spec fn suits(a: Adapter, with_gateway: bool) -> bool {
    a.up && a.ipv4 is Some && (with_gateway ==> a.gateways.len() > 0)
}

/// The first adapter from `i` on that suits.
pub open spec fn suiting(v: Seq<AdapterInfo>, i: int, with_gateway: bool) -> Option<int>
    decreases v.len() - i,
{
    if i < 0 || i >= v.len() {
        None
    } else if suits(v[i]@, with_gateway) {
        Some(i)
    } else {
        suiting(v, i + 1, with_gateway)
    }
}

/// The first adapter from `i` on that has an IPv4 address.
pub open spec fn addressed(v: Seq<AdapterInfo>, i: int) -> Option<int>
    decreases v.len() - i,
{
    if i < 0 || i >= v.len() {
        None
    } else if v[i]@.ipv4 is Some {
        Some(i)
    } else {
        addressed(v, i + 1)
    }
}

/// The adapter in use: the first one that is connected and has an IPv4 address and
/// a gateway; failing that, the first one without the gateway; failing that too,
/// the first one that has an IPv4 address at all.
pub open spec fn primary(v: Seq<AdapterInfo>) -> Option<int> {
    match suiting(v, 0, true) {
        Some(i) => Some(i),
        None => match suiting(v, 0, false) {
            Some(i) => Some(i),
            None => addressed(v, 0),
        },
    }
}

fn find_suiting(v: &[AdapterInfo], with_gateway: bool) -> (r: Option<usize>)
    ensures
        match r {
            Some(i) => i < v@.len() && suiting(v@, 0, with_gateway) == Some(i as int),
            None => suiting(v@, 0, with_gateway) is None,
        },
{
    let mut i: usize = 0;
    while i < v.len()
        invariant
            i <= v@.len(),
            suiting(v@, i as int, with_gateway) == suiting(v@, 0, with_gateway),
        decreases v.len() - i,
    {
        if v[i].up && v[i].ipv4.is_some() && (!with_gateway || v[i].gateways.len() > 0) {
            return Some(i);
        }
        i = i + 1;
    }
    None
}

fn find_addressed(v: &[AdapterInfo]) -> (r: Option<usize>)
    ensures
        match r {
            Some(i) => i < v@.len() && addressed(v@, 0) == Some(i as int),
            None => addressed(v@, 0) is None,
        },
{
    let mut i: usize = 0;
    while i < v.len()
        invariant
            i <= v@.len(),
            addressed(v@, i as int) == addressed(v@, 0),
        decreases v.len() - i,
    {
        if v[i].ipv4.is_some() {
            return Some(i);
        }
        i = i + 1;
    }
    None
}

/// Picks the adapter in use.
pub fn pick_primary(adapters: &[AdapterInfo]) -> (r: Option<&AdapterInfo>)
    ensures
        match r {
            Some(a) => primary(adapters@) matches Some(i) && 0 <= i < adapters@.len() && *a
                == adapters@[i],
            None => primary(adapters@) is None,
        },
{
    match find_suiting(adapters, true) {
        Some(i) => Some(&adapters[i]),
        None => match find_suiting(adapters, false) {
            Some(i) => Some(&adapters[i]),
            None => match find_addressed(adapters) {
                Some(i) => Some(&adapters[i]),
                None => None,
            },
        },
    }
}

proof fn lemma_place(v: Seq<Adapter>, i: int, x: Adapter)
    requires
        0 <= i <= v.len(),
    ensures
        i <= place(v, i, x) <= v.len(),
        forall|k: int| i <= k < place(v, i, x) ==> !before(x, #[trigger] v[k]),
        place(v, i, x) < v.len() ==> before(x, v[place(v, i, x)]),
    decreases v.len() - i,
{
    if i < v.len() && !before(x, v[i]) {
        lemma_place(v, i + 1, x);
    }
}

/// The arranged adapters are the same adapters, each as often as before, and none
/// stands behind one that belongs after it: connected adapters come first, then
/// those with an IPv4 address.
pub proof fn law_arranged_in_order(v: Seq<Adapter>)
    ensures
        arranged(v).to_multiset() == v.to_multiset(),
        arranged(v).len() == v.len(),
        forall|i: int, j: int|
            0 <= i < j < arranged(v).len() ==> !before(
                #[trigger] arranged(v)[j],
                #[trigger] arranged(v)[i],
            ),
    decreases v.len(),
{
    broadcast use vstd::seq_lib::group_to_multiset_ensures;

    if v.len() > 0 {
        let init = arranged(v.drop_last());
        let x = v.last();
        law_arranged_in_order(v.drop_last());
        lemma_place(init, 0, x);
        let p = place(init, 0, x);
        let w = arranged(v);
        assert(w == init.insert(p, x));
        assert(v == v.drop_last().push(x));
        assert(w.to_multiset() == init.to_multiset().insert(x));
        assert forall|i: int, j: int| 0 <= i < j < w.len() implies !before(
            #[trigger] w[j],
            #[trigger] w[i],
        ) by {
            if i == p {
                let y = init[j - 1];
                assert(!before(y, init[p]) || j - 1 == p);
                assert(before(x, init[p]));
            } else if j == p {
                assert(!before(x, init[i]));
            } else {
                let a = if i < p {
                    i
                } else {
                    i - 1
                };
                let b = if j < p {
                    j
                } else {
                    j - 1
                };
                assert(!before(init[b], init[a]));
            }
        }
    }
}

/// Of equal rank.
pub open spec fn peers(x: Adapter, y: Adapter) -> bool {
    !before(x, y) && !before(y, x)
}

/// Adapters of equal rank keep the order in which they were reported.
pub proof fn law_arranged_keeps_order(v: Seq<Adapter>, x: Adapter)
    ensures
        arranged(v).filter(|y: Adapter| peers(x, y)) == v.filter(|y: Adapter| peers(x, y)),
    decreases v.len(),
{
    reveal(Seq::filter);
    let f = |y: Adapter| peers(x, y);
    if v.len() > 0 {
        let init = arranged(v.drop_last());
        let last = v.last();
        law_arranged_keeps_order(v.drop_last(), x);
        law_arranged_in_order(v.drop_last());
        lemma_place(init, 0, last);
        let p = place(init, 0, last);
        let (a, b) = (init.take(p), init.skip(p));
        assert(init == a + b);
        assert(arranged(v) == a.push(last) + b);
        assert(a.push(last).drop_last() == a);
        lemma_filter_concat(a, b, f);
        lemma_filter_concat(a.push(last), b, f);
        if f(last) {
            assert forall|k: int| 0 <= k < b.len() implies !f(#[trigger] b[k]) by {
                assert(b[k] == init[p + k]);
                assert(before(last, init[p]));
                assert(k == 0 || !before(init[p + k], init[p]));
            }
            lemma_filter_none(b, f);
        }
    }
}

proof fn lemma_filter_concat(a: Seq<Adapter>, b: Seq<Adapter>, f: spec_fn(Adapter) -> bool)
    ensures
        (a + b).filter(f) == a.filter(f) + b.filter(f),
    decreases b.len(),
{
    reveal(Seq::filter);
    if b.len() == 0 {
        assert(a + b == a);
    } else {
        assert((a + b).drop_last() == a + b.drop_last());
        lemma_filter_concat(a, b.drop_last(), f);
    }
}

proof fn lemma_filter_none(b: Seq<Adapter>, f: spec_fn(Adapter) -> bool)
    requires
        forall|k: int| 0 <= k < b.len() ==> !f(#[trigger] b[k]),
    ensures
        b.filter(f) == Seq::<Adapter>::empty(),
    decreases b.len(),
{
    reveal(Seq::filter);
    if b.len() > 0 {
        assert forall|k: int| 0 <= k < b.drop_last().len() implies !f(
            #[trigger] b.drop_last()[k],
        ) by {
            assert(b.drop_last()[k] == b[k]);
        }
        lemma_filter_none(b.drop_last(), f);
        assert(!f(b[b.len() - 1]));
    }
}

proof fn lemma_suiting(v: Seq<AdapterInfo>, i: int, with_gateway: bool)
    requires
        0 <= i <= v.len(),
    ensures
        match suiting(v, i, with_gateway) {
            Some(k) => {
                &&& i <= k < v.len()
                &&& suits(v[k]@, with_gateway)
                &&& forall|j: int| i <= j < k ==> !suits((#[trigger] v[j])@, with_gateway)
            },
            None => forall|j: int|
                i <= j < v.len() ==> !suits((#[trigger] v[j])@, with_gateway),
        },
    decreases v.len() - i,
{
    if i < v.len() && !suits(v[i]@, with_gateway) {
        lemma_suiting(v, i + 1, with_gateway);
    }
}

proof fn lemma_addressed(v: Seq<AdapterInfo>, i: int)
    requires
        0 <= i <= v.len(),
    ensures
        match addressed(v, i) {
            Some(k) => {
                &&& i <= k < v.len()
                &&& v[k]@.ipv4 is Some
                &&& forall|j: int| i <= j < k ==> (#[trigger] v[j])@.ipv4 is None
            },
            None => forall|j: int| i <= j < v.len() ==> (#[trigger] v[j])@.ipv4 is None,
        },
    decreases v.len() - i,
{
    if i < v.len() && v[i]@.ipv4 is None {
        lemma_addressed(v, i + 1);
    }
}

/// The adapter in use has an IPv4 address; it is connected wherever an adapter with
/// an address is, and has a gateway wherever a connected one has. It is the first
/// of its kind. There is none only where no adapter has an IPv4 address.
pub proof fn law_primary_suits(v: Seq<AdapterInfo>)
    ensures
        match primary(v) {
            Some(k) => {
                &&& 0 <= k < v.len()
                &&& v[k]@.ipv4 is Some
                &&& forall|j: int|
                    0 <= j < v.len() && suits((#[trigger] v[j])@, true) ==> suits(v[k]@, true) && k
                        <= j
                &&& forall|j: int|
                    0 <= j < v.len() && suits((#[trigger] v[j])@, false) ==> suits(v[k]@, false)
                        && (suits(v[k]@, true) || k <= j)
                &&& forall|j: int|
                    0 <= j < v.len() && (#[trigger] v[j])@.ipv4 is Some ==> suits(v[k]@, false) || k
                        <= j
            },
            None => forall|j: int| 0 <= j < v.len() ==> (#[trigger] v[j])@.ipv4 is None,
        },
{
    lemma_suiting(v, 0, true);
    lemma_suiting(v, 0, false);
    lemma_addressed(v, 0);
}

/// Connected adapters stand before those that are not; among them, those with an IPv4
/// address before those without; among these, those with more gateways before those
/// with fewer. Adapters that are alike in all this keep their order.
pub proof fn law_important_adapters_first(v: Seq<Adapter>, x: Adapter)
    ensures
        arranged(v).to_multiset() == v.to_multiset(),
        forall|i: int, j: int|
            #![trigger arranged(v)[i], arranged(v)[j]]
            0 <= i < j < arranged(v).len() ==> {
                let (a, b) = (arranged(v)[i], arranged(v)[j]);
                &&& b.up ==> a.up
                &&& a.up == b.up && b.ipv4 is Some ==> a.ipv4 is Some
                &&& a.up == b.up && (a.ipv4 is Some == b.ipv4 is Some) ==> a.gateways.len()
                    >= b.gateways.len()
            },
        arranged(v).filter(
            |y: Adapter|
                y.up == x.up && (y.ipv4 is Some == x.ipv4 is Some) && y.gateways.len()
                    == x.gateways.len(),
        ) == v.filter(
            |y: Adapter|
                y.up == x.up && (y.ipv4 is Some == x.ipv4 is Some) && y.gateways.len()
                    == x.gateways.len(),
        ),
{
    law_arranged_in_order(v);
    law_arranged_keeps_order(v, x);
    let f = |y: Adapter| peers(x, y);
    let g = |y: Adapter|
        y.up == x.up && (y.ipv4 is Some == x.ipv4 is Some) && y.gateways.len() == x.gateways.len();
    assert(forall|y: Adapter| #[trigger] f(y) == g(y));
    lemma_filter_same(v, f, g);
    lemma_filter_same(arranged(v), f, g);
}

proof fn lemma_filter_same(
    v: Seq<Adapter>,
    f: spec_fn(Adapter) -> bool,
    g: spec_fn(Adapter) -> bool,
)
    requires
        forall|y: Adapter| #[trigger] f(y) == g(y),
    ensures
        v.filter(f) == v.filter(g),
    decreases v.len(),
{
    reveal(Seq::filter);
    if v.len() > 0 {
        lemma_filter_same(v.drop_last(), f, g);
        assert(f(v.last()) == g(v.last()));
    }
}

/// All adapters but the loopback ones are listed, in their order.
pub proof fn law_only_loopback_is_left_out(a: Seq<RawAdapter>, b: Seq<RawAdapter>, x: RawAdapter)
    ensures
        usable(a + b) == usable(a) + usable(b),
        usable(Seq::empty()) == Seq::<Adapter>::empty(),
        x.kind is Loopback ==> usable(seq![x]) == Seq::<Adapter>::empty(),
        !(x.kind is Loopback) ==> usable(seq![x]) == seq![described(x)],
    decreases b.len(),
{
    reveal_with_fuel(usable, 2);
    assert(seq![x].drop_last() =~= Seq::<RawAdapter>::empty());
    assert(Seq::<Adapter>::empty().push(described(x)) =~= seq![described(x)]);
    if b.len() == 0 {
        assert(a + b =~= a);
        assert(usable(a) + Seq::<Adapter>::empty() =~= usable(a));
    } else {
        assert((a + b).drop_last() =~= a + b.drop_last());
        law_only_loopback_is_left_out(a, b.drop_last(), x);
        assert(usable(a + b) =~= usable(a) + usable(b));
    }
}

/// What is kept of an adapter: its names, its state, the IPv4 addresses among its
/// gateways and DNS servers, and its first IPv4 address. With the address goes the
/// length of the first prefix that was given for it, or 24 where there is none.
pub proof fn law_adapter_is_described(raw: RawAdapter, k: int)
    ensures
        ({
            let a = described(raw);
            let v4 = dns::only_v4(raw.addresses@);
            &&& a.name == raw.name@
            &&& a.friendly == raw.friendly@
            &&& a.description == raw.description@
            &&& a.up == raw.up
            &&& a.gateways == dns::only_v4(raw.gateways@)
            &&& a.dns_servers == dns::only_v4(raw.dns_servers@)
            &&& a.ipv4 is None <==> v4.len() == 0
            &&& v4.len() > 0 ==> {
                let (x, bits) = a.ipv4->0;
                &&& x == v4[0]
                &&& 0 <= k < raw.prefixes@.len() && raw.prefixes@[k].0 == IpAddr::V4(x) && (forall|
                    j: int,
                |
                    0 <= j < k ==> (#[trigger] raw.prefixes@[j]).0 != IpAddr::V4(x)) ==> bits
                    == raw.prefixes@[k].1 % 256
                &&& (forall|j: int|
                    0 <= j < raw.prefixes@.len() ==> (#[trigger] raw.prefixes@[j]).0 != IpAddr::V4(
                        x,
                    )) ==> bits == 24
            }
        }),
        raw.kind is Ethernet ==> described(raw).kind == "以太网"@,
        raw.kind is Wifi ==> described(raw).kind == "Wi-Fi"@,
        raw.kind is Ppp ==> described(raw).kind == "PPP 拨号"@,
        raw.kind is Tunnel ==> described(raw).kind == "隧道"@,
        raw.kind matches LinkKind::Other(t) ==> described(raw).kind == t@,
{
    let v4 = dns::only_v4(raw.addresses@);
    if v4.len() > 0 {
        let x = v4[0];
        let v = raw.prefixes@;
        if 0 <= k < v.len() && v[k].0 == IpAddr::V4(x) && (forall|j: int|
            0 <= j < k ==> (#[trigger] v[j]).0 != IpAddr::V4(x)) {
            lemma_prefix(v, 0, k, x);
        }
        if forall|j: int| 0 <= j < v.len() ==> (#[trigger] v[j]).0 != IpAddr::V4(x) {
            lemma_prefix(v, 0, v.len() as int, x);
        }
    }
}

proof fn lemma_prefix(v: Seq<(IpAddr, u32)>, i: int, k: int, x: Ipv4Addr)
    requires
        0 <= i <= k <= v.len(),
        forall|j: int| i <= j < k ==> (#[trigger] v[j]).0 != IpAddr::V4(x),
        k == v.len() || v[k].0 == IpAddr::V4(x),
    ensures
        k == v.len() ==> prefix_len(v, i, x) == 24,
        k < v.len() ==> prefix_len(v, i, x) == v[k].1 % 256,
    decreases k - i,
{
    if i < k {
        lemma_prefix(v, i + 1, k, x);
    }
}

/// The name to show is the one people use; only where there is none, the system's.
pub proof fn law_shown_name(a: Adapter)
    ensures
        a.friendly.len() > 0 ==> shown_name(a) == a.friendly,
        a.friendly.len() == 0 ==> shown_name(a) == a.name,
{
}

/// The adapter in use is the first that is connected and has an IPv4 address and a
/// gateway; where there is none such, the first that is connected and has an IPv4
/// address; else the first that has an IPv4 address; else there is none.
pub proof fn law_adapter_in_use(v: &[AdapterInfo], r: Option<&AdapterInfo>, k: int)
    requires
        call_ensures(pick_primary, (v,), r),
        0 <= k < v@.len(),
    ensures
        ({
            let full = |a: AdapterInfo| a.up && a.ipv4 is Some && a.gateways@.len() > 0;
            let live = |a: AdapterInfo| a.up && a.ipv4 is Some;
            let first = |f: spec_fn(AdapterInfo) -> bool|
                f(v@[k]) && forall|j: int| 0 <= j < k ==> !f(#[trigger] v@[j]);
            let none = |f: spec_fn(AdapterInfo) -> bool|
                forall|j: int| 0 <= j < v@.len() ==> !f(#[trigger] v@[j]);
            let addressed = |a: AdapterInfo| a.ipv4 is Some;
            &&& first(full) ==> r == Some(&v@[k])
            &&& none(full) && first(live) ==> r == Some(&v@[k])
            &&& none(live) && first(addressed) ==> r == Some(&v@[k])
            &&& none(addressed) ==> r is None
        }),
{
    lemma_suiting(v@, 0, true);
    lemma_suiting(v@, 0, false);
    lemma_addressed(v@, 0);
    let full = |a: AdapterInfo| a.up && a.ipv4 is Some && a.gateways@.len() > 0;
    let live = |a: AdapterInfo| a.up && a.ipv4 is Some;
    assert(forall|j: int| 0 <= j < v@.len() ==> suits((#[trigger] v@[j])@, true) == full(v@[j]));
    assert(forall|j: int| 0 <= j < v@.len() ==> suits((#[trigger] v@[j])@, false) == live(v@[j]));
    assert(forall|a: AdapterInfo| #[trigger] full(a) ==> live(a));
}

/// The adapters that are listed are those that are usable, arranged by importance: none is
/// left out, and each is described by its own report.
pub proof fn law_adapters_are_listed(raws: &Vec<RawAdapter>, out: Vec<AdapterInfo>)
    requires
        call_ensures(enumerate, (raws,), out),
    ensures
        out@.len() == usable(raws@).len(),
        out@.map_values(|a: AdapterInfo| a@).to_multiset() == usable(raws@).to_multiset(),
        forall|i: int, j: int|
            #![trigger out@[i], out@[j]]
            0 <= i < j < out@.len() ==> {
                let (a, b) = (out@[i], out@[j]);
                &&& b.up ==> a.up
                &&& a.up == b.up && b.ipv4 is Some ==> a.ipv4 is Some
                &&& a.up == b.up && (a.ipv4 is Some == b.ipv4 is Some) ==> a.gateways@.len()
                    >= b.gateways@.len()
            },
{
    let v = usable(raws@);
    let w = arranged(v);
    law_arranged_in_order(v);
    law_important_adapters_first(v, w[0]);
    assert(contents(out@) == w);
    assert forall|i: int, j: int| #![trigger out@[i], out@[j]] 0 <= i < j < out@.len() implies {
        let (a, b) = (out@[i], out@[j]);
        &&& b.up ==> a.up
        &&& a.up == b.up && b.ipv4 is Some ==> a.ipv4 is Some
        &&& a.up == b.up && (a.ipv4 is Some == b.ipv4 is Some) ==> a.gateways@.len()
            >= b.gateways@.len()
    } by {
        assert(w[i] == out@[i]@ && w[j] == out@[j]@);
    }
}

} // verus!
