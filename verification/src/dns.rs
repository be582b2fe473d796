//! DNS: the query for an address record, the reading of its answer, and what
//! the system's own resolver said.

use crate::addr::{IpAddr, Ipv4Addr};
use crate::text;
use vstd::prelude::*;
use vstd::utf8::*;

verus! {

/// The transaction number of every query.
pub const QUERY_ID: u16 = 0x5A5A;

/// The result of one query.
#[derive(Clone, Debug)]
pub struct DnsQueryResult {
    pub server: Ipv4Addr,
    pub domain: String,
    pub label: String,
    pub success: bool,
    pub answers: Vec<Ipv4Addr>,
    pub elapsed_ms: u64,
    pub error: Option<String>,
}

/// Where, from `i` on, the first dot stands; the end where there is none.
pub open spec fn dot_index(b: Seq<u8>, i: int) -> int
    decreases b.len() - i,
{
    if i < 0 || i >= b.len() || b[i] == 0x2e {
        i
    } else {
        dot_index(b, i + 1)
    }
}

/// One label on the wire: its length, in one byte, and its bytes. An empty label
/// is left out.
pub open spec fn wire_label(label: Seq<u8>) -> Seq<u8> {
    if label.len() == 0 {
        label
    } else {
        seq![(label.len() % 256) as u8] + label
    }
}

/// The labels of a domain from byte `i` on, on the wire.
pub open spec fn wire_labels(b: Seq<u8>, i: int) -> Seq<u8>
    decreases b.len() + 1 - i,
    when 0 <= i
    via dot_index_grows
{
    if i > b.len() {
        Seq::empty()
    } else {
        let j = dot_index(b, i);
        wire_label(b.subrange(i, j)) + wire_labels(b, j + 1)
    }
}

#[via_fn]
proof fn dot_index_grows(b: Seq<u8>, i: int) {
    lemma_dot_index(b, i);
}

proof fn lemma_dot_index(b: Seq<u8>, i: int)
    requires
        0 <= i,
    ensures
        i <= dot_index(b, i),
        i <= b.len() ==> dot_index(b, i) <= b.len(),
    decreases b.len() - i,
{
    if i < b.len() && b[i] != 0x2e {
        lemma_dot_index(b, i + 1);
    }
}

/// The question of a query: the name, type A, class IN.
pub open spec fn question(domain: Seq<u8>) -> Seq<u8> {
    wire_labels(domain, 0) + seq![0u8, 0, 1, 0, 1]
}

/// A query for the address of a domain, recursion desired.
pub open spec fn query_message(id: u16, domain: Seq<u8>) -> Seq<u8> {
    seq![(id / 256) as u8, (id % 256) as u8, 1, 0, 0, 1, 0, 0, 0, 0, 0, 0] + question(domain)
}

/// Builds a query for the address of a domain.
pub fn build_query(id: u16, domain: &str) -> (q: Vec<u8>)
    ensures
        q@ == query_message(id, encode_utf8(domain@)),
{
    let b = domain.as_bytes();
    let ghost head = seq![(id / 256) as u8, (id % 256) as u8, 1u8, 0, 0, 1, 0, 0, 0, 0, 0, 0];
    let mut q: Vec<u8> = Vec::new();
    q.push((id / 256) as u8);
    q.push((id % 256) as u8);
    q.push(1);
    q.push(0);
    q.push(0);
    q.push(1);
    q.push(0);
    q.push(0);
    q.push(0);
    q.push(0);
    q.push(0);
    q.push(0);
    assert(q@ == head);
    let mut i: usize = 0;
    let mut more = true;
    let ghost mut next: int = 0;
    assert(head + wire_labels(b@, 0) == q@ + wire_labels(b@, 0));
    while more
        invariant
            next >= 0,
            more ==> next == i,
            more <==> next <= b@.len(),
            q@ + wire_labels(b@, next) == head + wire_labels(b@, 0),
        decreases b@.len() + 1 - next,
    {
        let mut j: usize = i;
        proof {
            lemma_dot_index(b@, i as int);
        }
        while j < b.len() && b[j] != 0x2e
            invariant
                i <= j <= b.len(),
                dot_index(b@, j as int) == dot_index(b@, i as int),
            decreases b.len() - j,
        {
            j = j + 1;
        }
        let ghost before = q@;
        if j > i {
            q.push(((j - i) % 256) as u8);
            let mut k: usize = i;
            while k < j
                invariant
                    i <= k <= j <= b.len(),
                    q@ == before + seq![((j - i) % 256) as u8] + b@.subrange(i as int, k as int),
                decreases j - k,
            {
                q.push(b[k]);
                k = k + 1;
                assert(b@.subrange(i as int, k as int) == b@.subrange(i as int, k - 1).push(
                    b@[k - 1],
                ));
            }
        }
        proof {
            let label = b@.subrange(i as int, j as int);
            assert(label.len() == j - i);
            assert(q@ == before + wire_label(label));
            assert(q@ + wire_labels(b@, j + 1) == before + (wire_label(label) + wire_labels(
                b@,
                j + 1,
            )));
            next = j + 1;
        }
        if j < b.len() {
            i = j + 1;
        } else {
            more = false;
        }
    }
    assert(q@ == head + wire_labels(b@, 0)) by {
        assert(q@ + Seq::<u8>::empty() == q@);
    }
    q.push(0);
    q.push(0);
    q.push(1);
    q.push(0);
    q.push(1);
    q
}

/// Where the name that starts at `pos` ends; a compression pointer ends it. There
/// is no end where the name leaves the message.
pub open spec fn name_end(b: Seq<u8>, pos: int) -> Option<int>
    decreases
            if pos < b.len() {
                b.len() - pos
            } else {
                0
            },
{
    if pos < 0 || pos >= b.len() {
        None
    } else if b[pos] >= 0xC0 {
        Some(pos + 2)
    } else if b[pos] == 0 {
        Some(pos + 1)
    } else {
        name_end(b, pos + 1 + b[pos] as int)
    }
}

/// Skips a name and returns where it ends.
pub fn skip_name(buf: &[u8], pos: usize) -> (r: Result<usize, String>)
    requires
        buf@.len() <= isize::MAX,
    ensures
        match r {
            Ok(e) => name_end(buf@, pos as int) == Some(e as int) && e <= buf@.len() + 1,
            Err(t) => name_end(buf@, pos as int) is None && t@ == "名称字段越界"@,
        },
{
    let mut p: usize = pos;
    loop
        invariant
            buf@.len() <= isize::MAX,
            name_end(buf@, p as int) == name_end(buf@, pos as int),
        decreases
                if p < buf@.len() {
                    buf@.len() - p
                } else {
                    0
                },
    {
        if p >= buf.len() {
            return Err("名称字段越界".to_string());
        }
        let b = buf[p];
        if b >= 0xC0 {
            return Ok(p + 2);
        }
        if b == 0 {
            return Ok(p + 1);
        }
        p = p + 1 + b as usize;
    }
}

/// The number that two bytes hold, highest byte first.
pub open spec fn pair(b: Seq<u8>, i: int) -> nat {
    256 * b[i] as nat + b[i + 1] as nat
}

fn read_pair(b: &[u8], i: usize) -> (r: usize)
    requires
        i + 2 <= b.len(),
    ensures
        r == pair(b@, i as int),
{
    256 * b[i] as usize + b[i + 1] as usize
}

/// Where `n` questions that start at `pos` end.
pub open spec fn questions_end(b: Seq<u8>, pos: int, n: nat) -> Option<int>
    decreases n,
{
    if n == 0 {
        Some(pos)
    } else {
        match name_end(b, pos) {
            None => None,
            Some(e) => questions_end(b, e + 4, (n - 1) as nat),
        }
    }
}

/// The addresses in the `n` records that start at `pos`. A record that is cut off
/// ends the list; a name that leaves the message makes it unreadable.
pub open spec fn addresses(b: Seq<u8>, pos: int, n: nat) -> Option<Seq<Ipv4Addr>>
    decreases n,
{
    if n == 0 {
        Some(Seq::empty())
    } else {
        match name_end(b, pos) {
            None => None,
            Some(e) => if e + 10 > b.len() || e + 10 + pair(b, e + 8) > b.len() {
                Some(Seq::empty())
            } else {
                let p = e + 10;
                match addresses(b, p + pair(b, e + 8), (n - 1) as nat) {
                    None => None,
                    Some(rest) => if pair(b, e) == 1 && pair(b, e + 8) == 4 {
                        Some(
                            seq![Ipv4Addr { a: b[p], b: b[p + 1], c: b[p + 2], d: b[p + 3] }]
                                + rest,
                        )
                    } else {
                        Some(rest)
                    },
                }
            },
        }
    }
}

/// What an answer to query `id` says: the addresses in it, or why it is of no use.
pub open spec fn response(b: Seq<u8>, id: u16) -> Result<Seq<Ipv4Addr>, Seq<char>> {
    if b.len() < 12 {
        Err("应答报文过短"@)
    } else if pair(b, 0) != id {
        Err("应答事务 ID 不匹配"@)
    } else if b[2] < 0x80 {
        Err("收到的不是应答报文"@)
    } else if b[3] % 16 != 0 {
        Err("DNS 服务器返回错误码 "@ + text::dec((b[3] % 16) as nat) + "（3=域名不存在，5=拒绝）"@)
    } else {
        match questions_end(b, 12, pair(b, 4)) {
            None => Err("名称字段越界"@),
            Some(pos) => match addresses(b, pos, pair(b, 6)) {
                None => Err("名称字段越界"@),
                Some(list) => Ok(list),
            },
        }
    }
}

/// Reads the addresses out of an answer to query `id`.
pub fn parse_response(buf: &[u8], id: u16) -> (r: Result<Vec<Ipv4Addr>, String>)
    requires
        buf@.len() <= isize::MAX,
    ensures
        match r {
            Ok(v) => response(buf@, id) == Ok::<Seq<Ipv4Addr>, Seq<char>>(v@),
            Err(t) => response(buf@, id) == Err::<Seq<Ipv4Addr>, Seq<char>>(t@),
        },
{
    if buf.len() < 12 {
        return Err("应答报文过短".to_string());
    }
    if read_pair(buf, 0) != id as usize {
        return Err("应答事务 ID 不匹配".to_string());
    }
    if buf[2] < 0x80 {
        return Err("收到的不是应答报文".to_string());
    }
    let rcode = buf[3] % 16;
    if rcode != 0 {
        let mut t = "DNS 服务器返回错误码 ".to_string();
        t.append(text::decimal(rcode as u128).as_str());
        t.append("（3=域名不存在，5=拒绝）");
        return Err(t);
    }
    let qdcount = read_pair(buf, 4);
    let ancount = read_pair(buf, 6);
    let mut pos: usize = 12;
    let mut n: usize = qdcount;
    while n > 0
        invariant
            buf@.len() <= isize::MAX,
            pos <= buf@.len() + 5,
            buf@.len() >= 12,
            qdcount == pair(buf@, 4),
            pair(buf@, 0) == id,
            buf@[2] >= 0x80,
            buf@[3] % 16 == 0,
            questions_end(buf@, 12, qdcount as nat) == questions_end(buf@, pos as int, n as nat),
        decreases n,
    {
        match skip_name(buf, pos) {
            Ok(e) => {
                pos = e + 4;
            },
            Err(t) => {
                return Err(t);
            },
        }
        n = n - 1;
    }
    let ghost start = pos as int;
    let mut list: Vec<Ipv4Addr> = Vec::new();
    n = ancount;
    let ghost whole = addresses(buf@, start, ancount as nat);
    proof {
        if let Some(rest) = whole {
            assert(list@ + rest == rest);
        }
    }
    while n > 0
        invariant
            buf@.len() <= isize::MAX,
            pos <= buf@.len() + 5,
            buf@.len() >= 12,
            match addresses(buf@, pos as int, n as nat) {
                None => whole is None,
                Some(rest) => whole == Some(list@ + rest),
            },
            whole == addresses(buf@, start, ancount as nat),
            ancount == pair(buf@, 6),
            questions_end(buf@, 12, pair(buf@, 4)) == Some(start),
            pair(buf@, 0) == id,
            buf@[2] >= 0x80,
            buf@[3] % 16 == 0,
        decreases n,
    {
        let e = match skip_name(buf, pos) {
            Ok(e) => e,
            Err(t) => {
                return Err(t);
            },
        };
        if e + 10 > buf.len() {
            assert(list@ + Seq::<Ipv4Addr>::empty() == list@);
            return Ok(list);
        }
        let rtype = read_pair(buf, e);
        let rdlen = read_pair(buf, e + 8);
        let p = e + 10;
        if p + rdlen > buf.len() {
            assert(list@ + Seq::<Ipv4Addr>::empty() == list@);
            return Ok(list);
        }
        let ghost before = list@;
        if rtype == 1 && rdlen == 4 {
            list.push(Ipv4Addr::new(buf[p], buf[p + 1], buf[p + 2], buf[p + 3]));
        }
        proof {
            if let Some(rest) = addresses(buf@, p + rdlen, (n - 1) as nat) {
                let x = Ipv4Addr {
                    a: buf@[p as int],
                    b: buf@[p + 1],
                    c: buf@[p + 2],
                    d: buf@[p + 3],
                };
                assert(before.push(x) + rest == before + (seq![x] + rest));
            }
        }
        pos = p + rdlen;
        n = n - 1;
    }
    assert(list@ + Seq::<Ipv4Addr>::empty() == list@);
    Ok(list)
}

/// How far an exchange with a server got.
#[derive(Clone, Debug)]
pub enum Exchange {
    /// No socket could be made.
    NoSocket(String),
    /// The query could not be sent.
    NotSent(String),
    /// No answer came in time.
    TimedOut,
    /// The answer could not be received.
    NotReceived(String),
    /// An answer came.
    Received(Vec<u8>),
}

/// Why an exchange brought no addresses; `None` where it did.
pub open spec fn failure(x: Exchange, timeout_ms: nat) -> Option<Seq<char>> {
    match x {
        Exchange::NoSocket(e) => Some("无法创建 UDP 套接字: "@ + e@),
        Exchange::NotSent(e) => Some("发送查询失败: "@ + e@),
        Exchange::TimedOut => Some("查询超时（"@ + text::dec(timeout_ms) + "ms 无应答）"@),
        Exchange::NotReceived(e) => Some("接收应答失败: "@ + e@),
        Exchange::Received(b) => match response(b@, QUERY_ID) {
            Ok(list) => if list.len() > 0 {
                None
            } else {
                Some("服务器应答中没有 A 记录"@)
            },
            Err(t) => Some(t),
        },
    }
}

/// The result of the query that brought `x` after `elapsed_ms`. A query that was
/// never sent took no time.
pub fn query(
    server: Ipv4Addr,
    domain: &str,
    label: &str,
    timeout_ms: u64,
    x: Exchange,
    elapsed_ms: u64,
) -> (r: DnsQueryResult)
    requires
        x matches Exchange::Received(b) ==> b@.len() <= isize::MAX,
    ensures
        r.server == server,
        r.domain@ == domain@,
        r.label@ == label@,
        r.success <==> failure(x, timeout_ms as nat) is None,
        match r.error {
            Some(t) => failure(x, timeout_ms as nat) == Some(t@),
            None => failure(x, timeout_ms as nat) is None,
        },
        r.success ==> x is Received && response(x->Received_0@, QUERY_ID) == Ok::<
            Seq<Ipv4Addr>,
            Seq<char>,
        >(r.answers@) && r.answers@.len() > 0,
        !r.success ==> r.answers@.len() == 0,
        r.elapsed_ms == if x is NoSocket || x is NotSent {
            0
        } else {
            elapsed_ms
        },
{
    let mut answers: Vec<Ipv4Addr> = Vec::new();
    let mut took: u64 = elapsed_ms;
    let error: Option<String> = match &x {
        Exchange::NoSocket(e) => {
            took = 0;
            let mut t = "无法创建 UDP 套接字: ".to_string();
            t.append(e.as_str());
            Some(t)
        },
        Exchange::NotSent(e) => {
            took = 0;
            let mut t = "发送查询失败: ".to_string();
            t.append(e.as_str());
            Some(t)
        },
        Exchange::TimedOut => {
            let mut t = "查询超时（".to_string();
            t.append(text::decimal(timeout_ms as u128).as_str());
            t.append("ms 无应答）");
            Some(t)
        },
        Exchange::NotReceived(e) => {
            let mut t = "接收应答失败: ".to_string();
            t.append(e.as_str());
            Some(t)
        },
        Exchange::Received(b) => match parse_response(b.as_slice(), QUERY_ID) {
            Ok(list) => if list.len() > 0 {
                answers = list;
                None
            } else {
                Some("服务器应答中没有 A 记录".to_string())
            },
            Err(t) => Some(t),
        },
    };
    DnsQueryResult {
        server,
        domain: domain.to_string(),
        label: label.to_string(),
        success: error.is_none(),
        answers,
        elapsed_ms: took,
        error,
    }
}

/// What the system's resolver brought.
#[derive(Clone, Debug)]
pub enum Resolution {
    /// The addresses of the name.
    Resolved(Vec<IpAddr>),
    /// The resolver failed.
    Failed(String),
    /// The resolver gave no answer in time.
    TimedOut,
}

/// The IPv4 addresses among `list`, in order.
pub open spec fn only_v4(list: Seq<IpAddr>) -> Seq<Ipv4Addr>
    decreases list.len(),
{
    if list.len() == 0 {
        Seq::empty()
    } else {
        match list.last() {
            IpAddr::V4(x) => only_v4(list.drop_last()).push(x),
            IpAddr::V6 => only_v4(list.drop_last()),
        }
    }
}

/// Picks the IPv4 addresses.
pub fn pick_v4(list: &Vec<IpAddr>) -> (v: Vec<Ipv4Addr>)
    ensures
        v@ == only_v4(list@),
{
    let mut v: Vec<Ipv4Addr> = Vec::new();
    let mut i: usize = 0;
    while i < list.len()
        invariant
            i <= list.len(),
            v@ == only_v4(list@.take(i as int)),
        decreases list.len() - i,
    {
        assert(list@.take(i + 1).drop_last() == list@.take(i as int));
        if let IpAddr::V4(x) = list[i] {
            v.push(x);
        }
        i = i + 1;
    }
    assert(list@.take(i as int) == list@);
    v
}

/// Picks the first IPv4 address.
pub fn first_v4(list: &Vec<IpAddr>) -> (r: Option<Ipv4Addr>)
    ensures
        r == if only_v4(list@).len() > 0 {
            Some(only_v4(list@)[0])
        } else {
            None
        },
{
    let v = pick_v4(list);
    if v.len() > 0 {
        Some(v[0])
    } else {
        None
    }
}

/// What the system's resolver said of a name: its IPv4 addresses, or why there
/// are none.
pub fn resolve_system(x: Resolution, timeout_ms: u64) -> (r: Result<Vec<Ipv4Addr>, String>)
    ensures
        match x {
            Resolution::Resolved(list) => if only_v4(list@).len() > 0 {
                r matches Ok(v) && v@ == only_v4(list@)
            } else {
                r matches Err(t) && t@ == "系统解析未返回 IPv4 地址"@
            },
            Resolution::Failed(e) => r matches Err(t) && t@ == e@,
            Resolution::TimedOut => r matches Err(t) && t@ == "系统解析超时（"@ + text::dec(
                timeout_ms as nat,
            ) + "ms）"@,
        },
{
    match x {
        Resolution::Resolved(list) => {
            let v = pick_v4(&list);
            if v.len() > 0 {
                Ok(v)
            } else {
                Err("系统解析未返回 IPv4 地址".to_string())
            }
        },
        Resolution::Failed(e) => Err(e),
        Resolution::TimedOut => {
            let mut t = "系统解析超时（".to_string();
            t.append(text::decimal(timeout_ms as u128).as_str());
            t.append("ms）");
            Err(t)
        },
    }
}

/// Every label from byte `i` on has fewer than 192 bytes, so that its length is
/// not taken for a compression pointer.
pub open spec fn short_labels(b: Seq<u8>, i: int) -> bool
    decreases b.len() + 1 - i,
    when 0 <= i
    via short_labels_shrink
{
    i > b.len() || (dot_index(b, i) - i < 0xC0 && short_labels(b, dot_index(b, i) + 1))
}

#[via_fn]
proof fn short_labels_shrink(b: Seq<u8>, i: int) {
    lemma_dot_index(b, i);
}

proof fn lemma_labels_skipped(pre: Seq<u8>, b: Seq<u8>, i: int, post: Seq<u8>)
    requires
        0 <= i,
        short_labels(b, i),
    ensures
        name_end(pre + wire_labels(b, i) + seq![0u8] + post, pre.len() as int) == Some(
            (pre.len() + wire_labels(b, i).len() + 1) as int,
        ),
    decreases b.len() + 1 - i,
{
    let w = wire_labels(b, i);
    let m = pre + w + seq![0u8] + post;
    if i > b.len() {
        assert(w == Seq::<u8>::empty());
        assert(m[pre.len() as int] == 0);
    } else {
        lemma_dot_index(b, i);
        let j = dot_index(b, i);
        let label = b.subrange(i, j);
        let rest = wire_labels(b, j + 1);
        if label.len() == 0 {
            assert(w == rest);
            lemma_labels_skipped(pre, b, j + 1, post);
        } else {
            let n = (label.len() % 256) as u8;
            let more = pre + (seq![n] + label);
            assert(m == more + rest + seq![0u8] + post);
            assert(m[pre.len() as int] == n);
            lemma_labels_skipped(more, b, j + 1, post);
        }
    }
}

/// The name in a query is skipped to its end: only type and class remain. A label
/// of 192 bytes or more is left out; its length reads as a compression pointer.
pub proof fn law_query_name_skipped(id: u16, domain: Seq<u8>)
    requires
        short_labels(domain, 0),
    ensures
        name_end(query_message(id, domain), 12) == Some(query_message(id, domain).len() - 4),
{
    let head = seq![(id / 256) as u8, (id % 256) as u8, 1u8, 0, 0, 1, 0, 0, 0, 0, 0, 0];
    let post = seq![0u8, 1, 0, 1];
    lemma_labels_skipped(head, domain, 0, post);
    assert(query_message(id, domain) == head + wire_labels(domain, 0) + seq![0u8] + post);
}

/// Address records that point back to the question's name, all with one TTL.
pub open spec fn records(list: Seq<Ipv4Addr>, ttl: Seq<u8>) -> Seq<u8>
    decreases list.len(),
{
    if list.len() == 0 {
        Seq::empty()
    } else {
        let x = list[0];
        seq![0xC0u8, 0x0C, 0, 1, 0, 1] + ttl + seq![0u8, 4, x.a, x.b, x.c, x.d] + records(
            list.skip(1),
            ttl,
        )
    }
}

/// The answer of a server that gives these addresses for a domain.
pub open spec fn answer_message(
    id: u16,
    domain: Seq<u8>,
    list: Seq<Ipv4Addr>,
    ttl: Seq<u8>,
) -> Seq<u8> {
    seq![
        (id / 256) as u8,
        (id % 256) as u8,
        0x81,
        0x80,
        0,
        1,
        (list.len() / 256) as u8,
        (list.len() % 256) as u8,
        0,
        0,
        0,
        0,
    ] + question(domain) + records(list, ttl)
}

proof fn lemma_records_read(pre: Seq<u8>, list: Seq<Ipv4Addr>, ttl: Seq<u8>)
    requires
        ttl.len() == 4,
    ensures
        addresses(pre + records(list, ttl), pre.len() as int, list.len()) == Some(list),
    decreases list.len(),
{
    let m = pre + records(list, ttl);
    let pos = pre.len() as int;
    if list.len() > 0 {
        let x = list[0];
        let record = seq![0xC0u8, 0x0C, 0, 1, 0, 1] + ttl + seq![0u8, 4, x.a, x.b, x.c, x.d];
        let rest = records(list.skip(1), ttl);
        assert(m == (pre + record) + rest);
        lemma_records_read(pre + record, list.skip(1), ttl);
        assert(m[pos] == 0xC0);
        assert(m[pos + 2] == 0 && m[pos + 3] == 1);
        assert(m[pos + 10] == 0 && m[pos + 11] == 4);
        assert(m[pos + 12] == x.a && m[pos + 13] == x.b && m[pos + 14] == x.c && m[pos + 15]
            == x.d);
        assert(seq![x] + list.skip(1) == list);
    } else {
        assert(list == Seq::<Ipv4Addr>::empty());
    }
}

/// A client reads from a server's answer the very addresses that the server put
/// into it. A label of 192 bytes or more is left out, as above.
pub proof fn law_answer_read_back(
    id: u16,
    domain: Seq<u8>,
    list: Seq<Ipv4Addr>,
    ttl: Seq<u8>,
)
    requires
        short_labels(domain, 0),
        list.len() < 0x1_0000,
        ttl.len() == 4,
    ensures
        response(answer_message(id, domain, list, ttl), id) == Ok::<Seq<Ipv4Addr>, Seq<char>>(list),
{
    let m = answer_message(id, domain, list, ttl);
    let head = seq![
        (id / 256) as u8,
        (id % 256) as u8,
        0x81u8,
        0x80,
        0,
        1,
        (list.len() / 256) as u8,
        (list.len() % 256) as u8,
        0,
        0,
        0,
        0,
    ];
    let tail = seq![0u8, 1, 0, 1];
    let post = tail + records(list, ttl);
    lemma_labels_skipped(head, domain, 0, post);
    assert(m == head + wire_labels(domain, 0) + seq![0u8] + post);
    let pre = head + question(domain);
    assert(m == pre + records(list, ttl));
    lemma_records_read(pre, list, ttl);
    assert(m[0] == (id / 256) as u8 && m[1] == (id % 256) as u8 && m[2] == 0x81 && m[3] == 0x80);
    assert(m[4] == 0 && m[5] == 1);
    assert(m[6] == (list.len() / 256) as u8 && m[7] == (list.len() % 256) as u8);
    assert(pair(m, 4) == 1);
    assert(pair(m, 6) == list.len());
    reveal_with_fuel(questions_end, 2);
    assert(questions_end(m, 12, 1) == Some(pre.len() as int));
}

/// A name in a message: labels written out and, behind them, a pointer to the rest of
/// the name or its end.
pub ghost struct Name {
    pub labels: Seq<Seq<u8>>,
    pub pointer: Option<(u8, u8)>,
}

/// A question in a message, with its type and class.
pub ghost struct Question {
    pub name: Name,
    pub kind_and_class: Seq<u8>,
}

/// A record in a message.
pub ghost struct Record {
    pub owner: Name,
    pub kind: u16,
    pub class_and_ttl: Seq<u8>,
    pub data: Seq<u8>,
}

/// Labels of 1 to 191 bytes, and a pointer that is marked as one.
pub open spec fn well_named(n: Name) -> bool {
    &&& forall|i: int| 0 <= i < n.labels.len() ==> 0 < (#[trigger] n.labels[i]).len() < 0xC0
    &&& n.pointer matches Some(p) ==> p.0 >= 0xC0
}

/// The labels on the wire, each behind its length.
pub open spec fn label_bytes(labels: Seq<Seq<u8>>) -> Seq<u8>
    decreases labels.len(),
{
    if labels.len() == 0 {
        Seq::empty()
    } else {
        seq![labels[0].len() as u8] + labels[0] + label_bytes(labels.skip(1))
    }
}

/// The name on the wire.
pub open spec fn name_bytes(n: Name) -> Seq<u8> {
    label_bytes(n.labels) + match n.pointer {
        Some(p) => seq![p.0, p.1],
        None => seq![0u8],
    }
}

/// The questions on the wire.
pub open spec fn question_bytes(v: Seq<Question>) -> Seq<u8>
    decreases v.len(),
{
    if v.len() == 0 {
        Seq::empty()
    } else {
        name_bytes(v[0].name) + v[0].kind_and_class + question_bytes(v.skip(1))
    }
}

/// A record on the wire.
pub open spec fn one_record(r: Record) -> Seq<u8> {
    name_bytes(r.owner) + seq![(r.kind / 256) as u8, (r.kind % 256) as u8] + r.class_and_ttl + seq![
        (r.data.len() / 256) as u8,
        (r.data.len() % 256) as u8,
    ] + r.data
}

/// The records on the wire.
pub open spec fn record_bytes(v: Seq<Record>) -> Seq<u8>
    decreases v.len(),
{
    if v.len() == 0 {
        Seq::empty()
    } else {
        one_record(v[0]) + record_bytes(v.skip(1))
    }
}

/// Questions that can stand in a message.
pub open spec fn well_asked(v: Seq<Question>) -> bool {
    forall|i: int|
        0 <= i < v.len() ==> well_named((#[trigger] v[i]).name) && v[i].kind_and_class.len() == 4
}

/// Records that can stand in a message.
pub open spec fn well_recorded(v: Seq<Record>) -> bool {
    forall|i: int|
        0 <= i < v.len() ==> well_named((#[trigger] v[i]).owner) && v[i].class_and_ttl.len() == 6
            && v[i].data.len() < 0x1_0000
}

/// The addresses that the records give: the data of those that are of type A and hold
/// four bytes, in their order.
pub open spec fn given(v: Seq<Record>) -> Seq<Ipv4Addr>
    decreases v.len(),
{
    if v.len() == 0 {
        Seq::empty()
    } else if v[0].kind == 1 && v[0].data.len() == 4 {
        seq![Ipv4Addr { a: v[0].data[0], b: v[0].data[1], c: v[0].data[2], d: v[0].data[3] }]
            + given(v.skip(1))
    } else {
        given(v.skip(1))
    }
}

proof fn lemma_name_skipped(pre: Seq<u8>, n: Name, post: Seq<u8>)
    requires
        well_named(n),
    ensures
        name_end(pre + name_bytes(n) + post, pre.len() as int) == Some(
            (pre.len() + name_bytes(n).len()) as int,
        ),
    decreases n.labels.len(),
{
    let w = name_bytes(n);
    let m = pre + w + post;
    let at = pre.len() as int;
    if n.labels.len() == 0 {
        assert(label_bytes(n.labels) == Seq::<u8>::empty());
        assert(m[at] == w[0]);
    } else {
        let label = n.labels[0];
        let rest = Name { labels: n.labels.skip(1), pointer: n.pointer };
        let first = seq![label.len() as u8] + label;
        assert(forall|i: int| 0 <= i < rest.labels.len() ==> rest.labels[i] == n.labels[i + 1]);
        lemma_name_skipped(pre + first, rest, post);
        assert(w =~= first + name_bytes(rest));
        assert(m =~= (pre + first) + name_bytes(rest) + post);
        assert(m[at] == label.len() as u8);
    }
}

proof fn lemma_questions_skipped(pre: Seq<u8>, v: Seq<Question>, post: Seq<u8>)
    requires
        well_asked(v),
    ensures
        questions_end(pre + question_bytes(v) + post, pre.len() as int, v.len()) == Some(
            (pre.len() + question_bytes(v).len()) as int,
        ),
    decreases v.len(),
{
    let m = pre + question_bytes(v) + post;
    if v.len() > 0 {
        let name = name_bytes(v[0].name);
        let rest = question_bytes(v.skip(1));
        let more = v[0].kind_and_class + rest + post;
        assert(m =~= pre + name + more);
        lemma_name_skipped(pre, v[0].name, more);
        let next = pre + name + v[0].kind_and_class;
        assert(m =~= next + rest + post);
        assert(forall|i: int| 0 <= i < v.skip(1).len() ==> v.skip(1)[i] == v[i + 1]);
        lemma_questions_skipped(next, v.skip(1), post);
    }
}

proof fn lemma_given_read(pre: Seq<u8>, v: Seq<Record>, post: Seq<u8>, more: nat)
    requires
        well_recorded(v),
    ensures
        ({
            let m = pre + record_bytes(v) + post;
            addresses(m, pre.len() as int, v.len() + more) == match addresses(
                m,
                (pre.len() + record_bytes(v).len()) as int,
                more,
            ) {
                Some(rest) => Some(given(v) + rest),
                None => None,
            }
        }),
    decreases v.len(),
{
    let m = pre + record_bytes(v) + post;
    let end = (pre.len() + record_bytes(v).len()) as int;
    if v.len() == 0 {
        if let Some(rest) = addresses(m, end, more) {
            assert(given(v) + rest =~= rest);
        }
    } else {
        let r = v[0];
        let name = name_bytes(r.owner);
        let rest = record_bytes(v.skip(1));
        let kind = seq![(r.kind / 256) as u8, (r.kind % 256) as u8];
        let len = seq![(r.data.len() / 256) as u8, (r.data.len() % 256) as u8];
        let tail = kind + r.class_and_ttl + len + r.data + rest + post;
        assert(m =~= pre + name + tail);
        lemma_name_skipped(pre, r.owner, tail);
        let e = (pre.len() + name.len()) as int;
        assert(m[e] == kind[0] && m[e + 1] == kind[1]);
        assert(m[e + 8] == len[0] && m[e + 9] == len[1]);
        assert(pair(m, e) == r.kind);
        assert(pair(m, e + 8) == r.data.len());
        let next = pre + one_record(r);
        assert(m =~= next + rest + post);
        assert(forall|i: int| 0 <= i < v.skip(1).len() ==> v.skip(1)[i] == v[i + 1]);
        lemma_given_read(next, v.skip(1), post, more);
        assert(next.len() == e + 10 + r.data.len());
        if r.kind == 1 && r.data.len() == 4 {
            assert(m[e + 10] == r.data[0] && m[e + 11] == r.data[1] && m[e + 12] == r.data[2]
                && m[e + 13] == r.data[3]);
            if let Some(x) = addresses(m, end, more) {
                let one = seq![
                    Ipv4Addr { a: r.data[0], b: r.data[1], c: r.data[2], d: r.data[3] },
                ];
                assert(one + (given(v.skip(1)) + x) =~= (one + given(v.skip(1))) + x);
            }
        }
    }
}

/// The head of an answer to query `id` that reports no error, with so many questions
/// and records.
pub open spec fn fine_head(head: Seq<u8>, id: u16, questions: nat, records: nat) -> bool {
    &&& head.len() == 12
    &&& 256 * head[0] + head[1] == id
    &&& head[2] >= 0x80
    &&& head[3] % 16 == 0
    &&& 256 * head[4] + head[5] == questions
    &&& 256 * head[6] + head[7] == records
}

proof fn lemma_answer_opened(
    head: Seq<u8>,
    id: u16,
    asked: Seq<Question>,
    records: Seq<Record>,
    rest: Seq<u8>,
    more: nat,
)
    requires
        fine_head(head, id, asked.len(), records.len() + more),
        well_asked(asked),
        well_recorded(records),
    ensures
        ({
            let m = head + question_bytes(asked) + record_bytes(records) + rest;
            response(m, id) == match addresses(m, m.len() - rest.len(), more) {
                Some(list) => Ok::<Seq<Ipv4Addr>, Seq<char>>(given(records) + list),
                None => Err::<Seq<Ipv4Addr>, Seq<char>>("名称字段越界"@),
            }
        }),
{
    let m = head + question_bytes(asked) + record_bytes(records) + rest;
    let post = record_bytes(records) + rest;
    assert(m =~= head + question_bytes(asked) + post);
    lemma_questions_skipped(head, asked, post);
    let pre = head + question_bytes(asked);
    assert(m =~= pre + record_bytes(records) + rest);
    lemma_given_read(pre, records, rest, more);
    assert(m[0] == head[0] && m[1] == head[1] && m[2] == head[2] && m[3] == head[3]);
    assert(m[4] == head[4] && m[5] == head[5] && m[6] == head[6] && m[7] == head[7]);
    assert(pair(m, 0) == id && pair(m, 4) == asked.len() && pair(m, 6) == records.len() + more);
}

/// From an answer, whatever its questions, whatever names, types and lengths its
/// records have and whatever stands behind them, the addresses are read that its
/// address records give: all of them, in their order and nothing else. A record's
/// name plays no part: it may point to the question, to an alias, or be written out.
pub proof fn law_every_address_record_is_read(
    head: Seq<u8>,
    id: u16,
    asked: Seq<Question>,
    records: Seq<Record>,
    rest: Seq<u8>,
)
    requires
        fine_head(head, id, asked.len(), records.len()),
        well_asked(asked),
        well_recorded(records),
    ensures
        response(head + question_bytes(asked) + record_bytes(records) + rest, id) == Ok::<
            Seq<Ipv4Addr>,
            Seq<char>,
        >(given(records)),
{
    lemma_answer_opened(head, id, asked, records, rest, 0);
    assert(given(records) + Seq::<Ipv4Addr>::empty() =~= given(records));
}

/// An answer that is cut off in a record, behind the record's name, still gives the
/// addresses before it; one that ends where another record should begin is
/// unreadable.
pub proof fn law_cut_off_answer(
    head: Seq<u8>,
    id: u16,
    asked: Seq<Question>,
    records: Seq<Record>,
    owner: Name,
    tail: Seq<u8>,
    more: nat,
)
    requires
        more > 0,
        fine_head(head, id, asked.len(), records.len() + more),
        well_asked(asked),
        well_recorded(records),
        well_named(owner),
        tail.len() < 10 || tail.len() < 10 + 256 * tail[8] + tail[9],
    ensures
        response(
            head + question_bytes(asked) + record_bytes(records) + (name_bytes(owner) + tail),
            id,
        ) == Ok::<Seq<Ipv4Addr>, Seq<char>>(given(records)),
        response(head + question_bytes(asked) + record_bytes(records) + Seq::empty(), id) == Err::<
            Seq<Ipv4Addr>,
            Seq<char>,
        >("名称字段越界"@),
{
    let rest = name_bytes(owner) + tail;
    lemma_answer_opened(head, id, asked, records, rest, more);
    lemma_answer_opened(head, id, asked, records, Seq::empty(), more);
    let pre = head + question_bytes(asked) + record_bytes(records);
    let m = pre + rest;
    assert(m =~= pre + name_bytes(owner) + tail);
    lemma_name_skipped(pre, owner, tail);
    let e = (pre.len() + name_bytes(owner).len()) as int;
    if tail.len() >= 10 {
        assert(m[e + 8] == tail[8] && m[e + 9] == tail[9]);
    }
    assert(given(records) + Seq::<Ipv4Addr>::empty() =~= given(records));
}

/// A message is of use only where it is an answer, to this query and without an error
/// code: at least twelve bytes, the number of the query in front, the mark of an
/// answer, and no error.
pub proof fn law_useless_answer_is_refused(b: Seq<u8>, id: u16)
    ensures
        response(b, id) is Ok ==> {
            &&& b.len() >= 12
            &&& 256 * b[0] + b[1] == id
            &&& b[2] / 128 == 1
            &&& b[3] % 16 == 0
        },
        b.len() < 12 ==> response(b, id) == Err::<Seq<Ipv4Addr>, Seq<char>>("应答报文过短"@),
        b.len() >= 12 && 256 * b[0] + b[1] != id ==> response(b, id) == Err::<
            Seq<Ipv4Addr>,
            Seq<char>,
        >("应答事务 ID 不匹配"@),
        b.len() >= 12 && 256 * b[0] + b[1] == id && b[2] / 128 == 0 ==> response(b, id) == Err::<
            Seq<Ipv4Addr>,
            Seq<char>,
        >("收到的不是应答报文"@),
        b.len() >= 12 && 256 * b[0] + b[1] == id && b[2] / 128 == 1 && b[3] % 16 != 0 ==> response(
            b,
            id,
        ) == Err::<Seq<Ipv4Addr>, Seq<char>>(
            "DNS 服务器返回错误码 "@ + text::dec((b[3] % 16) as nat) + "（3=域名不存在，5=拒绝）"@,
        ),
{
}

/// A query brings addresses exactly where an answer came in which some were read, and
/// then brings those; in every other case there are none and it is said why.
pub proof fn law_query_succeeds_with_addresses(
    server: Ipv4Addr,
    domain: &str,
    label: &str,
    timeout_ms: u64,
    x: Exchange,
    elapsed_ms: u64,
    r: DnsQueryResult,
)
    requires
        call_ensures(query, (server, domain, label, timeout_ms, x, elapsed_ms), r),
    ensures
        r.server == server && r.domain@ == domain@ && r.label@ == label@,
        r.success <==> r.error is None,
        r.success <==> r.answers@.len() > 0,
        r.success <==> (x matches Exchange::Received(b) && (response(b@, QUERY_ID) matches Ok(list)
            && list.len() > 0)),
        r.success ==> response(x->Received_0@, QUERY_ID) == Ok::<Seq<Ipv4Addr>, Seq<char>>(
            r.answers@,
        ),
        x matches Exchange::Received(b) ==> (response(b@, QUERY_ID) matches Err(t)
            ==> r.error matches Some(e) && e@ == t),
        x is NoSocket || x is NotSent ==> r.elapsed_ms == 0,
        x is Received || x is TimedOut || x is NotReceived ==> r.elapsed_ms == elapsed_ms,
{
}

/// The IPv4 addresses of two lists, one behind the other, are those of the first and
/// then those of the second; of a single address, that one exactly where it is IPv4.
pub proof fn law_v4_picked_in_order(a: Seq<IpAddr>, b: Seq<IpAddr>, x: Ipv4Addr)
    ensures
        only_v4(a + b) == only_v4(a) + only_v4(b),
        only_v4(seq![IpAddr::V4(x)]) == seq![x],
        only_v4(seq![IpAddr::V6]) == Seq::<Ipv4Addr>::empty(),
        only_v4(Seq::empty()) == Seq::<Ipv4Addr>::empty(),
    decreases b.len(),
{
    reveal_with_fuel(only_v4, 2);
    assert(seq![IpAddr::V4(x)].drop_last() =~= Seq::<IpAddr>::empty());
    assert(seq![IpAddr::V6].drop_last() =~= Seq::<IpAddr>::empty());
    if b.len() == 0 {
        assert(a + b =~= a);
        assert(only_v4(a) + Seq::<Ipv4Addr>::empty() =~= only_v4(a));
    } else {
        assert((a + b).drop_last() =~= a + b.drop_last());
        law_v4_picked_in_order(a, b.drop_last(), x);
        assert(only_v4(a + b) =~= only_v4(a) + only_v4(b));
    }
}

/// What the system's resolver said is kept exactly where there is an IPv4 address in
/// it, and the first IPv4 address of a list is the first of those.
pub proof fn law_resolved_keeps_v4(
    list: Vec<IpAddr>,
    timeout_ms: u64,
    r: Result<Vec<Ipv4Addr>, String>,
    first: Option<Ipv4Addr>,
)
    requires
        call_ensures(resolve_system, (Resolution::Resolved(list), timeout_ms), r),
        call_ensures(first_v4, (&list,), first),
    ensures
        r is Ok <==> first is Some,
        r matches Ok(v) ==> v@ == only_v4(list@) && first == Some(v@[0]),
        r is Err ==> only_v4(list@).len() == 0,
{
}

/// The labels, dots between them.
pub open spec fn dotted(labels: Seq<Seq<u8>>) -> Seq<u8>
    decreases labels.len(),
{
    if labels.len() == 0 {
        Seq::empty()
    } else if labels.len() == 1 {
        labels[0]
    } else {
        labels[0] + seq![0x2eu8] + dotted(labels.skip(1))
    }
}

proof fn lemma_next_dot(b: Seq<u8>, i: int, j: int)
    requires
        0 <= i <= j <= b.len(),
        forall|k: int| i <= k < j ==> (#[trigger] b[k]) != 0x2e,
        j == b.len() || b[j] == 0x2e,
    ensures
        dot_index(b, i) == j,
    decreases j - i,
{
    if i < j {
        lemma_next_dot(b, i + 1, j);
    }
}

proof fn lemma_labels_spelled(pre: Seq<u8>, labels: Seq<Seq<u8>>)
    requires
        labels.len() > 0,
        forall|i: int| 0 <= i < labels.len() ==> 0 < (#[trigger] labels[i]).len() < 256,
        forall|i: int, k: int|
            0 <= i < labels.len() && 0 <= k < labels[i].len() ==> (#[trigger] labels[i][k]) != 0x2e,
    ensures
        wire_labels(pre + dotted(labels), pre.len() as int) == label_bytes(labels),
    decreases labels.len(),
{
    let b = pre + dotted(labels);
    let i = pre.len() as int;
    let label = labels[0];
    let j = i + label.len();
    let more = labels.skip(1);
    assert(forall|k: int| 0 <= k < more.len() ==> more[k] == labels[k + 1]);
    assert forall|k: int| i <= k < j implies (#[trigger] b[k]) != 0x2e by {
        assert(b[k] == labels[0][k - i]);
    }
    assert(b.subrange(i, j) =~= label);
    if labels.len() == 1 {
        lemma_next_dot(b, i, j);
        assert(label_bytes(more) =~= Seq::<u8>::empty());
        assert(wire_labels(b, j + 1) =~= Seq::<u8>::empty());
        assert(wire_labels(b, i) =~= label_bytes(labels));
    } else {
        let next = pre + label + seq![0x2eu8];
        assert(b =~= next + dotted(more));
        assert(b[j] == 0x2e);
        lemma_next_dot(b, i, j);
        lemma_labels_spelled(next, more);
        assert(wire_labels(b, i) =~= label_bytes(labels));
    }
}

/// A query for a domain spells its labels, each behind its length, and asks for the
/// address: one question, type A, class IN, recursion desired, under its number.
pub proof fn law_query_spells_the_domain(id: u16, labels: Seq<Seq<u8>>)
    requires
        labels.len() > 0,
        forall|i: int| 0 <= i < labels.len() ==> 0 < (#[trigger] labels[i]).len() < 256,
        forall|i: int, k: int|
            0 <= i < labels.len() && 0 <= k < labels[i].len() ==> (#[trigger] labels[i][k]) != 0x2e,
    ensures
        ({
            let q = query_message(id, dotted(labels));
            &&& 256 * q[0] + q[1] == id
            &&& q.subrange(2, 12) == seq![1u8, 0, 0, 1, 0, 0, 0, 0, 0, 0]
            &&& q.skip(12) == label_bytes(labels) + seq![0u8, 0, 1, 0, 1]
        }),
{
    lemma_labels_spelled(Seq::empty(), labels);
    assert(Seq::<u8>::empty() + dotted(labels) =~= dotted(labels));
    let q = query_message(id, dotted(labels));
    assert(q.subrange(2, 12) =~= seq![1u8, 0, 0, 1, 0, 0, 0, 0, 0, 0]);
    assert(q.skip(12) =~= label_bytes(labels) + seq![0u8, 0, 1, 0, 1]);
}

/// The beginning of a name that leaves the message: labels, and then nothing, or a
/// label that the message is too short for.
pub open spec fn unfinished(labels: Seq<Seq<u8>>, tail: Seq<u8>) -> bool {
    &&& forall|i: int| 0 <= i < labels.len() ==> 0 < (#[trigger] labels[i]).len() < 0xC0
    &&& tail.len() > 0 ==> 0 < tail[0] < 0xC0 && tail.len() <= tail[0] + 1
}

proof fn lemma_unfinished(pre: Seq<u8>, labels: Seq<Seq<u8>>, tail: Seq<u8>)
    requires
        unfinished(labels, tail),
    ensures
        name_end(pre + (label_bytes(labels) + tail), pre.len() as int) is None,
    decreases labels.len(),
{
    let m = pre + (label_bytes(labels) + tail);
    let at = pre.len() as int;
    if labels.len() == 0 {
        assert(label_bytes(labels) + tail =~= tail);
        if tail.len() > 0 {
            assert(m[at] == tail[0]);
            assert(at + 1 + m[at] >= m.len());
            assert(name_end(m, at + 1 + m[at] as int) is None);
        }
    } else {
        let label = labels[0];
        let first = seq![label.len() as u8] + label;
        let more = labels.skip(1);
        assert(forall|i: int| 0 <= i < more.len() ==> more[i] == labels[i + 1]);
        lemma_unfinished(pre + first, more, tail);
        assert(m =~= (pre + first) + (label_bytes(more) + tail));
        assert(m[at] == label.len() as u8);
    }
}

/// An answer in which a name leaves the message is unreadable, whether it is that of a
/// question or that of a record, and whatever addresses stand before it.
pub proof fn law_unfinished_name_is_refused(
    head: Seq<u8>,
    id: u16,
    asked: Seq<Question>,
    records: Seq<Record>,
    labels: Seq<Seq<u8>>,
    tail: Seq<u8>,
    more: nat,
)
    requires
        more > 0,
        well_asked(asked),
        well_recorded(records),
        unfinished(labels, tail),
    ensures
        fine_head(head, id, asked.len(), records.len() + more) ==> response(
            head + question_bytes(asked) + record_bytes(records) + (label_bytes(labels) + tail),
            id,
        ) == Err::<Seq<Ipv4Addr>, Seq<char>>("名称字段越界"@),
        fine_head(head, id, 1, records.len()) ==> response(head + (label_bytes(labels) + tail), id)
            == Err::<Seq<Ipv4Addr>, Seq<char>>("名称字段越界"@),
{
    let rest = label_bytes(labels) + tail;
    if fine_head(head, id, asked.len(), records.len() + more) {
        lemma_answer_opened(head, id, asked, records, rest, more);
        lemma_unfinished(head + question_bytes(asked) + record_bytes(records), labels, tail);
    }
    if fine_head(head, id, 1, records.len()) {
        let m = head + rest;
        lemma_unfinished(head, labels, tail);
        assert(m[0] == head[0] && m[1] == head[1] && m[2] == head[2] && m[3] == head[3]);
        assert(m[4] == head[4] && m[5] == head[5]);
        assert(pair(m, 0) == id && pair(m, 4) == 1);
        reveal_with_fuel(questions_end, 2);
        assert(questions_end(m, 12, 1) is None);
    }
}

/// A query is sent as its message, and an answer is read as what it says.
pub proof fn law_messages_on_the_wire(
    id: u16,
    domain: &str,
    q: Vec<u8>,
    buf: &[u8],
    r: Result<Vec<Ipv4Addr>, String>,
)
    requires
        call_ensures(build_query, (id, domain), q),
        call_ensures(parse_response, (buf, id), r),
    ensures
        q@ == query_message(id, encode_utf8(domain@)),
        r is Ok <==> response(buf@, id) is Ok,
        r matches Ok(v) ==> response(buf@, id) == Ok::<Seq<Ipv4Addr>, Seq<char>>(v@),
        r matches Err(t) ==> response(buf@, id) == Err::<Seq<Ipv4Addr>, Seq<char>>(t@),
{
}

/// Why a query failed is said in the words of what failed; a server that is silent is said
/// to be, with how long it was waited for.
pub proof fn law_failed_query_says_why(x: Exchange, timeout_ms: nat)
    ensures
        x matches Exchange::NoSocket(e) ==> failure(x, timeout_ms) is Some && text::holds(
            failure(x, timeout_ms)->0,
            e@,
        ),
        x matches Exchange::NotSent(e) ==> failure(x, timeout_ms) is Some && text::holds(
            failure(x, timeout_ms)->0,
            e@,
        ),
        x matches Exchange::NotReceived(e) ==> failure(x, timeout_ms) is Some && text::holds(
            failure(x, timeout_ms)->0,
            e@,
        ),
        x is TimedOut ==> failure(x, timeout_ms) == Some(
            "查询超时（"@ + text::dec(timeout_ms) + "ms 无应答）"@,
        ),
        x matches Exchange::Received(b) ==> (response(b@, QUERY_ID) matches Ok(list) ==> list.len()
            == 0 ==> failure(x, timeout_ms) == Some("服务器应答中没有 A 记录"@)),
{
    match x {
        Exchange::NoSocket(e) => {
            text::lemma_holds_itself(e@);
            text::lemma_holds_concat("无法创建 UDP 套接字: "@, e@, e@);
        },
        Exchange::NotSent(e) => {
            text::lemma_holds_itself(e@);
            text::lemma_holds_concat("发送查询失败: "@, e@, e@);
        },
        Exchange::NotReceived(e) => {
            text::lemma_holds_itself(e@);
            text::lemma_holds_concat("接收应答失败: "@, e@, e@);
        },
        _ => {},
    }
}

/// A resolver that failed or gave no answer in time leaves no address: it is said why, or
/// how long it was waited for.
pub proof fn law_failed_resolver_says_why(
    e: String,
    timeout_ms: u64,
    r: Result<Vec<Ipv4Addr>, String>,
    s: Result<Vec<Ipv4Addr>, String>,
)
    requires
        call_ensures(resolve_system, (Resolution::Failed(e), timeout_ms), r),
        call_ensures(resolve_system, (Resolution::TimedOut, timeout_ms), s),
    ensures
        r is Err && r->Err_0@ == e@,
        s is Err && s->Err_0@ == "系统解析超时（"@ + text::dec(timeout_ms as nat) + "ms）"@,
{
}

} // verus!
