//! ICMP echo replies and their status codes.

use crate::addr::Ipv4Addr;
use vstd::prelude::*;

verus! {

pub const IP_SUCCESS: u32 = 0;

pub const IP_DEST_NET_UNREACHABLE: u32 = 11002;

pub const IP_DEST_HOST_UNREACHABLE: u32 = 11003;

pub const IP_DEST_PROT_UNREACHABLE: u32 = 11004;

pub const IP_DEST_PORT_UNREACHABLE: u32 = 11005;

pub const IP_PACKET_TOO_BIG: u32 = 11009;

pub const IP_REQ_TIMED_OUT: u32 = 11010;

pub const IP_BAD_ROUTE: u32 = 11012;

pub const IP_TTL_EXPIRED_TRANSIT: u32 = 11013;

pub const IP_TTL_EXPIRED_REASSEM: u32 = 11014;

/// The system error that says a request is still on its way.
pub const ERROR_IO_PENDING: u32 = 997;

/// The result of a wait whose event came in time.
pub const WAIT_OBJECT_0: u32 = 0;

/// What a status code means, in words.
pub open spec fn status_text(status: u32) -> Seq<char> {
    if status == IP_SUCCESS {
        "到达目标"@
    } else if status == IP_DEST_NET_UNREACHABLE {
        "目标网络不可达"@
    } else if status == IP_DEST_HOST_UNREACHABLE {
        "目标主机不可达"@
    } else if status == IP_DEST_PROT_UNREACHABLE {
        "协议不可达"@
    } else if status == IP_DEST_PORT_UNREACHABLE {
        "端口不可达"@
    } else if status == IP_PACKET_TOO_BIG {
        "报文过大需要分片"@
    } else if status == IP_REQ_TIMED_OUT {
        "请求超时"@
    } else if status == IP_BAD_ROUTE {
        "路由错误"@
    } else if status == IP_TTL_EXPIRED_TRANSIT {
        "TTL 在传输中过期（中间节点应答）"@
    } else if status == IP_TTL_EXPIRED_REASSEM {
        "TTL 在重组中过期"@
    } else {
        "其它 ICMP 状态"@
    }
}

/// Says in words what a status code means.
pub fn status_desc(status: u32) -> (r: &'static str)
    ensures
        r@ == status_text(status),
{
    if status == IP_SUCCESS {
        "到达目标"
    } else if status == IP_DEST_NET_UNREACHABLE {
        "目标网络不可达"
    } else if status == IP_DEST_HOST_UNREACHABLE {
        "目标主机不可达"
    } else if status == IP_DEST_PROT_UNREACHABLE {
        "协议不可达"
    } else if status == IP_DEST_PORT_UNREACHABLE {
        "端口不可达"
    } else if status == IP_PACKET_TOO_BIG {
        "报文过大需要分片"
    } else if status == IP_REQ_TIMED_OUT {
        "请求超时"
    } else if status == IP_BAD_ROUTE {
        "路由错误"
    } else if status == IP_TTL_EXPIRED_TRANSIT {
        "TTL 在传输中过期（中间节点应答）"
    } else if status == IP_TTL_EXPIRED_REASSEM {
        "TTL 在重组中过期"
    } else {
        "其它 ICMP 状态"
    }
}

/// The answer to one probe.
#[derive(Clone, Copy, Debug, PartialEq, Eq, Structural)]
pub struct Reply {
    /// The status code, one of the `IP_` constants.
    pub status: u32,
    /// Who answered: the target, or the router at which the TTL ran out.
    pub responder: Ipv4Addr,
    /// The round trip, in whole milliseconds.
    pub rtt_ms: u32,
    /// Whether no answer came in time.
    pub timed_out: bool,
}

impl Reply {
    /// The reply that stands for no answer.
    pub open spec fn silence() -> Self {
        Reply {
            status: IP_REQ_TIMED_OUT,
            responder: Ipv4Addr { a: 0, b: 0, c: 0, d: 0 },
            rtt_ms: 0,
            timed_out: true,
        }
    }

    /// A router on the way answered, because the TTL ran out there.
    pub open spec fn from_hop(self) -> bool {
        self.status == IP_TTL_EXPIRED_TRANSIT || self.status == IP_TTL_EXPIRED_REASSEM
    }

    /// The reply that stands for no answer.
    pub fn timeout() -> (r: Self)
        ensures
            r == Self::silence(),
    {
        Reply {
            status: IP_REQ_TIMED_OUT,
            responder: Ipv4Addr::unspecified(),
            rtt_ms: 0,
            timed_out: true,
        }
    }

    /// Whether a router on the way answered, because the TTL ran out there.
    pub fn is_hop_reply(&self) -> (r: bool)
        ensures
            r == self.from_hop(),
    {
        self.status == IP_TTL_EXPIRED_TRANSIT || self.status == IP_TTL_EXPIRED_REASSEM
    }
}

/// What to do next with an echo request.
#[derive(Clone, Copy, Debug, PartialEq, Eq, Structural)]
pub enum EchoStep {
    /// A reply lies in the buffer.
    Read,
    /// The request is on its way: wait for its event.
    Wait,
    /// No reply will come.
    GiveUp,
}

/// Decides what follows the sending of an echo request that brought `count`
/// replies at once and left the system error `error`.
pub fn after_send(count: u32, error: u32) -> (r: EchoStep)
    ensures
        r == if count != 0 {
            EchoStep::Read
        } else if error == ERROR_IO_PENDING {
            EchoStep::Wait
        } else {
            EchoStep::GiveUp
        },
{
    if count != 0 {
        EchoStep::Read
    } else if error == ERROR_IO_PENDING {
        EchoStep::Wait
    } else {
        EchoStep::GiveUp
    }
}

/// Decides what follows a wait that ended with `result`.
pub fn after_wait(result: u32) -> (r: EchoStep)
    ensures
        r == if result == WAIT_OBJECT_0 {
            EchoStep::Read
        } else {
            EchoStep::GiveUp
        },
{
    if result == WAIT_OBJECT_0 {
        EchoStep::Read
    } else {
        EchoStep::GiveUp
    }
}

/// The number that four bytes hold, lowest byte first.
pub open spec fn word(s: Seq<u8>, i: int) -> nat {
    s[i] as nat + 0x100 * s[i + 1] as nat + 0x1_0000 * s[i + 2] as nat + 0x100_0000
        * s[i + 3] as nat
}

fn read_word(s: &[u8], i: usize) -> (r: u32)
    requires
        i + 4 <= s.len(),
    ensures
        r == word(s@, i as int),
{
    s[i] as u32 + 0x100 * s[i + 1] as u32 + 0x1_0000 * s[i + 2] as u32 + 0x100_0000 * s[i + 3] as u32
}

/// Reads the first echo reply record of a buffer: the status word, the four
/// octets of the responder and the round trip word. A record takes
/// `record_len` bytes; a buffer that is shorter holds none.
pub fn read_reply(buf: &[u8], record_len: usize) -> (r: Reply)
    requires
        record_len >= 12,
    ensures
        buf@.len() < record_len ==> r == Reply::silence(),
        buf@.len() >= record_len ==> {
            &&& r.status == word(buf@, 0)
            &&& r.responder == (Ipv4Addr { a: buf@[4], b: buf@[5], c: buf@[6], d: buf@[7] })
            &&& r.rtt_ms == word(buf@, 8)
            &&& !r.timed_out
        },
{
    if buf.len() < record_len {
        return Reply::timeout();
    }
    Reply {
        status: read_word(buf, 0),
        responder: Ipv4Addr::new(buf[4], buf[5], buf[6], buf[7]),
        rtt_ms: read_word(buf, 8),
        timed_out: false,
    }
}

/// A request that brought replies is read at once, one that is on its way is waited for,
/// and a wait that ends with its event is read; in every other case no reply will come.
pub proof fn law_request_is_followed(
    count: u32,
    error: u32,
    result: u32,
    sent: EchoStep,
    waited: EchoStep,
)
    requires
        call_ensures(after_send, (count, error), sent),
        call_ensures(after_wait, (result,), waited),
    ensures
        sent == EchoStep::Read <==> count > 0,
        sent == EchoStep::Wait <==> count == 0 && error == 997,
        waited == EchoStep::Read <==> result == 0,
        waited != EchoStep::Wait,
{
}

/// A reply is read from the first record of a buffer: the status from its first word,
/// the address from the next four bytes as they stand, the round trip from the word
/// behind them, lowest byte first. A buffer that is too short for a record holds no
/// answer.
pub proof fn law_reply_is_read(
    status: Seq<u8>,
    address: Seq<u8>,
    rtt: Seq<u8>,
    rest: Seq<u8>,
    buf: &[u8],
    record_len: usize,
    r: Reply,
)
    requires
        call_ensures(read_reply, (buf, record_len), r),
        record_len >= 12,
        status.len() == 4 && address.len() == 4 && rtt.len() == 4,
        buf@ == status + address + rtt + rest,
    ensures
        buf@.len() >= record_len ==> {
            &&& r.status == status[0] + 256 * (status[1] + 256 * (status[2] + 256 * status[3]))
            &&& r.responder == (Ipv4Addr {
                a: address[0],
                b: address[1],
                c: address[2],
                d: address[3],
            })
            &&& r.rtt_ms == rtt[0] + 256 * (rtt[1] + 256 * (rtt[2] + 256 * rtt[3]))
            &&& !r.timed_out
        },
        buf@.len() < record_len ==> r.timed_out && r.status == 11010 && r.rtt_ms == 0,
{
    assert(buf@[0] == status[0] && buf@[1] == status[1] && buf@[2] == status[2] && buf@[3]
        == status[3]);
    assert(buf@[4] == address[0] && buf@[5] == address[1] && buf@[6] == address[2] && buf@[7]
        == address[3]);
    assert(buf@[8] == rtt[0] && buf@[9] == rtt[1] && buf@[10] == rtt[2] && buf@[11] == rtt[3]);
}

/// A router on the way answered exactly where the TTL ran out, in transit or in
/// reassembly.
pub proof fn law_router_answers(r: Reply)
    ensures
        r.from_hop() <==> r.status == 11013 || r.status == 11014,
        !Reply::silence().from_hop(),
        Reply::silence().status != 0,
{
}

/// Every status has its own words; all that have none share theirs.
pub proof fn law_status_in_words(status: u32)
    ensures
        status == 0 ==> status_text(status) == "到达目标"@,
        status == 11002 ==> status_text(status) == "目标网络不可达"@,
        status == 11003 ==> status_text(status) == "目标主机不可达"@,
        status == 11004 ==> status_text(status) == "协议不可达"@,
        status == 11005 ==> status_text(status) == "端口不可达"@,
        status == 11009 ==> status_text(status) == "报文过大需要分片"@,
        status == 11010 ==> status_text(status) == "请求超时"@,
        status == 11012 ==> status_text(status) == "路由错误"@,
        status == 11013 ==> status_text(status) == "TTL 在传输中过期（中间节点应答）"@,
        status == 11014 ==> status_text(status) == "TTL 在重组中过期"@,
        status != 0 && status != 11009 && !(11002 <= status <= 11005) && status != 11010 && !(11012
            <= status <= 11014) ==> status_text(status) == "其它 ICMP 状态"@,
{
}

} // verus!
