//! HTTP: whether the web can be reached over a network that seems to work.
//!
//! A plain request tells a network that is open from one where a proxy, a
//! firewall or a login page stands in between.

use crate::addr::Ipv4Addr;
use crate::text;
use vstd::prelude::*;
use vstd::utf8::*;

verus! {

/// The port of plain HTTP.
pub const HTTP_PORT: u16 = 80;

/// A page to fetch and what its body should hold; an empty `expect` accepts any page.
#[derive(Clone, Debug)]
pub struct Endpoint {
    pub host: String,
    pub path: String,
    pub expect: String,
}

/// An endpoint, its strings as sequences.
pub ghost struct Page {
    pub host: Seq<char>,
    pub path: Seq<char>,
    pub expect: Seq<char>,
}

impl Endpoint {
    /// The endpoint, its strings as sequences.
    pub open spec fn view(&self) -> Page {
        Page { host: self.host@, path: self.path@, expect: self.expect@ }
    }

    fn new(host: &str, path: &str, expect: &str) -> (e: Self)
        ensures
            e@ == (Page { host: host@, path: path@, expect: expect@ }),
    {
        Endpoint { host: host.to_string(), path: path.to_string(), expect: expect.to_string() }
    }

    /// Another endpoint of the same contents.
    pub fn duplicate(&self) -> (e: Self)
        ensures
            e@ == self@,
    {
        Endpoint {
            host: self.host.clone(),
            path: self.path.clone(),
            expect: self.expect.clone(),
        }
    }
}

/// The pages that are always tried; any one of them shows that the web works.
pub open spec fn known_pages() -> Seq<Page> {
    seq![
        Page {
            host: "www.msftconnecttest.com"@,
            path: "/connect.txt"@,
            expect: "Microsoft Connect Test"@,
        },
        Page { host: "captive.apple.com"@, path: "/hotspot-detect.html"@, expect: "Success"@ },
        Page { host: "detectportal.firefox.com"@, path: "/success.txt"@, expect: "success"@ },
    ]
}

/// The pages to try for a diagnosis of `target`: the known ones and, where the
/// target is a domain, its own front page.
pub open spec fn pages(target: Seq<char>, is_domain: bool) -> Seq<Page> {
    if is_domain {
        known_pages().push(Page { host: target, path: "/"@, expect: ""@ })
    } else {
        known_pages()
    }
}

/// Lists the pages to try.
pub fn endpoints(target: &str, is_domain: bool) -> (v: Vec<Endpoint>)
    ensures
        v@.map_values(|e: Endpoint| e@) == pages(target@, is_domain),
{
    let mut v: Vec<Endpoint> = Vec::new();
    v.push(Endpoint::new("www.msftconnecttest.com", "/connect.txt", "Microsoft Connect Test"));
    v.push(Endpoint::new("captive.apple.com", "/hotspot-detect.html", "Success"));
    v.push(Endpoint::new("detectportal.firefox.com", "/success.txt", "success"));
    if is_domain {
        v.push(Endpoint::new(target, "/", ""));
    }
    v
}

/// The result of fetching a page.
#[derive(Clone, Debug)]
pub struct HttpResult {
    pub host: String,
    pub connected: bool,
    pub status_code: Option<u16>,
    pub elapsed_ms: u64,
    pub note: String,
}

impl HttpResult {
    /// The status is one of success or redirection.
    pub open spec fn good(&self) -> bool {
        self.status_code matches Some(c) && 200 <= c < 400
    }

    /// Whether the status is one of success or redirection.
    pub fn ok(&self) -> (r: bool)
        ensures
            r == self.good(),
    {
        match self.status_code {
            Some(c) => 200 <= c && c < 400,
            None => false,
        }
    }
}

/// The request for a page.
pub open spec fn request_text(host: Seq<char>, path: Seq<char>) -> Seq<char> {
    "GET "@ + path + " HTTP/1.1\r\nHost: "@ + host
        + "\r\nUser-Agent: zhuge-netdiag\r\nAccept: */*\r\nConnection: close\r\n\r\n"@
}

/// Writes the request for a page.
pub fn request(host: &str, path: &str) -> (t: String)
    ensures
        t@ == request_text(host@, path@),
{
    let mut t = "GET ".to_string();
    t.append(path);
    t.append(" HTTP/1.1\r\nHost: ");
    t.append(host);
    t.append("\r\nUser-Agent: zhuge-netdiag\r\nAccept: */*\r\nConnection: close\r\n\r\n");
    t
}

/// How far the fetching of a page got.
#[derive(Clone, Debug)]
pub enum Fetch {
    /// The host's name could not be resolved.
    Unresolved(String),
    /// The host has no IPv4 address.
    NoAddress,
    /// No connection could be made to this address.
    NotConnected(Ipv4Addr, String),
    /// The request could not be sent.
    NotSent(String),
    /// The response could not be read.
    NotRead(String),
    /// The first bytes of the response; none where the connection was closed.
    Received(Vec<u8>),
}

/// What `String::from_utf8_lossy` makes of these bytes.
pub uninterp spec fn utf8_lossy(bytes: Seq<u8>) -> Seq<char>;

/// Calls `String::from_utf8_lossy`. Its result is a function of the bytes; bytes
/// that are valid UTF-8 decode to the characters they encode. What stands in
/// place of invalid bytes is left unsaid.
#[verifier::external_body]
fn decode_lossy(bytes: &[u8]) -> (t: String)
    ensures
        t@ == utf8_lossy(bytes@),
        valid_utf8(bytes@) ==> t@ == decode_utf8(bytes@),
{
    String::from_utf8_lossy(bytes).into_owned()
}

/// The status code in a response: the second word of its first line.
pub open spec fn status_of(response: Seq<char>) -> Option<nat> {
    match text::second_word(text::first_line(response)) {
        Some(w) => text::unsigned(w, u16::MAX as nat),
        None => None,
    }
}

/// The body of a response: what stands behind its first empty line, empty where
/// there is none. A line feed directly after a line feed makes an empty line; a
/// carriage return may stand between them.
pub open spec fn body(response: Seq<char>) -> Seq<char>
    decreases response.len(),
{
    if response.len() == 0 {
        response
    } else if response.len() >= 2 && response[0] == '\n' && response[1] == '\n' {
        response.skip(2)
    } else if response.len() >= 3 && response[0] == '\n' && response[1] == '\r' && response[2]
        == '\n' {
        response.skip(3)
    } else {
        body(response.skip(1))
    }
}

/// Cuts out the body of a response.
pub fn body_of(response: &str) -> (t: String)
    ensures
        t@ == body(response@),
{
    let v = text::characters(response);
    let n = v.len();
    let mut i: usize = 0;
    assert(v@.skip(0) == v@);
    while i < n
        invariant
            i <= n == v@.len(),
            v@ == response@,
            body(v@.skip(i as int)) == body(v@),
        decreases n - i,
    {
        let ghost rest = v@.skip(i as int);
        proof {
            assert(rest[0] == v@[i as int]);
            assert(rest.len() >= 2 ==> rest[1] == v@[i + 1]);
            assert(rest.len() >= 3 ==> rest[2] == v@[i + 2]);
        }
        if v[i] == '\n' && n - i >= 2 && v[i + 1] == '\n' {
            assert(rest.skip(2) == v@.subrange(i + 2, n as int));
            return response.substring_char(i + 2, n).to_owned();
        }
        if v[i] == '\n' && n - i >= 3 && v[i + 1] == '\r' && v[i + 2] == '\n' {
            assert(rest.skip(3) == v@.subrange(i + 3, n as int));
            return response.substring_char(i + 3, n).to_owned();
        }
        assert(rest.skip(1) == v@.skip(i + 1));
        i = i + 1;
    }
    assert(v@.skip(i as int) == Seq::<char>::empty());
    String::new()
}

/// What is wrong with a response whose body should hold `expect`. The headers do
/// not count: a redirection may repeat there what was asked for.
pub open spec fn content_note(response: Seq<char>, expect: Seq<char>) -> Seq<char> {
    if expect.len() > 0 && !text::holds(body(response), expect) {
        "响应内容与预期不符，可能被重定向到 Web 认证页（强制门户）或被代理劫持"@
    } else {
        ""@
    }
}

/// Reads a response whose body should hold `expect`: its status code and what is
/// wrong with it.
pub fn read_response(response: &str, expect: &str) -> (r: (Option<u16>, String))
    ensures
        match r.0 {
            Some(c) => status_of(response@) == Some(c as nat),
            None => status_of(response@) is None,
        },
        r.1@ == content_note(response@, expect@),
{
    let status: Option<u16> = match text::second_word_of_first_line(response) {
        Some(w) => match text::parse_unsigned(w.as_str(), u16::MAX as u64) {
            Some(c) => Some(c as u16),
            None => None,
        },
        None => None,
    };
    let note = if !expect.is_empty() && !text::contains(body_of(response).as_str(), expect) {
        "响应内容与预期不符，可能被重定向到 Web 认证页（强制门户）或被代理劫持".to_string()
    } else {
        "".to_string()
    };
    (status, note)
}

/// Why a page could not be fetched, or what is wrong with it.
pub open spec fn fetch_note(x: Fetch, expect: Seq<char>) -> Seq<char> {
    match x {
        Fetch::Unresolved(e) => "域名解析失败: "@ + e@,
        Fetch::NoAddress => "域名解析无 IPv4 结果"@,
        Fetch::NotConnected(a, e) => "TCP 连接 "@ + a.text() + ":80 失败: "@ + e@,
        Fetch::NotSent(e) => "发送 HTTP 请求失败: "@ + e@,
        Fetch::NotRead(e) => "读取响应失败: "@ + e@,
        Fetch::Received(b) => if b@.len() == 0 {
            "收到空响应"@
        } else {
            content_note(utf8_lossy(b@), expect)
        },
    }
}

/// The status code of a page, where a response came.
pub open spec fn fetch_status(x: Fetch) -> Option<nat> {
    match x {
        Fetch::Received(b) => if b@.len() == 0 {
            None
        } else {
            status_of(utf8_lossy(b@))
        },
        _ => None,
    }
}

/// The result of fetching a page of `host` whose body should hold `expect`, where the
/// fetching got as far as `x` after `elapsed_ms`. Without a connection no time is
/// counted.
pub fn http_check(host: &str, expect: &str, x: Fetch, elapsed_ms: u64) -> (r: HttpResult)
    ensures
        r.host@ == host@,
        r.connected == !(x is Unresolved || x is NoAddress || x is NotConnected),
        match r.status_code {
            Some(c) => fetch_status(x) == Some(c as nat),
            None => fetch_status(x) is None,
        },
        r.elapsed_ms == if r.connected {
            elapsed_ms
        } else {
            0
        },
        r.note@ == fetch_note(x, expect@),
        x matches Fetch::Received(b) ==> b@.len() > 0 && valid_utf8(b@) ==> {
            &&& r.note@ == content_note(decode_utf8(b@), expect@)
            &&& match r.status_code {
                Some(c) => status_of(decode_utf8(b@)) == Some(c as nat),
                None => status_of(decode_utf8(b@)) is None,
            }
        },
{
    let mut connected = true;
    let mut status: Option<u16> = None;
    let note: String = match &x {
        Fetch::Unresolved(e) => {
            connected = false;
            let mut t = "域名解析失败: ".to_string();
            t.append(e.as_str());
            t
        },
        Fetch::NoAddress => {
            connected = false;
            "域名解析无 IPv4 结果".to_string()
        },
        Fetch::NotConnected(a, e) => {
            connected = false;
            let mut t = "TCP 连接 ".to_string();
            t.append(a.to_text().as_str());
            t.append(":80 失败: ");
            t.append(e.as_str());
            t
        },
        Fetch::NotSent(e) => {
            let mut t = "发送 HTTP 请求失败: ".to_string();
            t.append(e.as_str());
            t
        },
        Fetch::NotRead(e) => {
            let mut t = "读取响应失败: ".to_string();
            t.append(e.as_str());
            t
        },
        Fetch::Received(b) => if b.len() == 0 {
            "收到空响应".to_string()
        } else {
            let response = decode_lossy(b.as_slice());
            let (code, wrong) = read_response(response.as_str(), expect);
            status = code;
            wrong
        },
    };
    HttpResult {
        host: host.to_string(),
        connected,
        status_code: status,
        elapsed_ms: if connected {
            elapsed_ms
        } else {
            0
        },
        note,
    }
}

// ---- laws ----

/// No line but the last is empty, and the last one has no line feed.
pub open spec fn unbroken(head: Seq<char>) -> bool {
    &&& forall|i: int|
        0 <= i < head.len() - 1 && (#[trigger] head[i]) == '\n' ==> head[i + 1] != '\n' && (i + 2
            < head.len() ==> !(head[i + 1] == '\r' && head[i + 2] == '\n'))
    &&& head.len() > 0 ==> head.last() != '\n'
}

proof fn lemma_body_behind_head(head: Seq<char>, gap: Seq<char>, page: Seq<char>)
    requires
        unbroken(head),
        gap == seq!['\r', '\n', '\r', '\n'] || (gap == seq!['\n', '\n'] || gap == seq![
            '\n',
            '\r',
            '\n',
        ]) && !(head.len() >= 2 && head[head.len() - 2] == '\n' && head.last() == '\r'),
    ensures
        body(head + gap + page) == page,
    decreases head.len(),
{
    let r = head + gap + page;
    if head.len() == 0 {
        if gap.len() == 2 {
            assert(r[0] == '\n' && r[1] == '\n');
            assert(r.skip(2) =~= page);
        } else if gap.len() == 3 {
            assert(r[0] == '\n' && r[1] == '\r' && r[2] == '\n');
            assert(r.skip(3) =~= page);
        } else {
            assert(r[0] == '\r' && r[1] == '\n' && r[2] == '\r' && r[3] == '\n');
            let s = r.skip(1);
            assert(s[0] == '\n' && s[1] == '\r' && s[2] == '\n');
            assert(s.skip(3) =~= page);
            assert(body(s) == page);
            assert(body(r) == body(s));
        }
    } else {
        let h = head.skip(1);
        assert(r[0] == head[0]);
        assert(r[1] == if head.len() > 1 {
            head[1]
        } else {
            gap[0]
        });
        assert(r[2] == if head.len() > 2 {
            head[2]
        } else {
            gap[2 - head.len()]
        });
        assert forall|i: int| 0 <= i < h.len() - 1 && (#[trigger] h[i]) == '\n' implies h[i + 1]
            != '\n' && (i + 2 < h.len() ==> !(h[i + 1] == '\r' && h[i + 2] == '\n')) by {
            assert(h[i] == head[i + 1]);
        }
        if head.len() == 1 {
            assert(head[0] == head.last());
        }
        assert(r.skip(1) =~= h + gap + page);
        lemma_body_behind_head(h, gap, page);
    }
}

proof fn lemma_no_body(head: Seq<char>)
    requires
        unbroken(head),
    ensures
        body(head) == Seq::<char>::empty(),
    decreases head.len(),
{
    if head.len() > 0 {
        let h = head.skip(1);
        assert forall|i: int| 0 <= i < h.len() - 1 && (#[trigger] h[i]) == '\n' implies h[i + 1]
            != '\n' && (i + 2 < h.len() ==> !(h[i + 1] == '\r' && h[i + 2] == '\n')) by {
            assert(h[i] == head[i + 1]);
        }
        if head.len() == 1 {
            assert(head[0] == head.last());
        }
        lemma_no_body(h);
    } else {
        assert(head =~= Seq::<char>::empty());
    }
}

/// Whatever the status of a response and whatever its headers, nothing is wrong with
/// it exactly where the page behind its first empty line holds the text that is
/// expected, at some place; where none is expected, any page will do. Else it is said
/// that the page is not the expected one.
pub proof fn law_page_must_hold_expected_text(
    head: Seq<char>,
    gap: Seq<char>,
    page: Seq<char>,
    expect: Seq<char>,
)
    requires
        unbroken(head),
        gap == seq!['\r', '\n', '\r', '\n'] || (gap == seq!['\n', '\n'] || gap == seq![
            '\n',
            '\r',
            '\n',
        ]) && !(head.len() >= 2 && head[head.len() - 2] == '\n' && head.last() == '\r'),
    ensures
        expect.len() > 0 ==> (content_note(head + gap + page, expect).len() == 0 <==> exists|
            i: int,
            j: int,
        |
            0 <= i <= j <= page.len() && #[trigger] page.subrange(i, j) == expect),
        expect.len() == 0 ==> content_note(head + gap + page, expect).len() == 0,
        content_note(head + gap + page, expect).len() > 0 ==> content_note(
            head + gap + page,
            expect,
        ) == "响应内容与预期不符，可能被重定向到 Web 认证页（强制门户）或被代理劫持"@,
        expect.len() > 0 ==> content_note(head, expect).len() > 0,
{
    lemma_body_behind_head(head, gap, page);
    lemma_no_body(head);
    reveal_strlit("");
    reveal_strlit("响应内容与预期不符，可能被重定向到 Web 认证页（强制门户）或被代理劫持");
    if exists|i: int, j: int|
        0 <= i <= j <= page.len() && #[trigger] page.subrange(i, j) == expect {
        let (i, j) = choose|i: int, j: int|
            0 <= i <= j <= page.len() && #[trigger] page.subrange(i, j) == expect;
        assert(page.subrange(i, i + expect.len()) == expect);
    }
}

/// Of any response at all: a note stands exactly where something is expected that its
/// body does not hold.
pub proof fn law_note_tells_missing_text(response: Seq<char>, expect: Seq<char>)
    ensures
        content_note(response, expect).len() == 0 <==> expect.len() == 0 || exists|
            i: int,
            j: int,
        |
            0 <= i <= j <= body(response).len() && #[trigger] body(response).subrange(i, j)
                == expect,
{
    reveal_strlit("");
    reveal_strlit("响应内容与预期不符，可能被重定向到 Web 认证页（强制门户）或被代理劫持");
    if exists|i: int, j: int|
        0 <= i <= j <= body(response).len() && #[trigger] body(response).subrange(i, j) == expect {
        let (i, j) = choose|i: int, j: int|
            0 <= i <= j <= body(response).len() && #[trigger] body(response).subrange(i, j)
                == expect;
        assert(body(response).subrange(i, i + expect.len()) == expect);
    }
}

/// The status code of a response is what stands second in its first line, behind the
/// version and a blank, where that is a number that fits; what follows it, on that line
/// or below it, plays no part. A first line of one word has no status.
pub proof fn law_status_stands_second(
    version: Seq<char>,
    word: Seq<char>,
    more: Seq<char>,
    code: nat,
)
    requires
        version.len() > 0,
        forall|i: int| 0 <= i < version.len() ==> !text::is_space(#[trigger] version[i]),
        word.len() > 0,
        forall|i: int| 0 <= i < word.len() ==> !text::is_space(#[trigger] word[i]),
        more.len() > 0 ==> more[0] == ' ' || more[0] == '\r' || more[0] == '\n',
    ensures
        word == text::dec(code) && code <= u16::MAX ==> status_of(
            version + seq![' '] + word + more,
        ) == Some(code),
        word == text::dec(code) && code > u16::MAX ==> status_of(
            version + seq![' '] + word + more,
        ) is None,
        word[0] != '+' && !('0' <= word[0] <= '9') ==> status_of(
            version + seq![' '] + word + more,
        ) is None,
        (exists|i: int| 0 < i < word.len() && !('0' <= #[trigger] word[i] <= '9')) ==> status_of(
            version + seq![' '] + word + more,
        ) is None,
        status_of(version) is None,
        status_of(version + seq!['\n'] + more) is None,
{
    let r = version + seq![' '] + word + more;
    let a = version.len() as int;
    let c = a + 1;
    let e = c + word.len();
    text::law_numeral_read(code, u16::MAX as nat, word);
    assert forall|i: int| 0 <= i < e implies (#[trigger] r[i]) != '\n' by {
        if i < a {
            assert(r[i] == version[i]);
        } else if i > a {
            assert(r[i] == word[i - c]);
        }
    }
    text::lemma_first_line(r, e);
    let l = text::first_line(r);
    assert(l.len() > e ==> l[e] == r[e] && r[e] == more[0]);
    assert forall|i: int| 0 <= i < e implies (#[trigger] l[i]) == r[i] by {}
    assert forall|i: int| 0 <= i < a implies !text::is_space(#[trigger] l[i]) by {
        assert(l[i] == r[i] && r[i] == version[i]);
    }
    assert forall|i: int| c <= i < e implies !text::is_space(#[trigger] l[i]) by {
        assert(l[i] == r[i] && r[i] == word[i - c]);
    }
    assert(l[a] == ' ');
    text::lemma_next_index(l, 0, 0, false);
    text::lemma_next_index(l, 0, a, true);
    text::lemma_next_index(l, a, c, false);
    text::lemma_next_index(l, c, e, true);
    assert(l.subrange(c, e) =~= word);
    assert(status_of(r) == text::unsigned(word, u16::MAX as nat));
    assert forall|i: int| 0 <= i < version.len() implies (#[trigger] version[i]) != '\n' by {}
    text::law_first_line_ends_at_line_feed(version, more);
    text::law_second_word(Seq::empty(), version, seq![' '], word, Seq::empty());
    assert(Seq::empty() + version =~= version);
}

/// Only a status from 200 to 399 is a good one; without a status nothing is.
pub proof fn law_good_status(h: HttpResult)
    ensures
        h.good() <==> (h.status_code is Some && h.status_code->0 >= 200 && h.status_code->0 <= 399),
{
}

/// A page that was not received has no status and says why; it is connected to exactly
/// where the request could at least be tried, and only then time is counted. A page
/// that was received has the status and the note of its text.
pub proof fn law_fetched_page(
    host: &str,
    expect: &str,
    x: Fetch,
    elapsed_ms: u64,
    r: HttpResult,
)
    requires
        call_ensures(http_check, (host, expect, x, elapsed_ms), r),
    ensures
        r.host@ == host@,
        r.connected <==> x is NotSent || x is NotRead || x is Received,
        r.connected ==> r.elapsed_ms == elapsed_ms,
        !r.connected ==> r.elapsed_ms == 0,
        !(x is Received) ==> r.status_code is None && r.note@.len() > 0,
        x matches Fetch::Received(b) ==> b@.len() == 0 ==> r.status_code is None && r.note@.len()
            > 0,
        x matches Fetch::Received(b) ==> b@.len() > 0 ==> {
            &&& r.note@ == content_note(utf8_lossy(b@), expect@)
            &&& r.status_code is Some <==> status_of(utf8_lossy(b@)) is Some
            &&& r.status_code matches Some(c) ==> status_of(utf8_lossy(b@)) == Some(c as nat)
        },
        x matches Fetch::Unresolved(e) ==> text::holds(r.note@, e@),
        x matches Fetch::NotConnected(a, e) ==> text::holds(r.note@, e@) && text::holds(
            r.note@,
            a.text(),
        ),
        x matches Fetch::NotSent(e) ==> text::holds(r.note@, e@),
        x matches Fetch::NotRead(e) ==> text::holds(r.note@, e@),
{
    reveal_strlit("域名解析失败: ");
    reveal_strlit("域名解析无 IPv4 结果");
    reveal_strlit("TCP 连接 ");
    reveal_strlit("发送 HTTP 请求失败: ");
    reveal_strlit("读取响应失败: ");
    reveal_strlit("收到空响应");
    match x {
        Fetch::Unresolved(e) => {
            text::lemma_holds_itself(e@);
            text::lemma_holds_concat("域名解析失败: "@, e@, e@);
        },
        Fetch::NotConnected(a, e) => {
            let t = "TCP 连接 "@ + a.text();
            text::lemma_holds_itself(a.text());
            text::lemma_holds_itself(e@);
            text::lemma_holds_concat("TCP 连接 "@, a.text(), a.text());
            text::lemma_holds_concat(t, ":80 失败: "@, a.text());
            text::lemma_holds_concat(t + ":80 失败: "@, e@, a.text());
            text::lemma_holds_concat(t + ":80 失败: "@, e@, e@);
        },
        Fetch::NotSent(e) => {
            text::lemma_holds_itself(e@);
            text::lemma_holds_concat("发送 HTTP 请求失败: "@, e@, e@);
        },
        Fetch::NotRead(e) => {
            text::lemma_holds_itself(e@);
            text::lemma_holds_concat("读取响应失败: "@, e@, e@);
        },
        _ => {},
    }
}

/// A request asks for the path on its first line, names the host on the next one, asks
/// for the connection to be closed and ends with an empty line.
pub proof fn law_request_names_path_and_host(host: Seq<char>, path: Seq<char>)
    ensures
        ({
            let line = "GET "@ + path + " HTTP/1.1\r\n"@;
            let next = "Host: "@ + host + "\r\n"@;
            let t = request_text(host, path);
            &&& t.take((line.len() + next.len()) as int) == line + next
            &&& t.len() > 4 && t.skip(t.len() - 4) == "\r\n\r\n"@
            &&& text::holds(t, "\r\nConnection: close\r\n"@)
        }),
{
    reveal_strlit("\r\n\r\n");
    reveal_strlit("\r\n");
    reveal_strlit(" HTTP/1.1\r\n");
    reveal_strlit("Host: ");
    reveal_strlit(" HTTP/1.1\r\nHost: ");
    reveal_strlit("\r\nUser-Agent: zhuge-netdiag\r\nAccept: */*\r\nConnection: close\r\n\r\n");
    reveal_strlit("\r\nConnection: close\r\n");
    let line = "GET "@ + path + " HTTP/1.1\r\n"@;
    let next = "Host: "@ + host + "\r\n"@;
    let t = request_text(host, path);
    let before = "GET "@ + path + " HTTP/1.1\r\nHost: "@ + host;
    let tail = "\r\nUser-Agent: zhuge-netdiag\r\nAccept: */*\r\nConnection: close\r\n\r\n"@;
    assert(before =~= line + ("Host: "@ + host));
    assert(t.take((line.len() + next.len()) as int) =~= line + next);
    assert(t.skip(t.len() - 4) =~= "\r\n\r\n"@);
    let c = "\r\nConnection: close\r\n"@;
    assert(tail.subrange(40, 40int + c.len()) =~= c);
    assert(text::holds(tail, c));
    text::lemma_holds_concat(before, tail, c);
}

/// The pages that are tried are three that say what they must hold and, for a domain,
/// behind them its own front page, of which nothing is expected.
pub proof fn law_pages_to_try(target: Seq<char>, is_domain: bool)
    ensures
        pages(target, is_domain).len() == if is_domain {
            4nat
        } else {
            3nat
        },
        forall|i: int| 0 <= i < 3 ==> (#[trigger] pages(target, is_domain)[i]).expect.len() > 0,
        forall|i: int|
            0 <= i < 3 ==> #[trigger] pages(target, is_domain)[i] == pages(target, !is_domain)[i],
        is_domain ==> {
            &&& pages(target, is_domain)[3].host == target
            &&& pages(target, is_domain)[3].path == "/"@
            &&& pages(target, is_domain)[3].expect.len() == 0
        },
{
    reveal_strlit("Microsoft Connect Test");
    reveal_strlit("Success");
    reveal_strlit("success");
    reveal_strlit("");
}

/// A response is read as its status and its note, the pages are those to try, and the
/// request is the one for the page.
pub proof fn law_responses_are_read(
    response: &str,
    expect: &str,
    r: (Option<u16>, String),
    target: &str,
    is_domain: bool,
    v: Vec<Endpoint>,
    i: int,
)
    requires
        call_ensures(read_response, (response, expect), r),
        call_ensures(endpoints, (target, is_domain), v),
        0 <= i < v@.len(),
    ensures
        r.1@ == content_note(response@, expect@),
        r.0 is Some <==> status_of(response@) is Some,
        r.0 matches Some(c) ==> status_of(response@) == Some(c as nat),
        v@.len() == pages(target@, is_domain).len(),
        v@[i].host@ == pages(target@, is_domain)[i].host,
        v@[i].path@ == pages(target@, is_domain)[i].path,
        v@[i].expect@ == pages(target@, is_domain)[i].expect,
{
    let all = v@.map_values(|e: Endpoint| e@);
    assert(all == pages(target@, is_domain));
    assert(all[i] == v@[i]@);
}

} // verus!
