//! Internet addresses.

use crate::text;
use vstd::prelude::*;

verus! {

/// An IPv4 address, by its four octets.
#[derive(Clone, Copy, Debug, PartialEq, Eq, Structural)]
pub struct Ipv4Addr {
    pub a: u8,
    pub b: u8,
    pub c: u8,
    pub d: u8,
}

/// An address of either family; only the IPv4 ones are read.
#[derive(Clone, Copy, Debug, PartialEq, Eq, Structural)]
pub enum IpAddr {
    V4(Ipv4Addr),
    V6,
}

impl Ipv4Addr {
    /// The address with these octets.
    pub fn new(a: u8, b: u8, c: u8, d: u8) -> (r: Self)
        ensures
            r == (Ipv4Addr { a, b, c, d }),
    {
        Ipv4Addr { a, b, c, d }
    }

    /// The address 0.0.0.0.
    pub fn unspecified() -> (r: Self)
        ensures
            r == (Ipv4Addr { a: 0, b: 0, c: 0, d: 0 }),
    {
        Ipv4Addr { a: 0, b: 0, c: 0, d: 0 }
    }

    /// The dotted decimal form.
    pub open spec fn text(self) -> Seq<char> {
        text::dec(self.a as nat) + "."@ + text::dec(self.b as nat) + "."@ + text::dec(self.c as nat)
            + "."@ + text::dec(self.d as nat)
    }

    /// Writes the dotted decimal form.
    pub fn to_text(&self) -> (r: String)
        ensures
            r@ == self.text(),
    {
        let mut t = text::decimal(self.a as u128);
        t.append(".");
        t.append(text::decimal(self.b as u128).as_str());
        t.append(".");
        t.append(text::decimal(self.c as u128).as_str());
        t.append(".");
        t.append(text::decimal(self.d as u128).as_str());
        t
    }

    /// The address as one number, first octet first.
    pub open spec fn number(self) -> nat {
        ((self.a as nat * 256 + self.b as nat) * 256 + self.c as nat) * 256 + self.d as nat
    }

    /// The address as one number, first octet first.
    pub fn to_number(&self) -> (n: u32)
        ensures
            n == self.number(),
    {
        ((self.a as u32 * 256 + self.b as u32) * 256 + self.c as u32) * 256 + self.d as u32
    }

    /// Private, loopback or link-local.
    pub open spec fn local(self) -> bool {
        ||| self.a == 10
        ||| self.a == 172 && 16 <= self.b <= 31
        ||| self.a == 192 && self.b == 168
        ||| self.a == 127
        ||| self.a == 169 && self.b == 254
    }

    /// Whether the address is private, loopback or link-local.
    pub fn is_local(&self) -> (r: bool)
        ensures
            r == self.local(),
    {
        self.a == 10 || (self.a == 172 && 16 <= self.b && self.b <= 31) || (self.a == 192 && self.b
            == 168) || self.a == 127 || (self.a == 169 && self.b == 254)
    }
}

/// Two addresses with one number are one address.
pub proof fn lemma_number_injective(x: Ipv4Addr, y: Ipv4Addr)
    requires
        x.number() == y.number(),
    ensures
        x == y,
{
}

/// The texts of the addresses, `sep` between them.
pub open spec fn list_text(list: Seq<Ipv4Addr>, sep: Seq<char>) -> Seq<char>
    decreases list.len(),
{
    if list.len() == 0 {
        Seq::empty()
    } else if list.len() == 1 {
        list[0].text()
    } else {
        list_text(list.drop_last(), sep) + sep + list.last().text()
    }
}

/// Writes the addresses, `sep` between them.
pub fn join(list: &Vec<Ipv4Addr>, sep: &str) -> (r: String)
    ensures
        r@ == list_text(list@, sep@),
{
    let mut t = String::new();
    let mut i: usize = 0;
    while i < list.len()
        invariant
            i <= list.len(),
            t@ == list_text(list@.take(i as int), sep@),
        decreases list.len() - i,
    {
        proof {
            let u = list@.take(i + 1);
            assert(u.drop_last() == list@.take(i as int));
            assert(u.last() == list@[i as int]);
            assert(Seq::<char>::empty() + list@[i as int].text() == list@[i as int].text());
        }
        if i > 0 {
            t.append(sep);
        }
        t.append(list[i].to_text().as_str());
        i = i + 1;
    }
    assert(list@.take(i as int) == list@);
    t
}

/// The numeral of `x` stands at `i..j` and no digit follows it.
spec fn reads(v: Seq<char>, i: int, x: nat, j: int) -> bool {
    &&& 0 <= i < j <= v.len()
    &&& v.subrange(i, j) == text::dec(x)
    &&& j == v.len() || !text::is_digit(v[j])
}

/// One place holds one numeral.
proof fn lemma_reads_once(v: Seq<char>, i: int, x: nat, j: int, y: nat, k: int)
    requires
        reads(v, i, x, j),
        reads(v, i, y, k),
    ensures
        x == y,
        j == k,
{
    text::lemma_dec_digits(x);
    text::lemma_dec_digits(y);
    if j < k {
        assert(v.subrange(i, k)[j - i] == v[j]);
    }
    if k < j {
        assert(v.subrange(i, j)[k - i] == v[k]);
    }
}

/// The numerals of an octet.
proof fn lemma_octet_numeral(x: nat)
    requires
        x < 256,
    ensures
        x < 10 ==> text::dec(x) == seq![text::digit(x)],
        10 <= x < 100 ==> text::dec(x) == seq![text::digit(x / 10), text::digit(x % 10)],
        100 <= x ==> text::dec(x) == seq![
            text::digit(x / 100),
            text::digit(x / 10 % 10),
            text::digit(x % 10),
        ],
{
    reveal_with_fuel(text::dec, 3);
    assert(x / 10 / 10 == x / 100);
}

/// Reads the octet whose numeral stands at `i`.
fn octet(v: &Vec<char>, i: usize) -> (r: Option<(u8, usize)>)
    requires
        i <= v.len(),
    ensures
        match r {
            Some((x, j)) => reads(v@, i as int, x as nat, j as int),
            None => forall|x: nat, j: int| x < 256 ==> !reads(v@, i as int, x, j),
        },
{
    let mut n: u32 = 0;
    let mut j: usize = i;
    while j < v.len() && j - i < 4 && '0' <= v[j] && v[j] <= '9'
        invariant
            i <= j <= v.len(),
            j - i <= 4,
            forall|k: int| i <= k < j ==> text::is_digit(#[trigger] v@[k]),
            n == text::digits_value(v@.subrange(i as int, j as int)),
            j - i == 0 ==> n == 0,
            j - i == 1 ==> n < 10,
            j - i == 2 ==> n < 100,
            j - i == 3 ==> n < 1000,
            j - i == 4 ==> n < 10000,
        decreases v.len() - j,
    {
        proof {
            let u = v@.subrange(i as int, j + 1);
            assert(u.drop_last() == v@.subrange(i as int, j as int));
        }
        n = n * 10 + (v[j] as u32 - '0' as u32);
        j = j + 1;
    }
    let ghost u = v@.subrange(i as int, j as int);
    if j == i || j - i > 3 || n > 255 || (j - i > 1 && v[i] == '0') {
        proof {
            assert forall|x: nat, k: int| x < 256 implies !reads(v@, i as int, x, k) by {
                if reads(v@, i as int, x, k) {
                    text::lemma_dec_digits(x);
                    lemma_octet_numeral(x);
                    let w = v@.subrange(i as int, k);
                    if j < k {
                        assert(w[j - i] == v@[j as int]);
                    }
                    assert(j == k);
                    assert(w[0] == v@[i as int]);
                }
            }
        }
        return None;
    }
    proof {
        lemma_octet_numeral(n as nat);
        assert(text::digits_value(Seq::<char>::empty()) == 0);
        assert(u.len() == j - i);
        if j - i == 1 {
            assert(u.drop_last() == Seq::<char>::empty());
            assert(u == seq![text::digit(n as nat)]);
        } else if j - i == 2 {
            let u1 = u.drop_last();
            assert(u1.drop_last() == Seq::<char>::empty());
            assert(u1.last() == u[0]);
            assert(text::digits_value(u1) == (u[0] as u32 - '0' as u32) as nat);
            assert(n == 10 * (u[0] as u32 - '0' as u32) + (u[1] as u32 - '0' as u32));
            assert(u[0] == v[i as int]);
            assert(u =~= text::dec(n as nat));
        } else {
            let u2 = u.drop_last();
            let u1 = u2.drop_last();
            assert(u1.drop_last() == Seq::<char>::empty());
            assert(u1.last() == u[0]);
            assert(u2.last() == u[1]);
            assert(text::digits_value(u1) == (u[0] as u32 - '0' as u32) as nat);
            assert(text::digits_value(u2) == 10 * text::digits_value(u1) + (u[1] as u32
                - '0' as u32) as nat);
            assert(n == 100 * (u[0] as u32 - '0' as u32) + 10 * (u[1] as u32 - '0' as u32) + (
            u[2] as u32 - '0' as u32));
            assert(u[0] == v[i as int]);
            assert(u =~= text::dec(n as nat));
        }
    }
    Some((n as u8, j))
}

/// The dotted form, cut at its dots.
spec fn dotted(v: Seq<char>, x: Ipv4Addr, i: int, j: int, k: int) -> bool {
    &&& reads(v, 0, x.a as nat, i)
    &&& i < v.len() && v[i] == '.'
    &&& reads(v, i + 1, x.b as nat, j)
    &&& j < v.len() && v[j] == '.'
    &&& reads(v, j + 1, x.c as nat, k)
    &&& k < v.len() && v[k] == '.'
    &&& reads(v, k + 1, x.d as nat, v.len() as int)
}

proof fn lemma_dotted(v: Seq<char>, x: Ipv4Addr)
    requires
        v == x.text(),
    ensures
        exists|i: int, j: int, k: int| dotted(v, x, i, j, k),
{
    reveal_strlit(".");
    text::lemma_dec_digits(x.a as nat);
    text::lemma_dec_digits(x.b as nat);
    text::lemma_dec_digits(x.c as nat);
    text::lemma_dec_digits(x.d as nat);
    let i = text::dec(x.a as nat).len() as int;
    let j = i + 1 + text::dec(x.b as nat).len();
    let k = j + 1 + text::dec(x.c as nat).len();
    assert(v.subrange(0, i) == text::dec(x.a as nat));
    assert(v.subrange(i + 1, j) == text::dec(x.b as nat));
    assert(v.subrange(j + 1, k) == text::dec(x.c as nat));
    assert(v.subrange(k + 1, v.len() as int) == text::dec(x.d as nat));
    assert(dotted(v, x, i, j, k));
}

proof fn lemma_dotted_text(v: Seq<char>, x: Ipv4Addr, i: int, j: int, k: int)
    requires
        dotted(v, x, i, j, k),
    ensures
        v == x.text(),
{
    reveal_strlit(".");
    let n = v.len() as int;
    assert(v == v.subrange(0, i) + "."@ + v.subrange(i + 1, j) + "."@ + v.subrange(j + 1, k) + "."@
        + v.subrange(k + 1, n));
}

/// Reads an address in dotted decimal form: four octets without leading zeros.
pub fn parse(s: &str) -> (r: Option<Ipv4Addr>)
    ensures
        match r {
            Some(x) => s@ == x.text(),
            None => forall|x: Ipv4Addr| s@ != #[trigger] x.text(),
        },
{
    let v = text::characters(s);
    parse_octets(&v)
}

fn parse_octets(v: &Vec<char>) -> (r: Option<Ipv4Addr>)
    ensures
        match r {
            Some(x) => v@ == x.text(),
            None => forall|x: Ipv4Addr| v@ != #[trigger] x.text(),
        },
{
    proof {
        assert forall|x: Ipv4Addr| v@ == #[trigger] x.text() implies exists|i: int, j: int, k: int|
            dotted(v@, x, i, j, k) by {
            lemma_dotted(v@, x);
        }
        assert forall|i: int, x: nat, j: int, y: nat, k: int|
            #[trigger] reads(v@, i, x, j) && #[trigger] reads(v@, i, y, k) implies x == y && j
            == k by {
            lemma_reads_once(v@, i, x, j, y, k);
        }
    }
    let (a, i) = match octet(v, 0) {
        Some(p) => p,
        None => {
            return None;
        },
    };
    if i >= v.len() || v[i] != '.' {
        return None;
    }
    let (b, j) = match octet(v, i + 1) {
        Some(p) => p,
        None => {
            return None;
        },
    };
    if j >= v.len() || v[j] != '.' {
        return None;
    }
    let (c, k) = match octet(v, j + 1) {
        Some(p) => p,
        None => {
            return None;
        },
    };
    if k >= v.len() || v[k] != '.' {
        return None;
    }
    let (d, n) = match octet(v, k + 1) {
        Some(p) => p,
        None => {
            return None;
        },
    };
    if n != v.len() {
        return None;
    }
    let x = Ipv4Addr { a, b, c, d };
    proof {
        lemma_dotted_text(v@, x, i as int, j as int, k as int);
    }
    Some(x)
}

/// An address is read back from its dotted form: two addresses with one form
/// are one address.
pub proof fn law_address_round_trip(x: Ipv4Addr, y: Ipv4Addr)
    requires
        x.text() == y.text(),
    ensures
        x == y,
{
    let v = x.text();
    lemma_dotted(v, x);
    lemma_dotted(v, y);
    let (i, j, k) = choose|i: int, j: int, k: int| dotted(v, x, i, j, k);
    let (l, m, n) = choose|i: int, j: int, k: int| dotted(v, y, i, j, k);
    lemma_reads_once(v, 0, x.a as nat, i, y.a as nat, l);
    lemma_reads_once(v, i + 1, x.b as nat, j, y.b as nat, m);
    lemma_reads_once(v, j + 1, x.c as nat, k, y.c as nat, n);
    lemma_reads_once(v, k + 1, x.d as nat, v.len() as int, y.d as nat, v.len() as int);
}

/// The dotted form of an address is the numerals of its octets, in order, with dots
/// between them.
pub proof fn law_dotted_form(x: Ipv4Addr)
    ensures
        x.text() == text::joined(
            seq![
                text::dec(x.a as nat),
                text::dec(x.b as nat),
                text::dec(x.c as nat),
                text::dec(x.d as nat),
            ],
            "."@,
        ),
{
    let (a, b, c, d) = (
        text::dec(x.a as nat),
        text::dec(x.b as nat),
        text::dec(x.c as nat),
        text::dec(x.d as nat),
    );
    text::law_joined(seq![a, b, c], d, "."@);
    text::law_joined(seq![a, b], c, "."@);
    text::law_joined(seq![a], b, "."@);
    text::law_joined(Seq::empty(), a, "."@);
    assert(seq![a, b, c] + seq![d] =~= seq![a, b, c, d]);
    assert(seq![a, b] + seq![c] =~= seq![a, b, c]);
    assert(seq![a] + seq![b] =~= seq![a, b]);
}

/// The local addresses are those of 10.0.0.0/8, 172.16.0.0/12, 192.168.0.0/16,
/// 127.0.0.0/8 and 169.254.0.0/16, and no other.
pub proof fn law_local_addresses(x: Ipv4Addr)
    ensures
        x.local() <==> {
            let n = x.number();
            ||| 0x0a00_0000 <= n <= 0x0aff_ffff
            ||| 0xac10_0000 <= n <= 0xac1f_ffff
            ||| 0xc0a8_0000 <= n <= 0xc0a8_ffff
            ||| 0x7f00_0000 <= n <= 0x7fff_ffff
            ||| 0xa9fe_0000 <= n <= 0xa9fe_ffff
        },
{
    assert(x.number() == 0x100_0000 * x.a as nat + 0x1_0000 * x.b as nat + 0x100 * x.c as nat
        + x.d as nat);
}

/// Addresses are listed by their dotted forms, in order, with the separator between
/// every two of them and nowhere else.
pub proof fn law_addresses_listed(list: Seq<Ipv4Addr>, sep: Seq<char>)
    ensures
        list_text(list, sep) == text::joined(list.map_values(|x: Ipv4Addr| x.text()), sep),
    decreases list.len(),
{
    let v = list.map_values(|x: Ipv4Addr| x.text());
    if list.len() > 1 {
        law_addresses_listed(list.drop_last(), sep);
        assert(v.drop_last() =~= list.drop_last().map_values(|x: Ipv4Addr| x.text()));
    }
}

/// The number of an address holds its octets in order, so that addresses are ordered
/// octet by octet.
pub proof fn law_number_orders_octets(x: Ipv4Addr, y: Ipv4Addr)
    ensures
        x.number() < y.number() <==> x.a < y.a || (x.a == y.a && (x.b < y.b || (x.b == y.b && (x.c
            < y.c || (x.c == y.c && x.d < y.d))))),
{
}

} // verus!
