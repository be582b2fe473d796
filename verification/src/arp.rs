//! ARP, the link layer's own answer to whether a neighbour is there.
//!
//! Many routers answer no ICMP echo. None can refuse ARP, so its answer tells a
//! silent gateway from a missing one.

use vstd::prelude::*;

verus! {

/// The result of an ARP request that was answered.
pub const NO_ERROR: u32 = 0;

/// The upper case hexadecimal digit of `n`.
pub open spec fn hex_digit(n: nat) -> Seq<char> {
    "0123456789ABCDEF"@.subrange(n as int, n as int + 1)
}

/// The bytes as pairs of hexadecimal digits, hyphens between them.
pub open spec fn mac_text(s: Seq<u8>) -> Seq<char>
    decreases s.len(),
{
    if s.len() == 0 {
        Seq::empty()
    } else {
        let pair = hex_digit(s.last() as nat / 16) + hex_digit(s.last() as nat % 16);
        if s.len() == 1 {
            pair
        } else {
            mac_text(s.drop_last()) + "-"@ + pair
        }
    }
}

/// Writes the first `len` bytes as a hardware address.
fn write_mac(mac: &[u8], len: usize) -> (t: String)
    requires
        len <= mac.len(),
    ensures
        t@ == mac_text(mac@.take(len as int)),
{
    let digits = "0123456789ABCDEF";
    proof {
        reveal_strlit("0123456789ABCDEF");
    }
    let mut t = String::new();
    let mut i: usize = 0;
    while i < len
        invariant
            i <= len <= mac.len(),
            digits@ == "0123456789ABCDEF"@,
            digits@.len() == 16,
            t@ == mac_text(mac@.take(i as int)),
        decreases len - i,
    {
        proof {
            assert(mac@.take(i + 1).drop_last() == mac@.take(i as int));
            assert(Seq::<char>::empty() + hex_digit(mac@[i as int] as nat / 16)
                == hex_digit(mac@[i as int] as nat / 16));
        }
        let hi: usize = mac[i] as usize / 16;
        let lo: usize = mac[i] as usize % 16;
        let mut pair = digits.substring_char(hi, hi + 1).to_owned();
        pair.append(digits.substring_char(lo, lo + 1));
        if i > 0 {
            t.append("-");
            t.append(pair.as_str());
        } else {
            t = pair;
        }
        i = i + 1;
    }
    t
}

/// Reads the outcome of an ARP request: whether the neighbour is there, and its
/// hardware address, the first `len` bytes of `mac`.
pub fn probe(result: u32, len: u32, mac: &[u8]) -> (r: (bool, Option<String>))
    requires
        result == NO_ERROR && len >= 6 ==> len <= mac.len(),
    ensures
        r.0 == (result == NO_ERROR && len >= 6),
        r.0 == r.1 is Some,
        r.1 matches Some(t) ==> t@ == mac_text(mac@.take(len as int)),
{
    if result == NO_ERROR && len >= 6 {
        (true, Some(write_mac(mac, len as usize)))
    } else {
        (false, None)
    }
}

/// A neighbour is there exactly where the request was answered with an address of at
/// least six bytes; that address is then told.
pub proof fn law_neighbour_answers(
    result: u32,
    len: u32,
    mac: &[u8],
    r: (bool, Option<String>),
)
    requires
        call_ensures(probe, (result, len, mac), r),
    ensures
        r.0 <==> result == 0 && len >= 6,
        r.1 is Some <==> r.0,
        r.1 matches Some(t) ==> t@ == mac_text(mac@.take(len as int)),
{
}

/// A hardware address is told byte by byte, two hexadecimal digits for each and a hyphen
/// between every two.
pub proof fn law_hardware_address(s: Seq<u8>, x: u8)
    ensures
        mac_text(seq![x]).len() == 2,
        mac_text(seq![x]) == seq![
            "0123456789ABCDEF"@[x as int / 16],
            "0123456789ABCDEF"@[x as int % 16],
        ],
        s.len() > 0 ==> mac_text(s + seq![x]) == mac_text(s) + "-"@ + mac_text(seq![x]),
{
    reveal_strlit("0123456789ABCDEF");
    let d = "0123456789ABCDEF"@;
    assert(d.len() == 16);
    assert(hex_digit(x as nat / 16) =~= seq![d[x as int / 16]]);
    assert(hex_digit(x as nat % 16) =~= seq![d[x as int % 16]]);
    assert(mac_text(seq![x]) =~= seq![d[x as int / 16], d[x as int % 16]]);
    if s.len() > 0 {
        assert((s + seq![x]).drop_last() =~= s);
        assert((s + seq![x]).last() == x);
        assert(seq![x].last() == x);
    }
}

} // verus!
