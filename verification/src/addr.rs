//! IPv4 addresses and socket addresses, with their textual form.

use vstd::prelude::*;
use crate::text::{
    all_digits, chars_of, decimal, digit_of_char, digits_value, field, field_bounds, is_digit,
    lemma_decimal, lemma_digits_value_bound, lemma_field_cut, lemma_field_whole, push_decimal,
};

verus! {

/// An IPv4 address, octet by octet (`a.b.c.d`).
#[derive(PartialEq, Eq, Structural, Clone, Copy, Debug)]
pub struct Ipv4Addr {
    pub a: u8,
    pub b: u8,
    pub c: u8,
    pub d: u8,
}

/// An IPv4 address together with a port.
#[derive(PartialEq, Eq, Structural, Clone, Copy, Debug)]
pub struct SocketAddrV4 {
    pub ip: Ipv4Addr,
    pub port: u16,
}

/// An address of either IP family, as a name lookup hands them out.  Only
/// IPv4 addresses are ever used, so an IPv6 address is kept as its 128 bits.
#[derive(PartialEq, Eq, Structural, Clone, Copy, Debug)]
pub enum IpAddress {
    V4(Ipv4Addr),
    V6(u128),
}

impl Ipv4Addr {
    /// The address `a.b.c.d`.
    pub fn new(a: u8, b: u8, c: u8, d: u8) -> (r: Ipv4Addr)
        ensures
            r == (Ipv4Addr { a, b, c, d }),
    {
        Ipv4Addr { a, b, c, d }
    }

    /// The loopback address `127.0.0.1`.
    pub fn localhost() -> (r: Ipv4Addr)
        ensures
            r == (Ipv4Addr { a: 127, b: 0, c: 0, d: 1 }),
    {
        Ipv4Addr { a: 127, b: 0, c: 0, d: 1 }
    }
}

impl SocketAddrV4 {
    /// The socket address `ip:port`.
    pub fn new(ip: Ipv4Addr, port: u16) -> (r: SocketAddrV4)
        ensures
            r == (SocketAddrV4 { ip, port }),
    {
        SocketAddrV4 { ip, port }
    }

    /// The address part.
    pub fn ip(&self) -> (r: Ipv4Addr)
        ensures
            r == self.ip,
    {
        self.ip
    }

    /// The port part.
    pub fn port(&self) -> (r: u16)
        ensures
            r == self.port,
    {
        self.port
    }
}

/// One octet of a dotted-decimal address: one to three digits, no leading
/// zero unless the octet is `0` itself, and a value of at most 255.
pub open spec fn spec_octet(f: Seq<char>) -> Option<u8> {
    if 1 <= f.len() <= 3 && all_digits(f) && !(f.len() > 1 && f[0] == '0') && digits_value(f)
        <= 255 {
        Some(digits_value(f) as u8)
    } else {
        None
    }
}

/// What `str::parse::<std::net::Ipv4Addr>` accepts: exactly four octets
/// separated by dots.
pub open spec fn spec_parse_ipv4(s: Seq<char>) -> Option<Ipv4Addr> {
    match (field(s, '.', 0), field(s, '.', 1), field(s, '.', 2), field(s, '.', 3), field(s, '.', 4)) {
        (Some(f0), Some(f1), Some(f2), Some(f3), None) => match (
            spec_octet(f0),
            spec_octet(f1),
            spec_octet(f2),
            spec_octet(f3),
        ) {
            (Some(a), Some(b), Some(c), Some(d)) => Some(Ipv4Addr { a, b, c, d }),
            _ => None,
        },
        _ => None,
    }
}

/// Parses one octet held in `v[lo..hi]`.
fn parse_octet_in(v: &Vec<char>, lo: usize, hi: usize) -> (r: Option<u8>)
    requires
        lo <= hi <= v@.len(),
    ensures
        r == spec_octet(v@.subrange(lo as int, hi as int)),
{
    let ghost f = v@.subrange(lo as int, hi as int);
    if hi == lo || hi - lo > 3 {
        return None;
    }
    if hi - lo > 1 && v[lo] == '0' {
        return None;
    }
    let mut acc: u32 = 0;
    let mut i = lo;
    while i < hi
        invariant
            lo <= i <= hi <= v@.len(),
            hi - lo <= 3,
            f == v@.subrange(lo as int, hi as int),
            all_digits(v@.subrange(lo as int, i as int)),
            acc == digits_value(v@.subrange(lo as int, i as int)),
            acc < 1000,
        decreases hi - i,
    {
        let c = v[i];
        if !('0' <= c && c <= '9') {
            assert(f[i - lo] == c);
            return None;
        }
        assert(v@.subrange(lo as int, i + 1).drop_last() =~= v@.subrange(lo as int, i as int));
        let dg = digit_of_char(c);
        assert(i - lo < 3);
        assert(acc < 100) by {
            lemma_digits_value_bound(v@.subrange(lo as int, i as int));
        }
        acc = acc * 10 + dg;
        i = i + 1;
    }
    assert(v@.subrange(lo as int, i as int) =~= f);
    if acc > 255 {
        return None;
    }
    Some(acc as u8)
}

/// Parses `v[lo..hi]` as a dotted-decimal IPv4 address.
pub fn parse_ipv4_in(v: &Vec<char>, lo: usize, hi: usize) -> (r: Option<Ipv4Addr>)
    requires
        lo <= hi <= v@.len(),
    ensures
        r == spec_parse_ipv4(v@.subrange(lo as int, hi as int)),
{
    if field_bounds(v, lo, hi, '.', 4).is_some() {
        return None;
    }
    let f0 = field_bounds(v, lo, hi, '.', 0);
    let f1 = field_bounds(v, lo, hi, '.', 1);
    let f2 = field_bounds(v, lo, hi, '.', 2);
    let f3 = field_bounds(v, lo, hi, '.', 3);
    match (f0, f1, f2, f3) {
        (Some((a0, b0)), Some((a1, b1)), Some((a2, b2)), Some((a3, b3))) => {
            let o0 = parse_octet_in(v, a0, b0);
            let o1 = parse_octet_in(v, a1, b1);
            let o2 = parse_octet_in(v, a2, b2);
            let o3 = parse_octet_in(v, a3, b3);
            match (o0, o1, o2, o3) {
                (Some(a), Some(b), Some(c), Some(d)) => Some(Ipv4Addr { a, b, c, d }),
                _ => None,
            }
        },
        _ => None,
    }
}

/// Parses `s` as a dotted-decimal IPv4 address, as
/// `str::parse::<std::net::Ipv4Addr>` does.
pub fn parse_ipv4(s: &str) -> (r: Option<Ipv4Addr>)
    ensures
        r == spec_parse_ipv4(s@),
{
    let v = chars_of(s);
    assert(v@.subrange(0, v@.len() as int) =~= s@);
    parse_ipv4_in(&v, 0, v.len())
}

/// The dotted-decimal form of `a`, as `std::net::Ipv4Addr` displays it.
pub open spec fn ipv4_text(a: Ipv4Addr) -> Seq<char> {
    decimal(a.a as nat) + seq!['.'] + decimal(a.b as nat) + seq!['.'] + decimal(a.c as nat) + seq![
        '.',
    ] + decimal(a.d as nat)
}

/// Appends the dotted-decimal form of `a` to `s`.
pub fn push_ipv4(s: &mut String, a: Ipv4Addr)
    ensures
        final(s)@ == old(s)@ + ipv4_text(a),
{
    proof {
        reveal_strlit(".");
    }
    push_decimal(s, a.a as u32);
    s.append(".");
    push_decimal(s, a.b as u32);
    s.append(".");
    push_decimal(s, a.c as u32);
    s.append(".");
    push_decimal(s, a.d as u32);
    assert(s@ =~= old(s)@ + ipv4_text(a));
}

/// The decimal form of an octet reads back as that octet.
proof fn lemma_octet_text(n: u8)
    ensures
        spec_octet(decimal(n as nat)) == Some(n),
        forall|i: int| 0 <= i < decimal(n as nat).len() ==> decimal(n as nat)[i] != '.',
{
    lemma_decimal(n as nat);
    let x = decimal(n as nat);
    assert forall|i: int| 0 <= i < x.len() implies x[i] != '.' by {
        assert(is_digit(x[i]));
    }
}

/// Law: the dotted-decimal form of an address parses back to that address.
pub proof fn law_ipv4_text_roundtrip(a: Ipv4Addr)
    ensures
        spec_parse_ipv4(ipv4_text(a)) == Some(a),
{
    let x0 = decimal(a.a as nat);
    let x1 = decimal(a.b as nat);
    let x2 = decimal(a.c as nat);
    let x3 = decimal(a.d as nat);
    lemma_octet_text(a.a);
    lemma_octet_text(a.b);
    lemma_octet_text(a.c);
    lemma_octet_text(a.d);
    let r2 = x2 + seq!['.'] + x3;
    let r1 = x1 + seq!['.'] + r2;
    let s = x0 + seq!['.'] + r1;
    assert(ipv4_text(a) =~= s);
    lemma_field_cut(x0, '.', r1, 1);
    lemma_field_cut(x0, '.', r1, 2);
    lemma_field_cut(x0, '.', r1, 3);
    lemma_field_cut(x0, '.', r1, 4);
    lemma_field_cut(x1, '.', r2, 1);
    lemma_field_cut(x1, '.', r2, 2);
    lemma_field_cut(x1, '.', r2, 3);
    lemma_field_cut(x2, '.', x3, 1);
    lemma_field_cut(x2, '.', x3, 2);
    lemma_field_whole(x3, '.', 0);
    lemma_field_whole(x3, '.', 1);
}

} // verus!
