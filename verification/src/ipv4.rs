//! IPv4 addresses as four octets: dotted-decimal text in both directions,
//! their 32-bit value, and the address classes the installer distinguishes.

use vstd::prelude::*;
use crate::numtext::{
    all_digits, dec, dec_chars, digits_value, is_digit, lemma_dec, parse_unsigned,
    parse_unsigned_chars,
};
use crate::text::{extend, lemma_split_last, lemma_split_step, split_chars, split_on, string_of};

verus! {

/// An IPv4 address `a.b.c.d`.
#[derive(Clone, Copy, Debug, PartialEq, Eq, Structural)]
pub struct Ipv4 {
    pub a: u8,
    pub b: u8,
    pub c: u8,
    pub d: u8,
}

/// The 32-bit value of an address, most significant octet first.
pub open spec fn ipv4_value(ip: Ipv4) -> int {
    ip.a * 16777216 + ip.b * 65536 + ip.c * 256 + ip.d
}

/// The address whose 32-bit value is `x`.
pub open spec fn ipv4_of_value(x: int) -> Ipv4 {
    Ipv4 {
        a: (x / 16777216) as u8,
        b: ((x / 65536) % 256) as u8,
        c: ((x / 256) % 256) as u8,
        d: (x % 256) as u8,
    }
}

/// Dotted-decimal text of an address, as `Ipv4Addr` displays it.
pub open spec fn dotted(ip: Ipv4) -> Seq<char> {
    dec(ip.a as nat) + seq!['.'] + dec(ip.b as nat) + seq!['.'] + dec(ip.c as nat) + seq!['.']
        + dec(ip.d as nat)
}

/// One octet of dotted-decimal text: one to three ASCII digits, no leading
/// zero, at most 255.
pub open spec fn octet_ok(t: Seq<char>) -> bool {
    &&& t.len() >= 1
    &&& all_digits(t)
    &&& (t.len() == 1 || t[0] != '0')
    &&& digits_value(t) <= 255
}

/// Dotted-decimal text read the way `Ipv4Addr::from_str` reads it: exactly
/// four octets separated by `.`, each written in decimal without a sign or a
/// leading zero.
pub open spec fn parse_ipv4(s: Seq<char>) -> Option<Ipv4> {
    let f = split_on(s, '.');
    if f.len() == 4 && octet_ok(f[0]) && octet_ok(f[1]) && octet_ok(f[2]) && octet_ok(f[3]) {
        Some(
            Ipv4 {
                a: digits_value(f[0]) as u8,
                b: digits_value(f[1]) as u8,
                c: digits_value(f[2]) as u8,
                d: digits_value(f[3]) as u8,
            },
        )
    } else {
        None
    }
}

/// `Ipv4Addr::is_loopback`: 127.0.0.0/8.
pub open spec fn spec_is_loopback(ip: Ipv4) -> bool {
    ip.a == 127
}

/// `Ipv4Addr::is_private`: 10.0.0.0/8, 172.16.0.0/12 and 192.168.0.0/16.
pub open spec fn spec_is_private(ip: Ipv4) -> bool {
    ||| ip.a == 10
    ||| (ip.a == 172 && 16 <= ip.b <= 31)
    ||| (ip.a == 192 && ip.b == 168)
}

/// An octet that is parsed back from its own decimal text.
pub proof fn lemma_octet_ok_dec(x: u8)
    ensures
        octet_ok(dec(x as nat)),
        digits_value(dec(x as nat)) == x,
{
    lemma_dec(x as nat);
}

/// No `.` occurs in decimal notation.
pub proof fn lemma_dec_no_dot(n: nat)
    ensures
        forall|k: int| 0 <= k < dec(n).len() ==> dec(n)[k] != '.',
{
    lemma_dec(n);
    assert forall|k: int| 0 <= k < dec(n).len() implies dec(n)[k] != '.' by {
        assert(is_digit(dec(n)[k]));
    }
}

/// Splitting `x.rest` at its first `.` gives `x` and the pieces of `rest`.
pub proof fn lemma_split_dec_dot(n: nat, rest: Seq<char>)
    ensures
        split_on(dec(n) + seq!['.'] + rest, '.') == seq![dec(n)] + split_on(rest, '.'),
{
    let s = dec(n) + seq!['.'] + rest;
    let j = dec(n).len() as int;
    lemma_dec_no_dot(n);
    assert forall|k: int| 0 <= k < j implies s[k] != '.' by {
        assert(s[k] == dec(n)[k]);
    }
    assert(s[j] == '.');
    lemma_split_step(s, '.', j);
    assert(s.take(j) =~= dec(n));
    assert(s.skip(j + 1) =~= rest);
}

/// Dotted-decimal text reads back as the address it was written from.
pub proof fn lemma_parse_dotted(ip: Ipv4)
    ensures
        parse_ipv4(dotted(ip)) == Some(ip),
{
    let da = dec(ip.a as nat);
    let db = dec(ip.b as nat);
    let dc = dec(ip.c as nat);
    let dd = dec(ip.d as nat);
    let r3 = dd;
    let r2 = dc + seq!['.'] + dd;
    let r1 = db + seq!['.'] + r2;
    assert(dotted(ip) =~= da + seq!['.'] + r1);
    lemma_split_dec_dot(ip.a as nat, r1);
    lemma_split_dec_dot(ip.b as nat, r2);
    lemma_split_dec_dot(ip.c as nat, r3);
    lemma_dec_no_dot(ip.d as nat);
    lemma_split_last(dd, '.');
    let f = split_on(dotted(ip), '.');
    assert(f =~= seq![da, db, dc, dd]);
    lemma_octet_ok_dec(ip.a);
    lemma_octet_ok_dec(ip.b);
    lemma_octet_ok_dec(ip.c);
    lemma_octet_ok_dec(ip.d);
}

impl Ipv4 {
    /// The address `a.b.c.d`, in specifications.
    pub open spec fn new_spec(a: u8, b: u8, c: u8, d: u8) -> Ipv4 {
        Ipv4 { a, b, c, d }
    }

    /// The address `a.b.c.d`.
    pub fn new(a: u8, b: u8, c: u8, d: u8) -> (r: Ipv4)
        ensures
            r == (Ipv4 { a, b, c, d }),
    {
        Ipv4 { a, b, c, d }
    }

    /// The four octets, most significant first.
    pub fn octets(&self) -> (r: [u8; 4])
        ensures
            r@ == seq![self.a, self.b, self.c, self.d],
    {
        let r = [self.a, self.b, self.c, self.d];
        assert(r@ =~= seq![self.a, self.b, self.c, self.d]);
        r
    }

    /// The 32-bit value of the address.
    pub fn to_u32(&self) -> (r: u32)
        ensures
            r as int == ipv4_value(*self),
    {
        (self.a as u32) * 16777216 + (self.b as u32) * 65536 + (self.c as u32) * 256
            + (self.d as u32)
    }

    /// The address whose 32-bit value is `x`.
    pub fn from_u32(x: u32) -> (r: Ipv4)
        ensures
            r == ipv4_of_value(x as int),
            ipv4_value(r) == x,
    {
        let r = Ipv4 {
            a: (x / 16777216) as u8,
            b: ((x / 65536) % 256) as u8,
            c: ((x / 256) % 256) as u8,
            d: (x % 256) as u8,
        };
        proof {
            let xi = x as int;
            assert(xi == (xi / 16777216) * 16777216 + ((xi / 65536) % 256) * 65536 + ((xi / 256)
                % 256) * 256 + xi % 256) by (nonlinear_arith)
                requires
                    0 <= xi < 4294967296,
            ;
        }
        r
    }

    /// Dotted-decimal text of the address.
    pub fn to_chars(&self) -> (r: Vec<char>)
        ensures
            r@ == dotted(*self),
    {
        let mut r = dec_chars(self.a as u64);
        r.push('.');
        let t = dec_chars(self.b as u64);
        extend(&mut r, &t);
        r.push('.');
        let t = dec_chars(self.c as u64);
        extend(&mut r, &t);
        r.push('.');
        let t = dec_chars(self.d as u64);
        extend(&mut r, &t);
        assert(r@ =~= dotted(*self));
        r
    }

    /// Dotted-decimal text of the address (what `Display` writes for `Ipv4Addr`).
    pub fn to_dotted_string(&self) -> (r: String)
        ensures
            r@ == dotted(*self),
    {
        let v = self.to_chars();
        string_of(&v)
    }

    /// `Ipv4Addr::is_loopback`.
    pub fn is_loopback(&self) -> (r: bool)
        ensures
            r == spec_is_loopback(*self),
    {
        self.a == 127
    }

    /// `Ipv4Addr::is_private`.
    pub fn is_private(&self) -> (r: bool)
        ensures
            r == spec_is_private(*self),
    {
        self.a == 10 || (self.a == 172 && 16 <= self.b && self.b <= 31) || (self.a == 192
            && self.b == 168)
    }
}

/// Reads one octet of dotted-decimal text.
fn parse_octet(t: &Vec<char>) -> (r: Option<u8>)
    ensures
        r matches Some(v) ==> octet_ok(t@) && digits_value(t@) == v,
        r is None ==> !octet_ok(t@),
{
    if t.len() == 0 || t[0] == '+' || (t.len() > 1 && t[0] == '0') {
        proof {
            if t@.len() > 0 && t@[0] == '+' {
                assert(!is_digit(t@[0]));
            }
        }
        return None;
    }
    match parse_unsigned_chars(t, 255) {
        Some(v) => {
            assert(parse_unsigned(t@, 255) == Some(v as int));
            Some(v as u8)
        },
        None => None,
    }
}

/// Reads dotted-decimal text the way `Ipv4Addr::from_str` does.
pub fn parse_ipv4_chars(s: &Vec<char>) -> (r: Option<Ipv4>)
    ensures
        r == parse_ipv4(s@),
{
    let f = split_chars(s, '.');
    assert(f@.len() == split_on(s@, '.').len());
    if f.len() != 4 {
        return None;
    }
    assert(f@[0]@ == split_on(s@, '.')[0]);
    assert(f@[1]@ == split_on(s@, '.')[1]);
    assert(f@[2]@ == split_on(s@, '.')[2]);
    assert(f@[3]@ == split_on(s@, '.')[3]);
    let a = parse_octet(&f[0]);
    let b = parse_octet(&f[1]);
    let c = parse_octet(&f[2]);
    let d = parse_octet(&f[3]);
    match (a, b, c, d) {
        (Some(a), Some(b), Some(c), Some(d)) => Some(Ipv4 { a, b, c, d }),
        _ => None,
    }
}

/// Reads dotted-decimal text the way `Ipv4Addr::from_str` does.
pub fn parse_ipv4_str(s: &str) -> (r: Option<Ipv4>)
    ensures
        r == parse_ipv4(s@),
{
    let v = crate::text::chars_of(s);
    parse_ipv4_chars(&v)
}

} // verus!
