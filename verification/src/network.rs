//! IPv4 networks in CIDR notation: the subnet rules of the installer, the
//! address arithmetic of a network, route and port listings.

use vstd::prelude::*;
use crate::models::{InterfaceConfig, MultiInterfaceConfig};
use crate::ipv4::{dotted, ipv4_of_value, ipv4_value, parse_ipv4, parse_ipv4_chars, spec_is_private, Ipv4};
use crate::numtext::{dec, dec_chars};
use crate::outside::{ip_network_parse, parse_ip_network};
use crate::text::{
    text_result,
    chars_of, contains, extend, extend_str, lines, lines_of, owned, string_of, trim, trim_chars,
    views, words, words_of,
};

verus! {

/// `2^k`.
pub open spec fn pow2n(k: nat) -> nat
    decreases k,
{
    if k == 0 {
        1
    } else {
        2 * pow2n((k - 1) as nat)
    }
}

/// Number of addresses in a block with the given prefix length: `2^(32 - prefix)`.
pub open spec fn block(prefix: int) -> int {
    pow2n((32 - prefix) as nat) as int
}

/// An IPv4 network: an address (host bits kept as written) and a prefix length.
#[derive(Clone, Copy, Debug, PartialEq, Eq, Structural)]
pub struct Ipv4Net {
    pub addr: Ipv4,
    pub prefix: u8,
}

impl Ipv4Net {
    /// A prefix length of at most 32.
    pub open spec fn wf(self) -> bool {
        self.prefix <= 32
    }

    /// 32-bit value of the address as written.
    pub open spec fn value(self) -> int {
        ipv4_value(self.addr)
    }

    /// Value of the network address: the address with its host bits cleared.
    pub open spec fn network_value(self) -> int {
        self.value() - self.value() % block(self.prefix as int)
    }

    /// Value of the broadcast address: the address with its host bits set.
    pub open spec fn broadcast_value(self) -> int {
        self.network_value() + block(self.prefix as int) - 1
    }

    /// The address with value `x` lies in the network.
    pub open spec fn contains_value(self, x: int) -> bool {
        x / block(self.prefix as int) == self.value() / block(self.prefix as int)
    }

    /// `Ipv4Network::overlaps`: either network holds the address or the
    /// broadcast address of the other.
    pub open spec fn spec_overlaps(self, other: Ipv4Net) -> bool {
        ||| other.contains_value(self.value())
        ||| other.contains_value(self.broadcast_value())
        ||| self.contains_value(other.value())
        ||| self.contains_value(other.broadcast_value())
    }

    /// `Ipv4Network::size`: `2^(32 - prefix)`, and `u32::MAX` for prefix 0.
    pub open spec fn spec_size(self) -> int {
        if self.prefix == 0 {
            u32::MAX as int
        } else {
            block(self.prefix as int)
        }
    }

    /// Text of the network as `Ipv4Network` displays it: `addr/prefix`.
    pub open spec fn text(self) -> Seq<char> {
        dotted(self.addr) + seq!['/'] + dec(self.prefix as nat)
    }
}

/// The network address lies in one of the private ranges 10.0.0.0/8,
/// 172.16.0.0/12 or 192.168.0.0/16.
pub open spec fn spec_is_private_network(n: Ipv4Net) -> bool {
    spec_is_private(ipv4_of_value(n.network_value()))
}

pub proof fn lemma_pow2n(k: nat)
    requires
        k <= 32,
    ensures
        1 <= pow2n(k) <= pow2n(32),
        pow2n(k) * pow2n((32 - k) as nat) == pow2n(32),
        pow2n(32) == 4294967296,
{
    assert(pow2n(32) == 4294967296) by {
        reveal_with_fuel(pow2n, 33);
    }
    lemma_pow2n_mul(k, (32 - k) as nat);
    lemma_pow2n_mono(k, 32);
    lemma_pow2n_pos(k);
}

/// `2^a * 2^b == 2^(a + b)`.
pub proof fn lemma_pow2n_mul(a: nat, b: nat)
    ensures
        pow2n(a) * pow2n(b) == pow2n(a + b),
    decreases a,
{
    if a > 0 {
        let a1 = (a - 1) as nat;
        lemma_pow2n_mul(a1, b);
        let x = pow2n(a1);
        let y = pow2n(b);
        assert(pow2n(a) == 2 * x);
        assert((2 * x) * y == 2 * (x * y)) by (nonlinear_arith);
        assert(a1 + b == (a + b - 1) as nat);
        assert(pow2n(a + b) == 2 * pow2n((a + b - 1) as nat));
        assert(pow2n(a) * pow2n(b) == 2 * (x * y));
    } else {
        assert(pow2n(0) == 1);
        assert(a + b == b);
    }
}

/// The network and broadcast addresses of a network are 32-bit values and
/// bound the address as written.
pub proof fn lemma_net_bounds(n: Ipv4Net)
    requires
        n.wf(),
    ensures
        block(n.prefix as int) >= 1,
        0 <= n.network_value() <= n.value() <= n.broadcast_value() < 4294967296,
        n.network_value() % block(n.prefix as int) == 0,
        n.contains_value(n.value()),
        n.contains_value(n.broadcast_value()),
        n.contains_value(n.network_value()),
{
    let b = block(n.prefix as int);
    let v = n.value();
    lemma_pow2n((32 - n.prefix) as nat);
    lemma_pow2n(n.prefix as nat);
    let q = pow2n(n.prefix as nat) as int;
    assert(b * q == 4294967296);
    assert(0 <= v < 4294967296);
    assert(v / b < q) by (nonlinear_arith)
        requires
            b >= 1,
            b * q == 4294967296,
            0 <= v < 4294967296,
    ;
    assert(v == (v / b) * b + v % b) by (nonlinear_arith)
        requires
            b >= 1,
    ;
    assert(0 <= v % b < b) by (nonlinear_arith)
        requires
            b >= 1,
    ;
    assert((v / b) * b + b <= q * b) by (nonlinear_arith)
        requires
            v / b < q,
            b >= 1,
    ;
    assert(((v / b) * b) % b == 0) by (nonlinear_arith)
        requires
            b >= 1,
    ;
    assert(((v / b) * b) / b == v / b) by (nonlinear_arith)
        requires
            b >= 1,
    ;
    assert(((v / b) * b + b - 1) / b == v / b) by (nonlinear_arith)
        requires
            b >= 1,
            v / b >= 0,
    ;
    assert(v / b >= 0) by (nonlinear_arith)
        requires
            b >= 1,
            v >= 0,
    ;
}

/// Two networks overlap exactly when some address lies in both.
pub proof fn lemma_overlaps_iff_common_address(n: Ipv4Net, m: Ipv4Net)
    requires
        n.wf(),
        m.wf(),
    ensures
        n.spec_overlaps(m) <==> exists|x: int|
            0 <= x < 4294967296 && #[trigger] n.contains_value(x) && m.contains_value(x),
{
    lemma_net_bounds(n);
    lemma_net_bounds(m);
    if n.spec_overlaps(m) {
        if m.contains_value(n.value()) {
            assert(n.contains_value(n.value()) && m.contains_value(n.value()));
        } else if m.contains_value(n.broadcast_value()) {
            assert(n.contains_value(n.broadcast_value()));
        } else if n.contains_value(m.value()) {
            assert(m.contains_value(m.value()));
        } else {
            assert(m.contains_value(m.broadcast_value()));
        }
    }
    if exists|x: int| 0 <= x < 4294967296 && #[trigger] n.contains_value(x) && m.contains_value(x) {
        let x = choose|x: int| 0 <= x < 4294967296 && #[trigger] n.contains_value(x) && m.contains_value(x);
        if n.prefix >= m.prefix {
            lemma_same_block_coarser(n, m.prefix as int, x);
            assert(m.contains_value(n.value()));
        } else {
            lemma_same_block_coarser(m, n.prefix as int, x);
            assert(n.contains_value(m.value()));
        }
    }
}

/// Two values in one block of a network are in one block of any shorter prefix.
pub proof fn lemma_same_block_coarser(n: Ipv4Net, p: int, x: int)
    requires
        n.wf(),
        0 <= p <= n.prefix,
        0 <= x,
        n.contains_value(x),
    ensures
        x / block(p) == n.value() / block(p),
{
    let bn = block(n.prefix as int);
    let k = pow2n((n.prefix - p) as nat) as int;
    lemma_pow2n_mul((32 - n.prefix) as nat, (n.prefix - p) as nat);
    lemma_pow2n((32 - n.prefix) as nat);
    lemma_pow2n((n.prefix - p) as nat);
    assert(block(p) == bn * k);
    let v = n.value();
    assert(v >= 0);
    assert(x / bn == v / bn);
    assert(x / (bn * k) == (x / bn) / k) by {
        vstd::arithmetic::div_mod::lemma_div_denominator(x, bn, k);
    }
    assert(v / (bn * k) == (v / bn) / k) by {
        vstd::arithmetic::div_mod::lemma_div_denominator(v, bn, k);
    }
}

/// Overlapping is symmetric.
pub proof fn lemma_overlaps_symmetric(n: Ipv4Net, m: Ipv4Net)
    ensures
        n.spec_overlaps(m) == m.spec_overlaps(n),
{
}

/// Number of addresses in a block of the given prefix length.
pub fn block_size(prefix: u8) -> (r: u64)
    requires
        prefix <= 32,
    ensures
        r as int == block(prefix as int),
        1 <= r <= 4294967296,
{
    let mut r: u64 = 1;
    let mut k: u8 = 0;
    let target: u8 = 32 - prefix;
    proof {
        lemma_pow2n(target as nat);
    }
    while k < target
        invariant
            k <= target <= 32,
            r as int == pow2n(k as nat),
            pow2n(target as nat) <= 4294967296,
        decreases target - k,
    {
        proof {
            lemma_pow2n((k + 1) as nat);
            lemma_pow2n_mono((k + 1) as nat, target as nat);
        }
        r = r * 2;
        k = k + 1;
    }
    proof {
        lemma_pow2n(target as nat);
    }
    r
}

pub proof fn lemma_pow2n_mono(a: nat, b: nat)
    requires
        a <= b,
    ensures
        pow2n(a) <= pow2n(b),
    decreases b - a,
{
    if a < b {
        lemma_pow2n_mono(a, (b - 1) as nat);
        assert(pow2n(b) == 2 * pow2n((b - 1) as nat));
        lemma_pow2n_pos((b - 1) as nat);
    }
}

pub proof fn lemma_pow2n_pos(a: nat)
    ensures
        pow2n(a) >= 1,
    decreases a,
{
    if a > 0 {
        lemma_pow2n_pos((a - 1) as nat);
    }
}

impl Ipv4Net {
    /// `Ipv4Network::new`: refuses a prefix longer than 32.
    pub fn new(addr: Ipv4, prefix: u8) -> (r: Option<Ipv4Net>)
        ensures
            r == (if prefix <= 32 {
                Some(Ipv4Net { addr, prefix })
            } else {
                None
            }),
    {
        if prefix <= 32 {
            Some(Ipv4Net { addr, prefix })
        } else {
            None
        }
    }

    /// The address as written.
    pub fn ip(&self) -> (r: Ipv4)
        ensures
            r == self.addr,
    {
        self.addr
    }

    /// The prefix length.
    pub fn prefix(&self) -> (r: u8)
        ensures
            r == self.prefix,
    {
        self.prefix
    }

    /// `Ipv4Network::network`: the lowest address of the network.
    pub fn network(&self) -> (r: Ipv4)
        requires
            self.wf(),
        ensures
            ipv4_value(r) == self.network_value(),
            r == ipv4_of_value(self.network_value()),
    {
        proof {
            lemma_net_bounds(*self);
        }
        let b = block_size(self.prefix);
        let v = self.addr.to_u32() as u64;
        let nv = v - v % b;
        Ipv4::from_u32(nv as u32)
    }

    /// `Ipv4Network::broadcast`: the highest address of the network.
    pub fn broadcast(&self) -> (r: Ipv4)
        requires
            self.wf(),
        ensures
            ipv4_value(r) == self.broadcast_value(),
    {
        proof {
            lemma_net_bounds(*self);
        }
        let b = block_size(self.prefix);
        let v = self.addr.to_u32() as u64;
        let bv = v - v % b + b - 1;
        Ipv4::from_u32(bv as u32)
    }

    /// `Ipv4Network::contains`.
    pub fn contains(&self, ip: Ipv4) -> (r: bool)
        requires
            self.wf(),
        ensures
            r == self.contains_value(ipv4_value(ip)),
    {
        let b = block_size(self.prefix);
        let x = ip.to_u32() as u64;
        let v = self.addr.to_u32() as u64;
        x / b == v / b
    }

    /// `Ipv4Network::overlaps`.
    pub fn overlaps(&self, other: &Ipv4Net) -> (r: bool)
        requires
            self.wf(),
            other.wf(),
        ensures
            r == self.spec_overlaps(*other),
    {
        let sb = self.broadcast();
        let ob = other.broadcast();
        other.contains(self.addr) || other.contains(sb) || self.contains(other.addr)
            || self.contains(ob)
    }

    /// `Ipv4Network::size`.
    pub fn size(&self) -> (r: u32)
        requires
            self.wf(),
        ensures
            r as int == self.spec_size(),
    {
        if self.prefix == 0 {
            u32::MAX
        } else {
            proof {
                lemma_pow2n((32 - self.prefix) as nat);
                lemma_pow2n_mono((32 - self.prefix) as nat, 31);
                assert(pow2n(31) == 2147483648) by {
                    reveal_with_fuel(pow2n, 32);
                }
            }
            block_size(self.prefix) as u32
        }
    }

    /// Text of the network as `Ipv4Network` displays it: `addr/prefix`.
    pub fn to_chars(&self) -> (r: Vec<char>)
        ensures
            r@ == self.text(),
    {
        let mut r = self.addr.to_chars();
        r.push('/');
        let p = dec_chars(self.prefix as u64);
        extend(&mut r, &p);
        r
    }

    /// An IPv4 network read from CIDR text with ipnetwork; `None` for an IPv6
    /// network or refused text.
    pub fn parse(s: &str) -> (r: Option<Ipv4Net>)
        ensures
            r == net_from_parsed(ip_network_parse(s@)),
            r matches Some(n) ==> n.wf(),
    {
        let parsed = parse_ip_network(s);
        match parsed {
            Some(Some((a, p))) => Some(Ipv4Net { addr: Ipv4::from_u32(a), prefix: p }),
            _ => None,
        }
    }
}

/// The IPv4 network that a CIDR parse gave, if it gave one.
pub open spec fn net_from_parsed(parsed: Option<Option<(u32, u8)>>) -> Option<Ipv4Net> {
    match parsed {
        Some(Some(v)) => Some(Ipv4Net { addr: ipv4_of_value(v.0 as int), prefix: v.1 }),
        _ => None,
    }
}

// ---------------------------------------------------------------------------
// Subnet rules
// ---------------------------------------------------------------------------

/// What `validate_subnet` decides for the outcome of reading the text as a
/// network: the network when it is an IPv4 network in a private range with a
/// prefix between /8 and /30, else the message that names the first rule broken.
pub open spec fn subnet_check(parsed: Option<Option<(u32, u8)>>) -> Result<Ipv4Net, Seq<char>> {
    match parsed {
        None => Err("Invalid CIDR format. Please use format like 10.19.0.0/24"@),
        Some(None) => Err("IPv6 subnets are not supported yet"@),
        Some(Some(v)) => {
            let n = Ipv4Net { addr: ipv4_of_value(v.0 as int), prefix: v.1 };
            if !spec_is_private_network(n) {
                Err(
                    "Subnet must be within private network ranges (10.0.0.0/8, 172.16.0.0/12, 192.168.0.0/16)"@,
                )
            } else if n.prefix > 30 {
                Err("Subnet too small. Minimum size is /30 (4 addresses)"@)
            } else if n.prefix < 8 {
                Err("Subnet too large. Maximum size is /8"@)
            } else {
                Ok(n)
            }
        },
    }
}

/// A subnet accepted by `subnet_check` is private and between /8 and /30.
pub proof fn lemma_subnet_check_ok(parsed: Option<Option<(u32, u8)>>)
    requires
        subnet_check(parsed) is Ok,
    ensures
        subnet_check(parsed)->Ok_0.wf(),
        8 <= subnet_check(parsed)->Ok_0.prefix <= 30,
        spec_is_private_network(subnet_check(parsed)->Ok_0),
{
}

/// `is_private_network`: whether the network address lies in 10.0.0.0/8,
/// 172.16.0.0/12 or 192.168.0.0/16.
pub fn is_private_network(network: &Ipv4Net) -> (r: bool)
    requires
        network.wf(),
    ensures
        r == spec_is_private_network(*network),
        r == ({
            let net = ipv4_of_value(network.network_value());
            net.a == 10 || (net.a == 172 && 16 <= net.b <= 31) || (net.a == 192 && net.b == 168)
        }),
{
    let a = network.network();
    a.is_private()
}

/// A subnet is accepted exactly when its network address lies in 10.0.0.0/8,
/// 172.16.0.0/12 or 192.168.0.0/16 and its prefix is between /8 and /30; the
/// network accepted is the one read.
pub proof fn lemma_accepted_subnet_is_private(addr: u32, prefix: u8)
    ensures
        subnet_check(Some(Some((addr, prefix)))) is Ok <==> (8 <= prefix <= 30 && ({
            let net = ipv4_of_value((Ipv4Net { addr: ipv4_of_value(addr as int), prefix }).network_value());
            net.a == 10 || (net.a == 172 && 16 <= net.b <= 31) || (net.a == 192 && net.b == 168)
        })),
        subnet_check(Some(Some((addr, prefix)))) matches Ok(m) ==> (m == (Ipv4Net {
            addr: ipv4_of_value(addr as int),
            prefix,
        })),
{
}

/// Whatever text was read, an accepted subnet's network address lies in one
/// of the private ranges 10.0.0.0/8, 172.16.0.0/12 or 192.168.0.0/16.
pub proof fn lemma_accepted_subnet_in_private_range(parsed: Option<Option<(u32, u8)>>)
    ensures
        subnet_check(parsed) matches Ok(n) ==> ({
            let net = ipv4_of_value(n.network_value());
            net.a == 10 || (net.a == 172 && 16 <= net.b <= 31) || (net.a == 192 && net.b == 168)
        }),
{
}

/// The subnet rules applied to the outcome of reading a subnet text.
pub fn check_subnet(parsed: Option<Option<(u32, u8)>>) -> (r: Result<Ipv4Net, String>)
    requires
        parsed matches Some(Some(v)) ==> v.1 <= 32,
    ensures
        r matches Ok(n) ==> subnet_check(parsed) == Ok::<Ipv4Net, Seq<char>>(n),
        r matches Err(e) ==> subnet_check(parsed) == Err::<Ipv4Net, Seq<char>>(e@),
{
    match parsed {
        None => Err(owned("Invalid CIDR format. Please use format like 10.19.0.0/24")),
        Some(None) => Err(owned("IPv6 subnets are not supported yet")),
        Some(Some((a, p))) => {
            let n = Ipv4Net { addr: Ipv4::from_u32(a), prefix: p };
            if !is_private_network(&n) {
                return Err(
                    owned(
                        "Subnet must be within private network ranges (10.0.0.0/8, 172.16.0.0/12, 192.168.0.0/16)",
                    ),
                );
            }
            if n.prefix > 30 {
                return Err(owned("Subnet too small. Minimum size is /30 (4 addresses)"));
            }
            if n.prefix < 8 {
                return Err(owned("Subnet too large. Maximum size is /8"));
            }
            Ok(n)
        },
    }
}

/// Reads a subnet in CIDR notation with ipnetwork and applies the subnet
/// rules: a private IPv4 network with a prefix between /8 and /30.
pub fn validate_subnet(subnet_str: &str) -> (r: Result<Ipv4Net, String>)
    ensures
        r matches Ok(n) ==> subnet_check(ip_network_parse(subnet_str@)) == Ok::<
            Ipv4Net,
            Seq<char>,
        >(n),
        r matches Err(e) ==> subnet_check(ip_network_parse(subnet_str@)) == Err::<
            Ipv4Net,
            Seq<char>,
        >(e@),
        r matches Ok(n) ==> n.wf() && 8 <= n.prefix <= 30 && spec_is_private_network(n),
        r matches Ok(n) ==> ({
            let net = ipv4_of_value(n.network_value());
            net.a == 10 || (net.a == 172 && 16 <= net.b <= 31) || (net.a == 192 && net.b == 168)
        }),
{
    let parsed = parse_ip_network(subnet_str);
    let r = check_subnet(parsed);
    proof {
        if r is Ok {
            lemma_subnet_check_ok(parsed);
        }
        lemma_accepted_subnet_in_private_range(parsed);
    }
    r
}

/// The server address of a network: the first address after the network
/// address, when the network holds at least two addresses.
pub open spec fn server_ip_spec(n: Ipv4Net) -> Result<Ipv4, Seq<char>> {
    if n.spec_size() >= 2 {
        Ok(ipv4_of_value(n.network_value() + 1))
    } else {
        Err("Subnet too small to assign server IP"@)
    }
}

/// The server address of a network: the second address that iterating the
/// network yields (the first is the network address).
pub fn server_ip_of(network: &Ipv4Net) -> (r: Result<Ipv4, String>)
    requires
        network.wf(),
    ensures
        r matches Ok(ip) ==> server_ip_spec(*network) == Ok::<Ipv4, Seq<char>>(ip),
        r matches Err(e) ==> server_ip_spec(*network) == Err::<Ipv4, Seq<char>>(e@),
        r matches Ok(ip) ==> network.contains_value(ipv4_value(ip)) && ipv4_value(ip)
            != network.network_value(),
{
    proof {
        lemma_net_bounds(*network);
    }
    let size = network.size();
    if size >= 2 {
        let b = block_size(network.prefix);
        let v = network.addr.to_u32() as u64;
        let nv = v - v % b;
        proof {
            let bi = block(network.prefix as int);
            assert(nv + 1 <= network.broadcast_value());
            assert((nv as int + 1) / bi == network.value() / bi) by (nonlinear_arith)
                requires
                    bi >= 2,
                    nv as int % bi == 0,
                    nv as int / bi == network.value() / bi,
                    nv >= 0,
            ;
        }
        Ok(Ipv4::from_u32((nv + 1) as u32))
    } else {
        Err(owned("Subnet too small to assign server IP"))
    }
}

/// The server address for a subnet text: the first host address of the
/// validated subnet.
pub fn get_server_ip_from_subnet(subnet: &str) -> (r: Result<Ipv4, String>)
    ensures
        r matches Ok(ip) ==> (subnet_check(ip_network_parse(subnet@)) matches Ok(n)
            && server_ip_spec(n) == Ok::<Ipv4, Seq<char>>(ip)),
        r matches Err(e) ==> (match subnet_check(ip_network_parse(subnet@)) {
            Ok(n) => server_ip_spec(n) == Err::<Ipv4, Seq<char>>(e@),
            Err(m) => m == e@,
        }),
{
    let network = validate_subnet(subnet)?;
    server_ip_of(&network)
}

/// Number of addresses in a validated subnet.
pub fn calculate_subnet_size(subnet: &str) -> (r: Result<usize, String>)
    ensures
        r matches Ok(k) ==> (subnet_check(ip_network_parse(subnet@)) matches Ok(n) && k
            == n.spec_size()),
        r matches Err(e) ==> subnet_check(ip_network_parse(subnet@)) == Err::<Ipv4Net, Seq<char>>(
            e@,
        ),
{
    let network = validate_subnet(subnet)?;
    Ok(network.size() as usize)
}

// ---------------------------------------------------------------------------
// Routes
// ---------------------------------------------------------------------------

/// The network that a line of `ip route show` begins with: its first word
/// read as a network in CIDR notation, or as a single address (a /32).
/// `default` routes and other words give none.
pub open spec fn route_network(line: Seq<char>) -> Option<Ipv4Net> {
    let parts = words(line);
    if parts.len() == 0 {
        None
    } else if parts[0] == "default"@ {
        None
    } else {
        match net_from_parsed(ip_network_parse(parts[0])) {
            Some(n) => Some(n),
            None => match parse_ipv4(parts[0]) {
                Some(ip) => Some(Ipv4Net { addr: ip, prefix: 32 }),
                None => None,
            },
        }
    }
}

/// The network that a line of `ip route show` begins with.
pub fn extract_network_from_route(route_line: &str) -> (r: Option<Ipv4Net>)
    ensures
        r == route_network(route_line@),
        r matches Some(n) ==> n.wf(),
{
    let v = chars_of(route_line);
    let parts = words_of(&v);
    assert(parts@.len() == words(v@).len());
    if parts.len() == 0 {
        return None;
    }
    assert(parts@[0]@ == words(v@)[0]);
    let first = &parts[0];
    let dflt = chars_of("default");
    if crate::text::chars_eq(first, &dflt) {
        return None;
    }
    let first_str = string_of(first);
    match Ipv4Net::parse(first_str.as_str()) {
        Some(n) => Some(n),
        None => match parse_ipv4_chars(first) {
            Some(ip) => Some(Ipv4Net { addr: ip, prefix: 32 }),
            None => None,
        },
    }
}

/// Message for a subnet that meets a system route.
pub open spec fn route_conflict_message(n: Ipv4Net, line: Seq<char>) -> Seq<char> {
    "Subnet "@ + n.text() + " conflicts with system route: "@ + trim(line)
}

/// The first of the given route lines whose network overlaps `n`.
pub open spec fn first_conflicting_route(n: Ipv4Net, ls: Seq<Seq<char>>) -> Option<Seq<char>>
    decreases ls.len(),
{
    if ls.len() == 0 {
        None
    } else {
        match route_network(ls[0]) {
            Some(rn) if n.spec_overlaps(rn) => Some(ls[0]),
            _ => first_conflicting_route(n, ls.drop_first()),
        }
    }
}

/// Checks a subnet against the routing table text (`ip route show`): the
/// first route whose network overlaps it is reported.
pub fn check_system_route_conflicts(network: &Ipv4Net, routes_output: &str) -> (r: Result<(), String>)
    requires
        network.wf(),
    ensures
        r is Ok <==> first_conflicting_route(*network, lines(routes_output@)) is None,
        r matches Err(e) ==> (first_conflicting_route(*network, lines(routes_output@)) matches Some(
            line,
        ) && e@ == route_conflict_message(*network, line)),
{
    let v = chars_of(routes_output);
    let ls = lines_of(&v);
    let ghost all = lines(v@);
    let mut i: usize = 0;
    assert(all.skip(0) =~= all);
    while i < ls.len()
        invariant
            network.wf(),
            i <= ls.len(),
            views(ls@) == all,
            all == lines(routes_output@),
            first_conflicting_route(*network, all) == first_conflicting_route(
                *network,
                all.skip(i as int),
            ),
        decreases ls.len() - i,
    {
        let line_str = string_of(&ls[i]);
        assert(all.skip(i as int)[0] == ls@[i as int]@);
        assert(line_str@ == all.skip(i as int)[0]);
        assert(all.skip(i as int).drop_first() =~= all.skip(i + 1));
        match extract_network_from_route(line_str.as_str()) {
            Some(rn) => {
                if network.overlaps(&rn) {
                    let mut msg = chars_of("Subnet ");
                    let t = network.to_chars();
                    extend(&mut msg, &t);
                    extend_str(&mut msg, " conflicts with system route: ");
                    let tl = trim_chars(&ls[i]);
                    extend(&mut msg, &tl);
                    assert(msg@ =~= route_conflict_message(*network, all.skip(i as int)[0]));
                    return Err(string_of(&msg));
                }
            },
            None => {},
        }
        i += 1;
    }
    assert(all.skip(i as int) =~= Seq::<Seq<char>>::empty());
    Ok(())
}

// ---------------------------------------------------------------------------
// Ports
// ---------------------------------------------------------------------------

/// A line of a socket listing (`ss -ulpn`, `netstat -ulpn`) shows `port`
/// taken: it holds `:` followed by the port's digits, and `udp`.
pub open spec fn line_shows_port(line: Seq<char>, port: u16) -> bool {
    contains(line, seq![':'] + dec(port as nat)) && contains(line, "udp"@)
}

/// Some line of the listing shows `port` taken.
pub open spec fn listing_shows_port(listing: Seq<char>, port: u16) -> bool {
    exists|i: int| 0 <= i < lines(listing).len() && line_shows_port(#[trigger] lines(listing)[i], port)
}

/// Whether some line of the prepared lines of a listing shows `port` taken.
fn lines_show_port(ls: &Vec<Vec<char>>, port: u16) -> (r: bool)
    ensures
        r == exists|i: int| 0 <= i < ls@.len() && line_shows_port(#[trigger] views(ls@)[i], port),
{
    let mut pat: Vec<char> = Vec::new();
    pat.push(':');
    let d = dec_chars(port as u64);
    extend(&mut pat, &d);
    let udp = chars_of("udp");
    let mut i: usize = 0;
    while i < ls.len()
        invariant
            i <= ls.len(),
            pat@ == seq![':'] + dec(port as nat),
            udp@ == "udp"@,
            forall|k: int| 0 <= k < i ==> !line_shows_port(#[trigger] views(ls@)[k], port),
        decreases ls.len() - i,
    {
        let a = crate::text::contains_chars(&ls[i], &pat);
        let b = crate::text::contains_chars(&ls[i], &udp);
        assert(views(ls@)[i as int] == ls@[i as int]@);
        if a && b {
            return true;
        }
        i += 1;
    }
    false
}

/// Whether the UDP port is taken, read from a socket listing (the output of
/// `ss -ulpn`, or of `netstat -ulpn` when `ss` cannot run; empty when neither
/// can).
pub fn is_port_in_use(port: u16, listing: &str) -> (r: bool)
    ensures
        r == listing_shows_port(listing@, port),
{
    let v = chars_of(listing);
    let ls = lines_of(&v);
    let r = lines_show_port(&ls, port);
    assert(views(ls@).len() == ls@.len());
    r
}

/// A port is free for a new interface: no interface uses it and the socket
/// listing does not show it taken.
pub open spec fn port_free(existing: Seq<u16>, listing: Seq<char>, p: u16) -> bool {
    !existing.contains(p) && !listing_shows_port(listing, p)
}

/// The first free port at or after `start`, if there is one.
pub fn first_free_port(existing_ports: &[u16], start_port: u16, listing: &str) -> (r: Option<u16>)
    ensures
        r matches Some(p) ==> start_port <= p && port_free(existing_ports@, listing@, p) && forall|
            q: u16,
        |
            start_port <= q < p ==> !port_free(existing_ports@, listing@, q),
        r is None ==> forall|q: u16| start_port <= q ==> !port_free(existing_ports@, listing@, q),
{
    let v = chars_of(listing);
    let ls = lines_of(&v);
    let mut port: u16 = start_port;
    loop
        invariant
            start_port <= port,
            views(ls@) == lines(listing@),
            forall|q: u16| start_port <= q < port ==> !port_free(existing_ports@, listing@, q),
        decreases u16::MAX - port,
    {
        let taken = slice_contains(existing_ports, port);
        let shown = lines_show_port(&ls, port);
        proof {
            if !shown {
                assert forall|i: int| 0 <= i < lines(listing@).len() implies !line_shows_port(
                    #[trigger] lines(listing@)[i],
                    port,
                ) by {
                    assert(views(ls@)[i] == lines(listing@)[i]);
                }
            } else {
                let i = choose|i: int| 0 <= i < ls@.len() && line_shows_port(#[trigger] views(ls@)[i], port);
                assert(lines(listing@)[i] == views(ls@)[i]);
            }
        }
        if !taken && !shown {
            return Some(port);
        }
        if port == u16::MAX {
            return None;
        }
        port = port + 1;
    }
}

/// Whether a slice of ports holds `p`.
pub fn slice_contains(ports: &[u16], p: u16) -> (r: bool)
    ensures
        r == ports@.contains(p),
{
    let mut i: usize = 0;
    while i < ports.len()
        invariant
            i <= ports.len(),
            forall|k: int| 0 <= k < i ==> ports@[k] != p,
        decreases ports.len() - i,
    {
        if ports[i] == p {
            assert(ports@[i as int] == p);
            return true;
        }
        i += 1;
    }
    false
}

/// Suggests a port for a new interface: the first port at or after
/// `start_port` that no interface uses and that the socket listing does not
/// show taken. The count runs in a `u16` and must not pass 65535, so a free
/// port must exist.
pub fn suggest_available_port(existing_ports: &[u16], start_port: u16, listing: &str) -> (r: u16)
    requires
        exists|p: u16| start_port <= p && port_free(existing_ports@, listing@, p),
    ensures
        start_port <= r,
        port_free(existing_ports@, listing@, r),
        forall|q: u16| start_port <= q < r ==> !port_free(existing_ports@, listing@, q),
{
    match first_free_port(existing_ports, start_port, listing) {
        Some(p) => p,
        None => {
            assert(false);
            start_port
        },
    }
}

// ---------------------------------------------------------------------------
// Conflicts with existing interfaces and routes
// ---------------------------------------------------------------------------

/// The first interface, in table order, whose subnet is invalid or overlaps
/// `n`, described as `detect_subnet_conflicts` reports it.
pub open spec fn first_interface_problem(
    n: Ipv4Net,
    new_subnet: Seq<char>,
    entries: Seq<(Seq<char>, InterfaceConfig)>,
) -> Option<Seq<char>>
    decreases entries.len(),
{
    if entries.len() == 0 {
        None
    } else {
        let name = entries[0].0;
        let sub = entries[0].1.subnet@;
        match subnet_check(ip_network_parse(sub)) {
            Err(_) => Some("Invalid existing subnet in interface "@ + name + ": "@ + sub),
            Ok(m) => if n.spec_overlaps(m) {
                Some(
                    "Subnet "@ + new_subnet + " conflicts with existing interface "@ + name + " ("@
                        + sub + ")"@,
                )
            } else {
                first_interface_problem(n, new_subnet, entries.drop_first())
            },
        }
    }
}

/// What `detect_subnet_conflicts` decides: the subnet must pass the subnet
/// rules, meet no subnet of an existing interface, and meet no system route
/// (given as the outcome of listing the routes).
pub open spec fn conflict_check(
    new_subnet: Seq<char>,
    entries: Seq<(Seq<char>, InterfaceConfig)>,
    routes: Result<Seq<char>, Seq<char>>,
) -> Result<(), Seq<char>> {
    match subnet_check(ip_network_parse(new_subnet)) {
        Err(e) => Err(e),
        Ok(n) => match first_interface_problem(n, new_subnet, entries) {
            Some(msg) => Err(msg),
            None => match routes {
                Err(e) => Err("System route conflict: "@ + e),
                Ok(text) => match first_conflicting_route(n, lines(text)) {
                    Some(line) => Err("System route conflict: "@ + route_conflict_message(n, line)),
                    None => Ok(()),
                },
            },
        },
    }
}

/// When no interface problem is found, every existing subnet passes the
/// subnet rules and does not overlap `n`.
proof fn lemma_no_interface_problem(n: Ipv4Net, new_subnet: Seq<char>, entries: Seq<(Seq<char>, InterfaceConfig)>)
    requires
        first_interface_problem(n, new_subnet, entries) is None,
    ensures
        forall|i: int|
            0 <= i < entries.len() ==> (#[trigger] subnet_check(ip_network_parse(entries[i].1.subnet@))
                matches Ok(m) && !n.spec_overlaps(m)),
    decreases entries.len(),
{
    if entries.len() > 0 {
        let rest = entries.drop_first();
        lemma_no_interface_problem(n, new_subnet, rest);
        assert forall|i: int| 0 <= i < entries.len() implies (#[trigger] subnet_check(
            ip_network_parse(entries[i].1.subnet@),
        ) matches Ok(m) && !n.spec_overlaps(m)) by {
            if i > 0 {
                assert(entries[i] == rest[i - 1]);
            }
        }
    }
}

/// When no route line conflicts, no route network overlaps `n`.
proof fn lemma_no_route_conflict(n: Ipv4Net, ls: Seq<Seq<char>>)
    requires
        first_conflicting_route(n, ls) is None,
    ensures
        forall|i: int|
            0 <= i < ls.len() ==> (#[trigger] route_network(ls[i]) matches Some(r) ==> !n.spec_overlaps(r)),
    decreases ls.len(),
{
    if ls.len() > 0 {
        let rest = ls.drop_first();
        lemma_no_route_conflict(n, rest);
        assert forall|i: int| 0 <= i < ls.len() implies (#[trigger] route_network(ls[i]) matches Some(r)
            ==> !n.spec_overlaps(r)) by {
            if i > 0 {
                assert(ls[i] == rest[i - 1]);
            }
        }
    }
}

/// A subnet accepted for a new interface shares no address with the subnet
/// of any existing interface, nor with the network of any route listed: it
/// passes the subnet rules, every existing subnet does too, and no 32-bit
/// address lies in both.
pub proof fn lemma_accepted_subnet_is_disjoint(
    new_subnet: Seq<char>,
    entries: Seq<(Seq<char>, InterfaceConfig)>,
    routes: Seq<char>,
)
    requires
        conflict_check(new_subnet, entries, Ok(routes)) is Ok,
    ensures
        subnet_check(ip_network_parse(new_subnet)) is Ok,
        forall|i: int|
            0 <= i < entries.len() ==> #[trigger] subnet_check(ip_network_parse(entries[i].1.subnet@))
                is Ok,
        forall|i: int, x: int|
            0 <= i < entries.len() && 0 <= x < 4294967296 ==> !(subnet_check(
                ip_network_parse(new_subnet),
            )->Ok_0.contains_value(x) && #[trigger] subnet_check(
                ip_network_parse(entries[i].1.subnet@),
            )->Ok_0.contains_value(x)),
        forall|i: int, x: int|
            0 <= i < lines(routes).len() && 0 <= x < 4294967296 && route_network(lines(routes)[i]) is Some
                && route_network(lines(routes)[i])->0.wf() ==> !(subnet_check(
                ip_network_parse(new_subnet),
            )->Ok_0.contains_value(x) && #[trigger] route_network(lines(routes)[i])->0.contains_value(x)),
{
    let n = subnet_check(ip_network_parse(new_subnet))->Ok_0;
    lemma_subnet_check_ok(ip_network_parse(new_subnet));
    lemma_no_interface_problem(n, new_subnet, entries);
    lemma_no_route_conflict(n, lines(routes));
    assert forall|i: int, x: int|
        0 <= i < entries.len() && 0 <= x < 4294967296 implies !(n.contains_value(x)
        && #[trigger] subnet_check(ip_network_parse(entries[i].1.subnet@))->Ok_0.contains_value(x)) by {
        let parsed = ip_network_parse(entries[i].1.subnet@);
        assert(subnet_check(parsed) is Ok);
        lemma_subnet_check_ok(parsed);
        let m = subnet_check(parsed)->Ok_0;
        lemma_overlaps_iff_common_address(n, m);
    }
    assert forall|i: int, x: int|
        0 <= i < lines(routes).len() && 0 <= x < 4294967296 && route_network(lines(routes)[i]) is Some
            && route_network(lines(routes)[i])->0.wf() implies !(n.contains_value(x)
        && #[trigger] route_network(lines(routes)[i])->0.contains_value(x)) by {
        let r = route_network(lines(routes)[i])->0;
        lemma_overlaps_iff_common_address(n, r);
    }
}

/// Checks a new subnet against the subnet rules, the subnets of the existing
/// interfaces and the system routes. `route_listing` is the outcome of listing
/// the routes (`ip route show`): its text, or the message of its failure.
pub fn detect_subnet_conflicts(
    new_subnet: &str,
    config: &MultiInterfaceConfig,
    route_listing: &Result<String, String>,
) -> (r: Result<(), String>)
    ensures
        r is Ok <==> conflict_check(new_subnet@, config.interfaces@, text_result(*route_listing)) is Ok,
        r matches Err(e) ==> conflict_check(new_subnet@, config.interfaces@, text_result(*route_listing))
            == Err::<(), Seq<char>>(e@),
{
    let new_network = match validate_subnet(new_subnet) {
        Ok(n) => n,
        Err(e) => {
            return Err(e);
        },
    };
    let ghost entries = config.interfaces@;
    let mut i: usize = 0;
    assert(entries.skip(0) =~= entries);
    while i < config.interfaces.len()
        invariant
            new_network.wf(),
            subnet_check(ip_network_parse(new_subnet@)) == Ok::<Ipv4Net, Seq<char>>(new_network),
            entries == config.interfaces@,
            i <= entries.len(),
            first_interface_problem(new_network, new_subnet@, entries) == first_interface_problem(
                new_network,
                new_subnet@,
                entries.skip(i as int),
            ),
        decreases entries.len() - i,
    {
        let (name, iface) = config.interfaces.entry(i);
        assert(entries.skip(i as int)[0] == entries[i as int]);
        assert(entries.skip(i as int).drop_first() =~= entries.skip(i + 1));
        match validate_subnet(iface.subnet.as_str()) {
            Err(_) => {
                let mut msg = chars_of("Invalid existing subnet in interface ");
                extend_str(&mut msg, name.as_str());
                extend_str(&mut msg, ": ");
                extend_str(&mut msg, iface.subnet.as_str());
                assert(msg@ =~= "Invalid existing subnet in interface "@ + name@ + ": "@ + iface.subnet@);
                return Err(string_of(&msg));
            },
            Ok(existing) => {
                if new_network.overlaps(&existing) {
                    let mut msg = chars_of("Subnet ");
                    extend_str(&mut msg, new_subnet);
                    extend_str(&mut msg, " conflicts with existing interface ");
                    extend_str(&mut msg, name.as_str());
                    extend_str(&mut msg, " (");
                    extend_str(&mut msg, iface.subnet.as_str());
                    extend_str(&mut msg, ")");
                    assert(msg@ =~= "Subnet "@ + new_subnet@ + " conflicts with existing interface "@
                        + name@ + " ("@ + iface.subnet@ + ")"@);
                    return Err(string_of(&msg));
                }
            },
        }
        i += 1;
    }
    assert(entries.skip(i as int) =~= Seq::<(Seq<char>, InterfaceConfig)>::empty());
    match route_listing {
        Err(e) => {
            let mut msg = chars_of("System route conflict: ");
            extend_str(&mut msg, e.as_str());
            Err(string_of(&msg))
        },
        Ok(text) => match check_system_route_conflicts(&new_network, text.as_str()) {
            Ok(()) => Ok(()),
            Err(e) => {
                let mut msg = chars_of("System route conflict: ");
                extend_str(&mut msg, e.as_str());
                Err(string_of(&msg))
            },
        },
    }
}

} // verus!
