//! Installation: the addresses offered for the server, the server and
//! parameters files, firewall rules, package commands and the first
//! multi-interface configuration.

use vstd::prelude::*;
use crate::ipv4::{dotted, ipv4_value, spec_is_loopback, spec_is_private, Ipv4};
use crate::models::{
    GlobalSettings, InstallAnswers, InterfaceConfig, InterfaceTable, MultiInterfaceConfig,
};
use crate::numtext::{dec, dec_chars};
use crate::os_detection::OsType;
use crate::text::{chars_of, contains, extend, extend_str, is_ws, lines, occurs_at, option_text, owned, starts_with, string_of, text_result, trim};
use crate::client::{lookup, optional_value, params_match, params_problem, shell_assignments, shell_line, unbrace, WireguardParams};
use crate::ipv4::{lemma_parse_dotted, parse_ipv4};
use crate::numtext::{is_digit, lemma_dec, lemma_parse_dec, parse_unsigned};
use crate::network::{server_ip_spec, subnet_check};
use crate::outside::ip_network_parse;

verus! {

/// Whether an address is public or private.
#[derive(Clone, Copy, Debug, PartialEq, Eq, Structural)]
pub enum IpAddressType {
    Public,
    Private,
}

/// The class offered for an address: none for loopback (127/8) and
/// link-local (169.254/16) addresses, private for the private ranges, public
/// otherwise.
pub open spec fn classify_spec(ip: Ipv4) -> Option<IpAddressType> {
    if spec_is_loopback(ip) {
        None
    } else if ip.a == 169 && ip.b == 254 {
        None
    } else if spec_is_private(ip) {
        Some(IpAddressType::Private)
    } else {
        Some(IpAddressType::Public)
    }
}

/// Classifies an address found on a network interface.
pub fn classify_ipv4_address(ip: &Ipv4) -> (r: Option<IpAddressType>)
    ensures
        r == classify_spec(*ip),
{
    if ip.is_loopback() {
        return None;
    }
    if ip.a == 169 && ip.b == 254 {
        return None;
    }
    if ip.is_private() {
        Some(IpAddressType::Private)
    } else {
        Some(IpAddressType::Public)
    }
}

/// The label of an address class.
pub open spec fn type_label(t: IpAddressType) -> Seq<char> {
    match t {
        IpAddressType::Public => "[Public]"@,
        IpAddressType::Private => "[Private]"@,
    }
}

/// How an address is shown in the selection menu: `ip (interface) [Type]`.
pub open spec fn ip_display(ip: Ipv4, iface: Seq<char>, t: IpAddressType) -> Seq<char> {
    dotted(ip) + " ("@ + iface + ") "@ + type_label(t)
}

/// Formats an address for the selection menu.
pub fn format_ip_display(ip: &Ipv4, interface_name: &str, ip_type: IpAddressType) -> (r: String)
    ensures
        r@ == ip_display(*ip, interface_name@, ip_type),
{
    let mut out = ip.to_chars();
    extend_str(&mut out, " (");
    extend_str(&mut out, interface_name);
    extend_str(&mut out, ") ");
    match ip_type {
        IpAddressType::Public => extend_str(&mut out, "[Public]"),
        IpAddressType::Private => extend_str(&mut out, "[Private]"),
    }
    string_of(&out)
}

/// Sort key of an offered address: public before private, then by address.
pub open spec fn offer_key(t: IpAddressType, ip: Ipv4) -> int {
    (match t {
        IpAddressType::Public => 0int,
        IpAddressType::Private => 4294967296int,
    }) + ipv4_value(ip)
}

/// An address offered for the server, with its interface and class.
pub struct AddressOffer {
    pub ip: Ipv4,
    pub interface_name: String,
    pub ip_type: IpAddressType,
}

/// What an offer holds.
pub type OfferView = (Ipv4, Seq<char>, IpAddressType);

/// The content of an offer.
pub open spec fn offer_view(o: AddressOffer) -> OfferView {
    (o.ip, o.interface_name@, o.ip_type)
}

/// The contents of a sequence of offers.
pub open spec fn offer_views(s: Seq<AddressOffer>) -> Seq<OfferView> {
    s.map_values(|o: AddressOffer| offer_view(o))
}

/// The sort key of an offer.
pub open spec fn key_of(o: OfferView) -> int {
    offer_key(o.2, o.0)
}

/// `s` with `o` inserted after the last element, counted from the end, whose
/// key is not larger.
pub open spec fn insert_stable(s: Seq<OfferView>, o: OfferView) -> Seq<OfferView>
    decreases s.len(),
{
    if s.len() == 0 {
        seq![o]
    } else if key_of(s.last()) <= key_of(o) {
        s.push(o)
    } else {
        insert_stable(s.drop_last(), o).push(s.last())
    }
}

/// `s` in order of its keys, equal keys in their first order (the stable
/// sort that `sort_by` performs).
pub open spec fn stable_sorted(s: Seq<OfferView>) -> Seq<OfferView>
    decreases s.len(),
{
    if s.len() == 0 {
        s
    } else {
        insert_stable(stable_sorted(s.drop_last()), s.last())
    }
}

/// The offers kept from the candidates: loopback and link-local addresses
/// dropped, the others classified, in candidate order.
pub open spec fn offers_of(c: Seq<(Ipv4, Seq<char>)>) -> Seq<OfferView>
    decreases c.len(),
{
    if c.len() == 0 {
        seq![]
    } else {
        match classify_spec(c.last().0) {
            Some(t) => offers_of(c.drop_last()).push((c.last().0, c.last().1, t)),
            None => offers_of(c.drop_last()),
        }
    }
}

/// The keys of a sequence of offers do not decrease.
pub open spec fn keys_sorted(s: Seq<OfferView>) -> bool {
    forall|i: int, j: int| 0 <= i <= j < s.len() ==> key_of(s[i]) <= key_of(s[j])
}

/// Inserting into a sorted sequence keeps it sorted and adds the element.
pub proof fn lemma_insert_stable(s: Seq<OfferView>, o: OfferView)
    requires
        keys_sorted(s),
    ensures
        keys_sorted(insert_stable(s, o)),
        insert_stable(s, o).to_multiset() == s.to_multiset().insert(o),
        insert_stable(s, o).len() == s.len() + 1,
    decreases s.len(),
{
    broadcast use vstd::seq_lib::group_to_multiset_ensures;

    if s.len() == 0 {
        assert(seq![o] =~= Seq::<OfferView>::empty().push(o));
    } else if key_of(s.last()) <= key_of(o) {
    } else {
        let t = s.drop_last();
        assert(keys_sorted(t));
        lemma_insert_stable(t, o);
        let u = insert_stable(t, o);
        assert(s =~= t.push(s.last()));
        assert forall|i: int, j: int| 0 <= i <= j < u.push(s.last()).len() implies key_of(
            u.push(s.last())[i],
        ) <= key_of(u.push(s.last())[j]) by {
            if j == u.len() {
                if i < u.len() {
                    let x = u[i];
                    assert(u.to_multiset().contains(x));
                    assert(t.to_multiset().insert(o).contains(x));
                    if x != o {
                        assert(t.to_multiset().contains(x));
                        assert(t.contains(x));
                        let k = choose|k: int| 0 <= k < t.len() && t[k] == x;
                        assert(s[k] == x);
                    }
                }
            }
        }
    }
}

/// A stably sorted sequence is sorted and holds the same offers.
pub proof fn lemma_stable_sorted(s: Seq<OfferView>)
    ensures
        keys_sorted(stable_sorted(s)),
        stable_sorted(s).to_multiset() == s.to_multiset(),
        stable_sorted(s).len() == s.len(),
    decreases s.len(),
{
    broadcast use vstd::seq_lib::group_to_multiset_ensures;

    if s.len() > 0 {
        lemma_stable_sorted(s.drop_last());
        lemma_insert_stable(stable_sorted(s.drop_last()), s.last());
        assert(s =~= s.drop_last().push(s.last()));
    }
}

/// Stable insertion puts `o` at position `j` when every later element has a
/// larger key and the one before `j`, if any, does not.
pub proof fn lemma_insert_stable_at(s: Seq<OfferView>, o: OfferView, j: int)
    requires
        0 <= j <= s.len(),
        forall|k: int| j <= k < s.len() ==> key_of(#[trigger] s[k]) > key_of(o),
        j > 0 ==> key_of(s[j - 1]) <= key_of(o),
    ensures
        insert_stable(s, o) == s.insert(j, o),
    decreases s.len(),
{
    if s.len() == 0 {
        assert(s.insert(j, o) =~= seq![o]);
    } else if j == s.len() {
        assert(s.insert(j, o) =~= s.push(o));
    } else {
        let t = s.drop_last();
        assert forall|k: int| j <= k < t.len() implies key_of(#[trigger] t[k]) > key_of(o) by {
            assert(t[k] == s[k]);
        }
        if j > 0 {
            assert(t[j - 1] == s[j - 1]);
        }
        lemma_insert_stable_at(t, o, j);
        assert(t.insert(j, o).push(s.last()) =~= s.insert(j, o));
    }
}

/// Orders the addresses found on the network interfaces for the selection
/// menu: loopback and link-local addresses are dropped, public addresses come
/// first, each class by address, equal ones in the order found.
pub fn order_address_offers(candidates: &Vec<(Ipv4, String)>) -> (r: Vec<AddressOffer>)
    ensures
        offer_views(r@) == stable_sorted(
            offers_of(candidates@.map_values(|c: (Ipv4, String)| (c.0, c.1@))),
        ),
{
    let ghost cv = candidates@.map_values(|c: (Ipv4, String)| (c.0, c.1@));
    let mut r: Vec<AddressOffer> = Vec::new();
    let mut i: usize = 0;
    assert(cv.take(0) =~= Seq::<(Ipv4, Seq<char>)>::empty());
    assert(offer_views(r@) =~= Seq::<OfferView>::empty());
    while i < candidates.len()
        invariant
            i <= candidates.len(),
            cv == candidates@.map_values(|c: (Ipv4, String)| (c.0, c.1@)),
            offer_views(r@) == stable_sorted(offers_of(cv.take(i as int))),
        decreases candidates.len() - i,
    {
        let ip = candidates[i].0;
        assert(cv.take(i + 1).drop_last() =~= cv.take(i as int));
        assert(cv.take(i + 1).last() == cv[i as int]);
        match classify_ipv4_address(&ip) {
            Some(t) => {
                let o = AddressOffer { ip, interface_name: candidates[i].1.clone(), ip_type: t };
                let ghost ov = offer_view(o);
                assert(ov == (cv[i as int].0, cv[i as int].1, t));
                let key_o: u64 = offer_key_exec(t, &ip);
                let mut j: usize = r.len();
                while j > 0 && offer_key_exec(r[j - 1].ip_type, &r[j - 1].ip) > key_o
                    invariant
                        j <= r.len(),
                        key_o as int == key_of(ov),
                        forall|k: int| j <= k < r.len() ==> key_of(#[trigger] offer_views(r@)[k]) > key_of(ov),
                    decreases j,
                {
                    assert(offer_views(r@)[j - 1] == offer_view(r@[j - 1]));
                    j -= 1;
                }
                proof {
                    if j > 0 {
                        assert(offer_views(r@)[j - 1] == offer_view(r@[j - 1]));
                    }
                    lemma_insert_stable_at(offer_views(r@), ov, j as int);
                }
                let ghost before = r@;
                r.insert(j, o);
                assert(offer_views(r@) =~= offer_views(before).insert(j as int, ov));
                proof {
                    let x = offers_of(cv.take(i as int));
                    assert(cv[i as int].0 == ip);
                    assert(offers_of(cv.take(i + 1)) == x.push(ov));
                    assert(x.push(ov).drop_last() =~= x);
                    assert(stable_sorted(x.push(ov)) == insert_stable(stable_sorted(x), ov));
                }
            },
            None => {
                assert(cv[i as int].0 == ip);
                assert(offers_of(cv.take(i + 1)) == offers_of(cv.take(i as int)));
            },
        }
        i += 1;
    }
    assert(cv.take(i as int) =~= cv);
    r
}

/// The sort key of an offer, computed.
fn offer_key_exec(t: IpAddressType, ip: &Ipv4) -> (r: u64)
    ensures
        r as int == offer_key(t, *ip),
{
    let base: u64 = match t {
        IpAddressType::Public => 0,
        IpAddressType::Private => 4294967296,
    };
    base + ip.to_u32() as u64
}

// ---------------------------------------------------------------------------
// Server configuration text
// ---------------------------------------------------------------------------

/// The /24 network address written from the first three octets: `a.b.c.0`.
pub open spec fn network24_text(ip: Ipv4) -> Seq<char> {
    crate::client::base_text(ip) + ".0"@
}

/// The /24 network address of an address, as text (`10.19.11.1` gives `10.19.11.0`).
pub fn calculate_ipv4_network(ip: &Ipv4) -> (r: String)
    ensures
        r@ == network24_text(*ip),
{
    let mut out = dec_chars(ip.a as u64);
    extend_str(&mut out, ".");
    let t = dec_chars(ip.b as u64);
    extend(&mut out, &t);
    extend_str(&mut out, ".");
    let t = dec_chars(ip.c as u64);
    extend(&mut out, &t);
    extend_str(&mut out, ".0");
    assert(out@ =~= network24_text(*ip));
    string_of(&out)
}

/// Which firewall the server runs.
#[derive(Clone, Copy, Debug, PartialEq, Eq, Structural)]
pub enum FirewallType {
    Firewalld,
    Iptables,
}

/// firewalld is assumed exactly when `pgrep firewalld` succeeded.
pub fn firewall_from_probe(firewalld_running: bool) -> (r: FirewallType)
    ensures
        r == (if firewalld_running {
            FirewallType::Firewalld
        } else {
            FirewallType::Iptables
        }),
{
    if firewalld_running {
        FirewallType::Firewalld
    } else {
        FirewallType::Iptables
    }
}

/// The `PostUp`/`PostDown` lines for firewalld.
pub open spec fn firewalld_rules_spec(a: InstallAnswers) -> Seq<char> {
    let nic = a.server_wg_nic@;
    let port = dec(a.server_wg_port as nat);
    let net = network24_text(a.server_wg_ip);
    "PostUp = firewall-cmd --zone=public --add-interface="@ + nic + " && firewall-cmd --add-port "@
        + port + "/udp && firewall-cmd --add-rich-rule='rule family=ipv4 source address="@ + net
        + "/24 masquerade'\nPostDown = firewall-cmd --zone=public --remove-interface="@ + nic
        + " && firewall-cmd --remove-port "@ + port
        + "/udp && firewall-cmd --remove-rich-rule='rule family=ipv4 source address="@ + net
        + "/24 masquerade'"@
}

/// Firewall rules for firewalld: the WireGuard interface in the public zone,
/// its UDP port opened, and masquerading for its /24.
pub fn generate_firewalld_rules(answers: &InstallAnswers) -> (r: String)
    ensures
        r@ == firewalld_rules_spec(*answers),
{
    let nic = answers.server_wg_nic.as_str();
    let port = dec_chars(answers.server_wg_port as u64);
    let net = calculate_ipv4_network(&answers.server_wg_ip);
    let mut out = chars_of("PostUp = firewall-cmd --zone=public --add-interface=");
    extend_str(&mut out, nic);
    extend_str(&mut out, " && firewall-cmd --add-port ");
    extend(&mut out, &port);
    extend_str(&mut out, "/udp && firewall-cmd --add-rich-rule='rule family=ipv4 source address=");
    extend_str(&mut out, net.as_str());
    extend_str(&mut out, "/24 masquerade'\nPostDown = firewall-cmd --zone=public --remove-interface=");
    extend_str(&mut out, nic);
    extend_str(&mut out, " && firewall-cmd --remove-port ");
    extend(&mut out, &port);
    extend_str(&mut out, "/udp && firewall-cmd --remove-rich-rule='rule family=ipv4 source address=");
    extend_str(&mut out, net.as_str());
    extend_str(&mut out, "/24 masquerade'");
    assert(out@ =~= firewalld_rules_spec(*answers));
    string_of(&out)
}

/// The `PostUp`/`PostDown` lines for iptables.
pub open spec fn iptables_rules_spec(a: InstallAnswers) -> Seq<char> {
    let port = dec(a.server_wg_port as nat);
    let pubnic = a.server_public_nic@;
    let wg = a.server_wg_nic@;
    "PostUp = iptables -I INPUT -p udp --dport "@ + port + " -j ACCEPT\nPostUp = iptables -I FORWARD -i "@
        + pubnic + " -o "@ + wg + " -j ACCEPT\nPostUp = iptables -I FORWARD -i "@ + wg
        + " -j ACCEPT\nPostUp = iptables -t nat -A POSTROUTING -o "@ + pubnic
        + " -j MASQUERADE\nPostDown = iptables -D INPUT -p udp --dport "@ + port
        + " -j ACCEPT\nPostDown = iptables -D FORWARD -i "@ + pubnic + " -o "@ + wg
        + " -j ACCEPT\nPostDown = iptables -D FORWARD -i "@ + wg
        + " -j ACCEPT\nPostDown = iptables -t nat -D POSTROUTING -o "@ + pubnic + " -j MASQUERADE"@
}

/// Firewall rules for iptables: the UDP port opened, forwarding between the
/// public and WireGuard interfaces, and masquerading on the public one.
pub fn generate_iptables_rules(answers: &InstallAnswers) -> (r: String)
    ensures
        r@ == iptables_rules_spec(*answers),
{
    let port = dec_chars(answers.server_wg_port as u64);
    let pubnic = answers.server_public_nic.as_str();
    let wg = answers.server_wg_nic.as_str();
    let mut out = chars_of("PostUp = iptables -I INPUT -p udp --dport ");
    extend(&mut out, &port);
    extend_str(&mut out, " -j ACCEPT\nPostUp = iptables -I FORWARD -i ");
    extend_str(&mut out, pubnic);
    extend_str(&mut out, " -o ");
    extend_str(&mut out, wg);
    extend_str(&mut out, " -j ACCEPT\nPostUp = iptables -I FORWARD -i ");
    extend_str(&mut out, wg);
    extend_str(&mut out, " -j ACCEPT\nPostUp = iptables -t nat -A POSTROUTING -o ");
    extend_str(&mut out, pubnic);
    extend_str(&mut out, " -j MASQUERADE\nPostDown = iptables -D INPUT -p udp --dport ");
    extend(&mut out, &port);
    extend_str(&mut out, " -j ACCEPT\nPostDown = iptables -D FORWARD -i ");
    extend_str(&mut out, pubnic);
    extend_str(&mut out, " -o ");
    extend_str(&mut out, wg);
    extend_str(&mut out, " -j ACCEPT\nPostDown = iptables -D FORWARD -i ");
    extend_str(&mut out, wg);
    extend_str(&mut out, " -j ACCEPT\nPostDown = iptables -t nat -D POSTROUTING -o ");
    extend_str(&mut out, pubnic);
    extend_str(&mut out, " -j MASQUERADE");
    assert(out@ =~= iptables_rules_spec(*answers));
    string_of(&out)
}

/// The interface section of the server configuration.
pub open spec fn server_interface_spec(a: InstallAnswers) -> Seq<char> {
    "[Interface]\nAddress = "@ + dotted(a.server_wg_ip) + "/24\nListenPort = "@ + dec(
        a.server_wg_port as nat,
    ) + "\nPrivateKey = "@ + a.server_priv_key@ + "\n"@
}

/// The firewall rules for the detected firewall.
pub open spec fn firewall_rules_spec(a: InstallAnswers, fw: FirewallType) -> Seq<char> {
    match fw {
        FirewallType::Firewalld => firewalld_rules_spec(a),
        FirewallType::Iptables => iptables_rules_spec(a),
    }
}

/// The server configuration file that `create_wireguard_config` writes: the
/// interface section, then the firewall rules and a newline.
pub fn server_config_text(answers: &InstallAnswers, firewall: FirewallType) -> (r: String)
    ensures
        r@ == server_interface_spec(*answers) + firewall_rules_spec(*answers, firewall) + "\n"@,
{
    let mut out = chars_of("[Interface]\nAddress = ");
    let ip = answers.server_wg_ip.to_chars();
    extend(&mut out, &ip);
    extend_str(&mut out, "/24\nListenPort = ");
    let port = dec_chars(answers.server_wg_port as u64);
    extend(&mut out, &port);
    extend_str(&mut out, "\nPrivateKey = ");
    extend_str(&mut out, answers.server_priv_key.as_str());
    extend_str(&mut out, "\n");
    let rules = match firewall {
        FirewallType::Firewalld => generate_firewalld_rules(answers),
        FirewallType::Iptables => generate_iptables_rules(answers),
    };
    extend_str(&mut out, rules.as_str());
    extend_str(&mut out, "\n");
    assert(out@ =~= server_interface_spec(*answers) + firewall_rules_spec(*answers, firewall)
        + "\n"@);
    string_of(&out)
}

/// The sysctl settings that turn on forwarding.
pub fn ip_forwarding_sysctl() -> (r: String)
    ensures
        r@ == "net.ipv4.ip_forward = 1\nnet.ipv6.conf.all.forwarding = 1\n"@,
{
    owned("net.ipv4.ip_forward = 1\nnet.ipv6.conf.all.forwarding = 1\n")
}

/// One `KEY=value` line.
pub open spec fn param_line(key: Seq<char>, value: Seq<char>) -> Seq<char> {
    key + "="@ + value
}

/// The lines of the parameters file, as key and value, in the order
/// `write_params_file` writes them; the IPv6 address is empty when there is none.
pub open spec fn param_entries(a: InstallAnswers) -> Seq<(Seq<char>, Seq<char>)> {
    let ipv6 = match a.server_pub_ipv6 {
        Some(v) => v@,
        None => Seq::<char>::empty(),
    };
    seq![
        ("SERVER_PUB_IP"@, dotted(a.server_pub_ip)),
        ("SERVER_PUB_NIC"@, a.server_public_nic@),
        ("SERVER_WG_NIC"@, a.server_wg_nic@),
        ("SERVER_WG_IPV4"@, dotted(a.server_wg_ip)),
        ("SERVER_WG_IPV6"@, ipv6),
        ("SERVER_PORT"@, dec(a.server_wg_port as nat)),
        ("SERVER_PRIV_KEY"@, a.server_priv_key@),
        ("SERVER_PUB_KEY"@, a.server_pub_key@),
        ("CLIENT_DNS_1"@, dotted(a.client_dns_1)),
        ("CLIENT_DNS_2"@, dotted(a.client_dns_2)),
        ("ALLOWED_IPS"@, a.allowed_ips@),
    ]
}

/// `KEY=value` lines separated by newlines, with no final newline.
pub open spec fn join_params(e: Seq<(Seq<char>, Seq<char>)>) -> Seq<char>
    decreases e.len(),
{
    if e.len() == 0 {
        Seq::<char>::empty()
    } else if e.len() == 1 {
        param_line(e[0].0, e[0].1)
    } else {
        join_params(e.drop_last()) + "\n"@ + param_line(e.last().0, e.last().1)
    }
}

/// The parameters file that `write_params_file` writes.
pub open spec fn params_file_spec(a: InstallAnswers) -> Seq<char> {
    join_params(param_entries(a))
}

/// Appends one more `KEY=value` line of the parameters file.
fn push_param(
    out: &mut Vec<char>,
    key: &str,
    value: &Vec<char>,
    first: bool,
    Ghost(done): Ghost<Seq<(Seq<char>, Seq<char>)>>,
)
    requires
        old(out)@ == join_params(done),
        first == (done.len() == 0),
    ensures
        final(out)@ == join_params(done.push((key@, value@))),
{
    let ghost e = done.push((key@, value@));
    assert(e.drop_last() =~= done);
    if !first {
        extend_str(out, "\n");
    }
    extend_str(out, key);
    extend_str(out, "=");
    extend(out, value);
    proof {
        if done.len() == 0 {
            assert(final(out)@ =~= param_line(key@, value@));
        }
    }
}

/// The text of the parameters file for the install answers.
pub fn params_file_text(answers: &InstallAnswers) -> (r: String)
    ensures
        r@ == params_file_spec(*answers),
{
    let ghost e = param_entries(*answers);
    let mut out: Vec<char> = Vec::new();
    assert(e.take(0) =~= Seq::<(Seq<char>, Seq<char>)>::empty());
    let t = answers.server_pub_ip.to_chars();
    push_param(&mut out, "SERVER_PUB_IP", &t, true, Ghost(e.take(0)));
    assert(e.take(0).push(e[0]) =~= e.take(1));
    let t = chars_of(answers.server_public_nic.as_str());
    push_param(&mut out, "SERVER_PUB_NIC", &t, false, Ghost(e.take(1)));
    assert(e.take(1).push(e[1]) =~= e.take(2));
    let t = chars_of(answers.server_wg_nic.as_str());
    push_param(&mut out, "SERVER_WG_NIC", &t, false, Ghost(e.take(2)));
    assert(e.take(2).push(e[2]) =~= e.take(3));
    let t = answers.server_wg_ip.to_chars();
    push_param(&mut out, "SERVER_WG_IPV4", &t, false, Ghost(e.take(3)));
    assert(e.take(3).push(e[3]) =~= e.take(4));
    let t = match &answers.server_pub_ipv6 {
        Some(v) => chars_of(v.as_str()),
        None => Vec::new(),
    };
    assert(t@ == e[4].1);
    push_param(&mut out, "SERVER_WG_IPV6", &t, false, Ghost(e.take(4)));
    assert(e.take(4).push(e[4]) =~= e.take(5));
    let t = dec_chars(answers.server_wg_port as u64);
    push_param(&mut out, "SERVER_PORT", &t, false, Ghost(e.take(5)));
    assert(e.take(5).push(e[5]) =~= e.take(6));
    let t = chars_of(answers.server_priv_key.as_str());
    push_param(&mut out, "SERVER_PRIV_KEY", &t, false, Ghost(e.take(6)));
    assert(e.take(6).push(e[6]) =~= e.take(7));
    let t = chars_of(answers.server_pub_key.as_str());
    push_param(&mut out, "SERVER_PUB_KEY", &t, false, Ghost(e.take(7)));
    assert(e.take(7).push(e[7]) =~= e.take(8));
    let t = answers.client_dns_1.to_chars();
    push_param(&mut out, "CLIENT_DNS_1", &t, false, Ghost(e.take(8)));
    assert(e.take(8).push(e[8]) =~= e.take(9));
    let t = answers.client_dns_2.to_chars();
    push_param(&mut out, "CLIENT_DNS_2", &t, false, Ghost(e.take(9)));
    assert(e.take(9).push(e[9]) =~= e.take(10));
    let t = chars_of(answers.allowed_ips.as_str());
    push_param(&mut out, "ALLOWED_IPS", &t, false, Ghost(e.take(10)));
    assert(e.take(10).push(e[10]) =~= e);
    string_of(&out)
}

// ---------------------------------------------------------------------------
// Packages, services and the first interface
// ---------------------------------------------------------------------------

/// The package installation commands for a distribution: each is a package
/// manager's command, and together they install the package that provides
/// `wg`, with the firewall and QR code packages where the distribution's list
/// names them. CentOS-family 8 takes the kernel module from ELRepo. An unknown
/// distribution has none.
pub open spec fn install_commands_spec(os: OsType, version_id: Seq<char>) -> Option<Seq<Seq<char>>> {
    match os {
        OsType::Debian | OsType::Ubuntu | OsType::Raspbian => Some(
            seq!["apt-get update"@, "apt-get install -y wireguard iptables resolvconf qrencode"@],
        ),
        OsType::Fedora => Some(seq!["dnf install -y wireguard-tools iptables qrencode"@]),
        OsType::Centos | OsType::AlmaLinux | OsType::Rocky => if crate::text::starts_with(
            version_id,
            "8"@,
        ) {
            Some(
                seq![
                    "yum install -y epel-release elrepo-release"@,
                    "yum install -y kmod-wireguard wireguard-tools iptables qrencode"@,
                ],
            )
        } else {
            Some(seq!["yum install -y wireguard-tools iptables"@])
        },
        OsType::Oracle => Some(seq!["yum install -y wireguard-tools iptables qrencode"@]),
        OsType::Arch => Some(seq!["pacman -S --needed --noconfirm wireguard-tools qrencode"@]),
        OsType::Alpine => Some(seq!["apk add wireguard-tools iptables libqrencode-tools"@]),
        OsType::Unknown => None,
    }
}

/// A command run by one of the package managers the installer knows.
pub open spec fn is_package_manager_command(cmd: Seq<char>) -> bool {
    ||| starts_with(cmd, "apt-get "@)
    ||| starts_with(cmd, "dnf "@)
    ||| starts_with(cmd, "yum "@)
    ||| starts_with(cmd, "pacman "@)
    ||| starts_with(cmd, "apk "@)
}

/// A command that installs packages, among them the one that provides `wg`
/// (`wireguard-tools`, or `wireguard` on the Debian family).
pub open spec fn installs_wg_tools(cmd: Seq<char>) -> bool {
    &&& (starts_with(cmd, "apt-get install "@) || starts_with(cmd, "dnf install "@) || starts_with(
        cmd,
        "yum install "@,
    ) || starts_with(cmd, "pacman -S "@) || starts_with(cmd, "apk add "@))
    &&& (contains(cmd, " wireguard-tools"@) || contains(cmd, " wireguard "@))
}

proof fn lemma_command_facts(cmd: Seq<char>, pat: Seq<char>, at: int)
    requires
        0 <= at,
        at + pat.len() <= cmd.len(),
        cmd.subrange(at, at + pat.len()) == pat,
    ensures
        contains(cmd, pat),
{
    assert(occurs_at(cmd, pat, at));
}

/// Some command of the list installs the package that provides `wg`.
pub open spec fn some_command_installs_wg(cmds: Seq<Seq<char>>) -> bool {
    exists|i: int| 0 <= i < cmds.len() && installs_wg_tools(#[trigger] cmds[i])
}

/// For every known distribution, each installation command is run by a
/// package manager, and one of them installs the package that provides `wg`;
/// an unknown distribution has no commands.
pub proof fn lemma_install_commands_install_wg(os: OsType, version_id: Seq<char>)
    ensures
        os != OsType::Unknown <==> install_commands_spec(os, version_id) is Some,
        install_commands_spec(os, version_id) matches Some(cmds) ==> some_command_installs_wg(cmds),
        install_commands_spec(os, version_id) matches Some(cmds) ==> (forall|i: int|
            0 <= i < cmds.len() ==> is_package_manager_command(#[trigger] cmds[i])),
{
    reveal_strlit(" wireguard ");
    reveal_strlit(" wireguard-tools");
    reveal_strlit("apk ");
    reveal_strlit("apk add ");
    reveal_strlit("apk add wireguard-tools iptables libqrencode-tools");
    reveal_strlit("apt-get ");
    reveal_strlit("apt-get install ");
    reveal_strlit("apt-get install -y wireguard iptables resolvconf qrencode");
    reveal_strlit("apt-get update");
    reveal_strlit("dnf ");
    reveal_strlit("dnf install ");
    reveal_strlit("dnf install -y wireguard-tools iptables qrencode");
    reveal_strlit("pacman ");
    reveal_strlit("pacman -S ");
    reveal_strlit("pacman -S --needed --noconfirm wireguard-tools qrencode");
    reveal_strlit("yum ");
    reveal_strlit("yum install ");
    reveal_strlit("yum install -y epel-release elrepo-release");
    reveal_strlit("yum install -y kmod-wireguard wireguard-tools iptables qrencode");
    reveal_strlit("yum install -y wireguard-tools iptables");
    reveal_strlit("yum install -y wireguard-tools iptables qrencode");
    assert(("apt-get update"@).take(8) =~= "apt-get "@);
    assert(starts_with("apt-get update"@, "apt-get "@));
    assert(("apt-get install -y wireguard iptables resolvconf qrencode"@).subrange(18, 29) =~= " wireguard "@);
    lemma_command_facts("apt-get install -y wireguard iptables resolvconf qrencode"@, " wireguard "@, 18);
    assert(("apt-get install -y wireguard iptables resolvconf qrencode"@).take(16) =~= "apt-get install "@);
    assert(("apt-get install -y wireguard iptables resolvconf qrencode"@).take(8) =~= "apt-get "@);
    assert(starts_with("apt-get install -y wireguard iptables resolvconf qrencode"@, "apt-get "@));
    assert(("dnf install -y wireguard-tools iptables qrencode"@).subrange(14, 30) =~= " wireguard-tools"@);
    lemma_command_facts("dnf install -y wireguard-tools iptables qrencode"@, " wireguard-tools"@, 14);
    assert(("dnf install -y wireguard-tools iptables qrencode"@).take(12) =~= "dnf install "@);
    assert(("dnf install -y wireguard-tools iptables qrencode"@).take(4) =~= "dnf "@);
    assert(starts_with("dnf install -y wireguard-tools iptables qrencode"@, "dnf "@));
    assert(("yum install -y epel-release elrepo-release"@).take(4) =~= "yum "@);
    assert(starts_with("yum install -y epel-release elrepo-release"@, "yum "@));
    assert(("yum install -y kmod-wireguard wireguard-tools iptables qrencode"@).subrange(29, 45) =~= " wireguard-tools"@);
    lemma_command_facts("yum install -y kmod-wireguard wireguard-tools iptables qrencode"@, " wireguard-tools"@, 29);
    assert(("yum install -y kmod-wireguard wireguard-tools iptables qrencode"@).take(12) =~= "yum install "@);
    assert(("yum install -y kmod-wireguard wireguard-tools iptables qrencode"@).take(4) =~= "yum "@);
    assert(starts_with("yum install -y kmod-wireguard wireguard-tools iptables qrencode"@, "yum "@));
    assert(("yum install -y wireguard-tools iptables"@).subrange(14, 30) =~= " wireguard-tools"@);
    lemma_command_facts("yum install -y wireguard-tools iptables"@, " wireguard-tools"@, 14);
    assert(("yum install -y wireguard-tools iptables"@).take(12) =~= "yum install "@);
    assert(("yum install -y wireguard-tools iptables"@).take(4) =~= "yum "@);
    assert(starts_with("yum install -y wireguard-tools iptables"@, "yum "@));
    assert(("yum install -y wireguard-tools iptables qrencode"@).subrange(14, 30) =~= " wireguard-tools"@);
    lemma_command_facts("yum install -y wireguard-tools iptables qrencode"@, " wireguard-tools"@, 14);
    assert(("yum install -y wireguard-tools iptables qrencode"@).take(12) =~= "yum install "@);
    assert(("yum install -y wireguard-tools iptables qrencode"@).take(4) =~= "yum "@);
    assert(starts_with("yum install -y wireguard-tools iptables qrencode"@, "yum "@));
    assert(("pacman -S --needed --noconfirm wireguard-tools qrencode"@).subrange(30, 46) =~= " wireguard-tools"@);
    lemma_command_facts("pacman -S --needed --noconfirm wireguard-tools qrencode"@, " wireguard-tools"@, 30);
    assert(("pacman -S --needed --noconfirm wireguard-tools qrencode"@).take(10) =~= "pacman -S "@);
    assert(("pacman -S --needed --noconfirm wireguard-tools qrencode"@).take(7) =~= "pacman "@);
    assert(starts_with("pacman -S --needed --noconfirm wireguard-tools qrencode"@, "pacman "@));
    assert(("apk add wireguard-tools iptables libqrencode-tools"@).subrange(7, 23) =~= " wireguard-tools"@);
    lemma_command_facts("apk add wireguard-tools iptables libqrencode-tools"@, " wireguard-tools"@, 7);
    assert(("apk add wireguard-tools iptables libqrencode-tools"@).take(8) =~= "apk add "@);
    assert(("apk add wireguard-tools iptables libqrencode-tools"@).take(4) =~= "apk "@);
    assert(starts_with("apk add wireguard-tools iptables libqrencode-tools"@, "apk "@));
    match install_commands_spec(os, version_id) {
        Some(cmds) => {
            if cmds.len() == 1 {
                assert(installs_wg_tools(cmds[0]));
            } else {
                assert(installs_wg_tools(cmds[1]));
            }
            assert forall|i: int| 0 <= i < cmds.len() implies is_package_manager_command(
                #[trigger] cmds[i],
            ) by {
                if i == 0 {
                } else {
                }
            }
        },
        None => {},
    }
}

/// The package installation commands that `install_wireguard` runs for the
/// distribution and its `VERSION_ID`. Fedora's version is read as a `u8`
/// and installation stops when it is not one, so for Fedora it must be one.
pub fn install_commands(os: OsType, version_id: &str) -> (r: Option<Vec<String>>)
    requires
        os == OsType::Fedora ==> crate::numtext::parse_unsigned(version_id@, 255) is Some,
    ensures
        r matches Some(v) ==> install_commands_spec(os, version_id@) == Some(
            crate::models::string_views(v@),
        ),
        r is None <==> install_commands_spec(os, version_id@) is None,
        r matches Some(v) ==> some_command_installs_wg(crate::models::string_views(v@)),
{
    proof {
        lemma_install_commands_install_wg(os, version_id@);
    }
    let mut v: Vec<String> = Vec::new();
    match os {
        OsType::Debian | OsType::Ubuntu | OsType::Raspbian => {
            v.push(owned("apt-get update"));
            v.push(owned("apt-get install -y wireguard iptables resolvconf qrencode"));
        },
        OsType::Fedora => {
            v.push(owned("dnf install -y wireguard-tools iptables qrencode"));
        },
        OsType::Centos | OsType::AlmaLinux | OsType::Rocky => {
            let c = chars_of(version_id);
            if crate::text::starts_with_str(&c, "8") {
                v.push(owned("yum install -y epel-release elrepo-release"));
                v.push(owned("yum install -y kmod-wireguard wireguard-tools iptables qrencode"));
            } else {
                v.push(owned("yum install -y wireguard-tools iptables"));
            }
        },
        OsType::Oracle => {
            v.push(owned("yum install -y wireguard-tools iptables qrencode"));
        },
        OsType::Arch => {
            v.push(owned("pacman -S --needed --noconfirm wireguard-tools qrencode"));
        },
        OsType::Alpine => {
            v.push(owned("apk add wireguard-tools iptables libqrencode-tools"));
        },
        OsType::Unknown => {
            return None;
        },
    }
    proof {
        assert(crate::models::string_views(v@) =~= install_commands_spec(os, version_id@)->0);
    }
    Some(v)
}

/// The multi-interface configuration recorded at installation: the global
/// settings from the answers and the one interface installed, created at
/// `created_at`; port suggestions continue after its port.
pub fn create_initial_multi_interface_config(answers: &InstallAnswers, created_at: &str) -> (r: MultiInterfaceConfig)
    requires
        answers.server_wg_port < u16::MAX,
    ensures
        r.global_settings.server_pub_ip == answers.server_pub_ip,
        r.global_settings.server_pub_nic@ == answers.server_public_nic@,
        r.global_settings.dns_servers@ == seq![answers.client_dns_1, answers.client_dns_2],
        r.global_settings.allowed_ips@ == answers.allowed_ips@,
        r.next_suggested_port == answers.server_wg_port + 1,
        r.interfaces@.len() == 1,
        r.interfaces@[0].0 == answers.server_wg_nic@,
        r.interfaces@[0].1.name@ == answers.server_wg_nic@,
        r.interfaces@[0].1.subnet@ == answers.server_wg_subnet@,
        r.interfaces@[0].1.server_ip == answers.server_wg_ip,
        r.interfaces@[0].1.port == answers.server_wg_port,
        r.interfaces@[0].1.private_key@ == answers.server_priv_key@,
        r.interfaces@[0].1.public_key@ == answers.server_pub_key@,
        r.interfaces@[0].1.created_at@ == created_at@,
        r.interfaces@[0].1.active,
{
    let mut config = MultiInterfaceConfig::new();
    let mut dns: Vec<Ipv4> = Vec::new();
    dns.push(answers.client_dns_1);
    dns.push(answers.client_dns_2);
    assert(dns@ =~= seq![answers.client_dns_1, answers.client_dns_2]);
    config.global_settings = GlobalSettings {
        server_pub_ip: answers.server_pub_ip,
        server_pub_nic: answers.server_public_nic.clone(),
        dns_servers: dns,
        allowed_ips: answers.allowed_ips.clone(),
    };
    let iface = InterfaceConfig {
        name: answers.server_wg_nic.clone(),
        subnet: answers.server_wg_subnet.clone(),
        server_ip: answers.server_wg_ip,
        port: answers.server_wg_port,
        private_key: answers.server_priv_key.clone(),
        public_key: answers.server_pub_key.clone(),
        created_at: owned(created_at),
        active: true,
    };
    let _ = config.interfaces.insert(answers.server_wg_nic.clone(), iface);
    config.next_suggested_port = answers.server_wg_port + 1;
    config
}

// ---------------------------------------------------------------------------
// Keys
// ---------------------------------------------------------------------------

/// What a finished `wg` key command gave: whether it exited successfully,
/// its standard output as text (or the message of the UTF-8 decoding error),
/// and its standard error as text.
pub struct KeyCommandOutput {
    pub success: bool,
    pub stdout: Result<String, String>,
    pub stderr: String,
}

/// The key a command printed, trimmed; or the failure message (followed by
/// the standard error when `show_stderr`), or the decoding prefix followed by
/// the decoding error.
pub open spec fn key_output_spec(
    o: KeyCommandOutput,
    failure: Seq<char>,
    show_stderr: bool,
    decode_prefix: Seq<char>,
) -> Result<Seq<char>, Seq<char>> {
    if !o.success {
        Err(
            if show_stderr {
                failure + o.stderr@
            } else {
                failure
            },
        )
    } else {
        match o.stdout {
            Ok(t) => Ok(trim(t@)),
            Err(e) => Err(decode_prefix + e@),
        }
    }
}

/// The key printed by a finished `wg genkey`, `wg pubkey` or `wg genpsk`.
pub fn key_from_output(
    output: &KeyCommandOutput,
    failure: &str,
    show_stderr: bool,
    decode_prefix: &str,
) -> (r: Result<String, String>)
    ensures
        text_result(r) == key_output_spec(*output, failure@, show_stderr, decode_prefix@),
{
    if !output.success {
        let mut msg = chars_of(failure);
        if show_stderr {
            extend_str(&mut msg, output.stderr.as_str());
        }
        return Err(string_of(&msg));
    }
    match &output.stdout {
        Ok(t) => {
            let c = chars_of(t.as_str());
            let k = crate::text::trim_chars(&c);
            Ok(string_of(&k))
        },
        Err(e) => {
            let mut msg = chars_of(decode_prefix);
            extend_str(&mut msg, e.as_str());
            Err(string_of(&msg))
        },
    }
}

/// The server key pair from the outcome of generating the private key and,
/// when that succeeded, of deriving the public key from it.
pub open spec fn key_pair_spec(
    private: Result<Seq<char>, Seq<char>>,
    public: Option<Result<Seq<char>, Seq<char>>>,
) -> Result<(Seq<char>, Seq<char>), Seq<char>> {
    match private {
        Err(e) => Err("Failed to generate private key: "@ + e),
        Ok(k) => match public {
            Some(Ok(p)) => Ok((k, p)),
            Some(Err(e)) => Err("Failed to generate public key: "@ + e),
            None => Err("Failed to generate public key: "@),
        },
    }
}

/// The server key pair: the private key that `wg genkey` gave and the public
/// key that `wg pubkey` derived from it, or the message of the step that
/// failed. `public` is the outcome of the second step, which is run only
/// when the first succeeded.
pub fn create_pub_priv_keys(private: Result<String, String>, public: Option<Result<String, String>>) -> (r: Result<(String, String), String>)
    requires
        private is Ok <==> public is Some,
    ensures
        match r {
            Ok(pair) => key_pair_spec(text_result(private), option_result(public)) == Ok::<
                (Seq<char>, Seq<char>),
                Seq<char>,
            >((pair.0@, pair.1@)),
            Err(e) => key_pair_spec(text_result(private), option_result(public)) == Err::<
                (Seq<char>, Seq<char>),
                Seq<char>,
            >(e@),
        },
{
    match private {
        Err(e) => {
            let mut msg = chars_of("Failed to generate private key: ");
            extend_str(&mut msg, e.as_str());
            Err(string_of(&msg))
        },
        Ok(k) => match public {
            Some(Ok(p)) => Ok((k, p)),
            Some(Err(e)) => {
                let mut msg = chars_of("Failed to generate public key: ");
                extend_str(&mut msg, e.as_str());
                Err(string_of(&msg))
            },
            None => Err(owned("Failed to generate public key: ")),
        },
    }
}

/// The text outcome held by an optional outcome.
pub open spec fn option_result(o: Option<Result<String, String>>) -> Option<Result<Seq<char>, Seq<char>>> {
    match o {
        Some(r) => Some(text_result(r)),
        None => None,
    }
}

// ---------------------------------------------------------------------------
// The answers to the installation questions
// ---------------------------------------------------------------------------

/// The installation answers built from the texts entered; the keys are
/// filled in later. The server's tunnel address is the first host of the
/// subnet entered; when the subnet is refused, or holds no host for the
/// server, the answers are refused with that message.
pub fn build_install_answers(
    server_public_ip: &str,
    server_public_ipv6: Option<String>,
    server_public_nic: String,
    server_wg_nic: String,
    server_wg_subnet: String,
    server_port: &str,
    client_dns_1: &str,
    client_dns_2: &str,
    allowed_ips: String,
) -> (r: Result<InstallAnswers, String>)
    requires
        parse_ipv4(server_public_ip@) is Some,
        parse_unsigned(server_port@, 65535) is Some,
        parse_ipv4(client_dns_1@) is Some,
        parse_ipv4(client_dns_2@) is Some,
    ensures
        r matches Ok(a) ==> (subnet_check(ip_network_parse(server_wg_subnet@)) matches Ok(n)
            && server_ip_spec(n) == Ok::<Ipv4, Seq<char>>(a.server_wg_ip)),
        r matches Err(e) ==> (match subnet_check(ip_network_parse(server_wg_subnet@)) {
            Ok(n) => server_ip_spec(n) == Err::<Ipv4, Seq<char>>(e@),
            Err(m) => m == e@,
        }),
        r matches Ok(a) ==> {
            &&& Some(a.server_pub_ip) == parse_ipv4(server_public_ip@)
            &&& option_text(a.server_pub_ipv6) == option_text(server_public_ipv6)
            &&& a.server_public_nic@ == server_public_nic@
            &&& a.server_wg_nic@ == server_wg_nic@
            &&& a.server_wg_subnet@ == server_wg_subnet@
            &&& Some(a.server_wg_port as int) == parse_unsigned(server_port@, 65535)
            &&& a.server_priv_key@.len() == 0
            &&& a.server_pub_key@.len() == 0
            &&& Some(a.client_dns_1) == parse_ipv4(client_dns_1@)
            &&& Some(a.client_dns_2) == parse_ipv4(client_dns_2@)
            &&& a.allowed_ips@ == allowed_ips@
        },
{
    let server_wg_ip = crate::network::get_server_ip_from_subnet(server_wg_subnet.as_str())?;
    let pub_ip = match crate::ipv4::parse_ipv4_str(server_public_ip) {
        Some(ip) => ip,
        None => Ipv4::new(0, 0, 0, 0),
    };
    let port_chars = chars_of(server_port);
    let port = match crate::numtext::parse_unsigned_chars(&port_chars, 65535) {
        Some(p) => p as u16,
        None => 0,
    };
    let dns1 = match crate::ipv4::parse_ipv4_str(client_dns_1) {
        Some(ip) => ip,
        None => Ipv4::new(0, 0, 0, 0),
    };
    let dns2 = match crate::ipv4::parse_ipv4_str(client_dns_2) {
        Some(ip) => ip,
        None => Ipv4::new(0, 0, 0, 0),
    };
    let empty1 = String::new();
    let empty2 = String::new();
    proof {
        assert(empty1@ =~= Seq::<char>::empty());
    }
    Ok(
        InstallAnswers {
            server_pub_ip: pub_ip,
            server_public_nic,
            server_pub_ipv6: server_public_ipv6,
            server_wg_nic,
            server_wg_ip,
            server_wg_subnet,
            server_wg_port: port,
            server_priv_key: empty1,
            server_pub_key: empty2,
            client_dns_1: dns1,
            client_dns_2: dns2,
            allowed_ips,
        }
    )
}

// ---------------------------------------------------------------------------
// The public network interface
// ---------------------------------------------------------------------------

/// Whether `name` is among the names of the machine's interfaces.
pub fn name_listed(names: &Vec<String>, name: &Vec<char>) -> (r: bool)
    ensures
        r == crate::models::string_views(names@).contains(name@),
{
    let ghost v = crate::models::string_views(names@);
    let mut i: usize = 0;
    while i < names.len()
        invariant
            i <= names.len(),
            v == crate::models::string_views(names@),
            forall|k: int| 0 <= k < i ==> v[k] != name@,
        decreases names.len() - i,
    {
        let c = chars_of(names[i].as_str());
        assert(v[i as int] == names@[i as int]@);
        if crate::text::chars_eq(&c, name) {
            return true;
        }
        i += 1;
    }
    proof {
        if v.contains(name@) {
            let k = choose|k: int| 0 <= k < v.len() && v[k] == name@;
            assert(v[k] != name@);
        }
    }
    false
}

/// The interface that a line of `route -n get default` names, when it is
/// an interface of the machine: the word after `interface:`.
pub open spec fn route_get_line(l: Seq<char>, names: Seq<Seq<char>>) -> Option<Seq<char>> {
    if crate::text::starts_with(trim(l), "interface:"@) {
        let ws = crate::text::words(l);
        let w = if ws.len() > 1 {
            trim(ws[1])
        } else {
            Seq::<char>::empty()
        };
        if w.len() > 0 && names.contains(w) {
            Some(w)
        } else {
            None
        }
    } else {
        None
    }
}

/// The interface that a line of `netstat -rn` gives for the default route,
/// when it is an interface of the machine: the last of at least six words of
/// a line that starts with `0.0.0.0` or `default`.
pub open spec fn netstat_line(l: Seq<char>, names: Seq<Seq<char>>) -> Option<Seq<char>> {
    let ws = crate::text::words(l);
    if (crate::text::starts_with(l, "0.0.0.0"@) || crate::text::starts_with(l, "default"@))
        && ws.len() >= 6 && names.contains(ws.last()) {
        Some(ws.last())
    } else {
        None
    }
}

/// The interface of the first line that names one.
pub open spec fn first_line_interface(ls: Seq<Seq<char>>, names: Seq<Seq<char>>, netstat: bool) -> Option<Seq<char>>
    decreases ls.len(),
{
    if ls.len() == 0 {
        None
    } else {
        let found = if netstat {
            netstat_line(ls[0], names)
        } else {
            route_get_line(ls[0], names)
        };
        match found {
            Some(x) => Some(x),
            None => first_line_interface(ls.drop_first(), names, netstat),
        }
    }
}

/// The interface one line names, as `first_line_interface` reads it.
fn line_interface(l: &Vec<char>, names: &Vec<String>, netstat: bool) -> (r: Option<Vec<char>>)
    ensures
        r matches Some(x) ==> (if netstat {
            netstat_line(l@, crate::models::string_views(names@))
        } else {
            route_get_line(l@, crate::models::string_views(names@))
        }) == Some(x@),
        r is None ==> (if netstat {
            netstat_line(l@, crate::models::string_views(names@))
        } else {
            route_get_line(l@, crate::models::string_views(names@))
        }) is None,
{
    let ws = crate::text::words_of(l);
    assert(crate::text::views(ws@).len() == ws@.len());
    if netstat {
        if (crate::text::starts_with_str(l, "0.0.0.0") || crate::text::starts_with_str(l, "default"))
            && ws.len() >= 6 {
            let last = &ws[ws.len() - 1];
            assert(crate::text::views(ws@).last() == last@);
            if name_listed(names, last) {
                return Some(last.clone());
            }
        }
        None
    } else {
        let t = crate::text::trim_chars(l);
        if crate::text::starts_with_str(&t, "interface:") {
            let w = if ws.len() > 1 {
                assert(crate::text::views(ws@)[1] == ws@[1]@);
                crate::text::trim_chars(&ws[1])
            } else {
                Vec::new()
            };
            assert(w@ =~= (if crate::text::views(ws@).len() > 1 {
                trim(crate::text::views(ws@)[1])
            } else {
                Seq::<char>::empty()
            }));
            if w.len() > 0 && name_listed(names, &w) {
                return Some(w);
            }
        }
        None
    }
}

/// The interface named by the first line of a command's output that names one.
fn output_interface(output: &str, names: &Vec<String>, netstat: bool) -> (r: Option<String>)
    ensures
        crate::interface::option_text_eq(
            r,
            first_line_interface(lines(output@), crate::models::string_views(names@), netstat),
        ),
{
    let v = chars_of(output);
    let ls = crate::text::lines_of(&v);
    let ghost all = lines(output@);
    let ghost nv = crate::models::string_views(names@);
    let mut i: usize = 0;
    assert(all.skip(0) =~= all);
    while i < ls.len()
        invariant
            i <= ls.len(),
            crate::text::views(ls@) == all,
            all == lines(output@),
            nv == crate::models::string_views(names@),
            first_line_interface(all, nv, netstat) == first_line_interface(all.skip(i as int), nv, netstat),
        decreases ls.len() - i,
    {
        let ghost rest = all.skip(i as int);
        assert(rest[0] == ls@[i as int]@);
        assert(rest.drop_first() =~= all.skip(i + 1));
        match line_interface(&ls[i], names, netstat) {
            Some(x) => {
                return Some(string_of(&x));
            },
            None => {},
        }
        i += 1;
    }
    assert(all.skip(i as int) =~= Seq::<Seq<char>>::empty());
    None
}

/// The interface of the default route: from the output of `route -n get
/// default` when that command succeeded, else from that of `netstat -rn`;
/// only interfaces among `names` (the machine's interfaces) count.
pub open spec fn default_route_spec(
    route_output: Option<Seq<char>>,
    netstat_output: Option<Seq<char>>,
    names: Seq<Seq<char>>,
) -> Option<Seq<char>> {
    let from_route = match route_output {
        Some(o) => first_line_interface(lines(o), names, false),
        None => None,
    };
    match from_route {
        Some(x) => Some(x),
        None => match netstat_output {
            Some(o) => first_line_interface(lines(o), names, true),
            None => None,
        },
    }
}

/// The interface of the default route, read from the outputs of the
/// commands that succeeded.
pub fn find_default_route_interface(
    route_output: Option<&str>,
    netstat_output: Option<&str>,
    names: &Vec<String>,
) -> (r: Result<String, String>)
    ensures
        r matches Ok(x) ==> default_route_spec(
            crate::client::option_str(route_output),
            crate::client::option_str(netstat_output),
            crate::models::string_views(names@),
        ) == Some(x@),
        r matches Err(e) ==> default_route_spec(
            crate::client::option_str(route_output),
            crate::client::option_str(netstat_output),
            crate::models::string_views(names@),
        ) is None && e@ == "Could not determine default route interface"@,
{
    match route_output {
        Some(o) => match output_interface(o, names, false) {
            Some(x) => {
                return Ok(x);
            },
            None => {},
        },
        None => {},
    }
    match netstat_output {
        Some(o) => match output_interface(o, names, true) {
            Some(x) => {
                return Ok(x);
            },
            None => {},
        },
        None => {},
    }
    Err(owned("Could not determine default route interface"))
}

/// Interface names tried, in this order, when the default route names none.
pub open spec fn primary_candidates_spec() -> Seq<Seq<char>> {
    seq!["ens3"@, "ens5"@, "enp0s3"@, "eth0"@, "ens160"@, "wlan0"@]
}

/// The first candidate that is an interface of the machine.
pub open spec fn first_listed(c: Seq<Seq<char>>, names: Seq<Seq<char>>) -> Option<Seq<char>>
    decreases c.len(),
{
    if c.len() == 0 {
        None
    } else if names.contains(c[0]) {
        Some(c[0])
    } else {
        first_listed(c.drop_first(), names)
    }
}

/// The primary network interface: the default route's, else the first of
/// `ens3`, `ens5`, `enp0s3`, `eth0`, `ens160`, `wlan0` that the machine has.
pub fn detect_primary_interface(default_route: &Result<String, String>, names: &Vec<String>) -> (r: Result<String, String>)
    ensures
        r matches Ok(x) ==> match default_route {
            Ok(d) => x@ == d@,
            Err(_) => first_listed(primary_candidates_spec(), crate::models::string_views(names@))
                == Some(x@),
        },
        r matches Err(e) ==> default_route is Err && first_listed(
            primary_candidates_spec(),
            crate::models::string_views(names@),
        ) is None && e@ == "Could not detect any suitable network interface"@,
{
    if let Ok(d) = default_route {
        return Ok(d.clone());
    }
    let mut c: Vec<String> = Vec::new();
    c.push(owned("ens3"));
    c.push(owned("ens5"));
    c.push(owned("enp0s3"));
    c.push(owned("eth0"));
    c.push(owned("ens160"));
    c.push(owned("wlan0"));
    let ghost cs = crate::models::string_views(c@);
    assert(cs =~= primary_candidates_spec());
    let ghost nv = crate::models::string_views(names@);
    let mut i: usize = 0;
    assert(cs.skip(0) =~= cs);
    while i < c.len()
        invariant
            i <= c.len(),
            cs == crate::models::string_views(c@),
            cs == primary_candidates_spec(),
            cs.len() == c@.len(),
            nv == crate::models::string_views(names@),
            default_route is Err,
            first_listed(cs, nv) == first_listed(cs.skip(i as int), nv),
        decreases c.len() - i,
    {
        let ghost rest = cs.skip(i as int);
        assert(rest[0] == c@[i as int]@);
        assert(rest.drop_first() =~= cs.skip(i + 1));
        let name = chars_of(c[i].as_str());
        if name_listed(names, &name) {
            assert(first_listed(rest, nv) == Some(rest[0]));
            return Ok(c[i].clone());
        }
        i += 1;
    }
    assert(cs.skip(i as int) =~= Seq::<Seq<char>>::empty());
    Err(owned("Could not detect any suitable network interface"))
}

// ---------------------------------------------------------------------------
// The parameters file reads back what installation wrote
// ---------------------------------------------------------------------------

/// A value that the parameters file carries unchanged: no newline, no white
/// space at either end, and not of the form `${…}`.
pub open spec fn clean_value(v: Seq<char>) -> bool {
    &&& forall|k: int| 0 <= k < v.len() ==> #[trigger] v[k] != '\n'
    &&& (v.len() > 0 ==> !is_ws(v[0]) && !is_ws(v.last()))
    &&& unbrace(v) == v
}

/// A parameter name: nonempty, made of upper-case ASCII letters, digits and `_`.
pub open spec fn key_ok(k: Seq<char>) -> bool {
    &&& k.len() > 0
    &&& forall|i: int|
        0 <= i < k.len() ==> ('A' <= #[trigger] k[i] && k[i] <= 'Z') || ('0' <= k[i] && k[i]
            <= '9') || k[i] == '_'
}

/// A `KEY=value` line reads back as the assignment of `value` to `KEY`.
pub proof fn lemma_param_line_reads_back(k: Seq<char>, v: Seq<char>)
    requires
        key_ok(k),
        clean_value(v),
    ensures
        shell_line(param_line(k, v)) == Some(Some((k, v))),
        trim(param_line(k, v)) == param_line(k, v),
        !crate::text::starts_with(param_line(k, v), "#"@),
        crate::text::split_once(param_line(k, v), "="@) == Some((k, v)),
        trim(k) == k,
        trim(v) == v,
        param_line(k, v).len() > 0,
        !is_ws(param_line(k, v).last()),
        forall|i: int| 0 <= i < param_line(k, v).len() ==> #[trigger] param_line(k, v)[i] != '\n',
{
    reveal_strlit("=");
    reveal_strlit("#");
    let l = param_line(k, v);
    assert(l =~= k + seq!['='] + v);
    assert(l[0] == k[0]);
    assert(!is_ws(k[0]));
    if v.len() > 0 {
        assert(l.last() == v.last());
    } else {
        assert(l.last() == '=');
    }
    crate::text::lemma_trim_fixed(l);
    assert(!crate::text::starts_with(l, "#"@)) by {
        if crate::text::starts_with(l, "#"@) {
            assert(l.take(1)[0] == "#"@[0]);
        }
    }
    let j = k.len() as int;
    assert(crate::text::occurs_at(l, "="@, j)) by {
        assert(l.subrange(j, j + 1) =~= "="@);
    }
    assert forall|i: int| 0 <= i < j implies !crate::text::occurs_at(l, "="@, i) by {
        assert(l.subrange(i, i + 1)[0] == k[i]);
    }
    crate::text::lemma_find_from_is(l, "="@, 0, j);
    assert(l.take(j) =~= k);
    assert(l.skip(j + 1) =~= v);
    assert(!is_ws(k.last()));
    crate::text::lemma_trim_fixed(k);
    crate::text::lemma_trim_fixed(v);
    assert forall|i: int| 0 <= i < l.len() implies #[trigger] l[i] != '\n' by {
        if i < j {
            assert(l[i] == k[i]);
        } else if i > j {
            assert(l[i] == v[i - j - 1]);
        }
    }
}

/// The lines of a list of parameters are the parameter lines.
pub proof fn lemma_lines_of_params(e: Seq<(Seq<char>, Seq<char>)>)
    requires
        forall|i: int| 0 <= i < e.len() ==> key_ok(#[trigger] e[i].0) && clean_value(e[i].1),
    ensures
        lines(join_params(e)) == e.map_values(|p: (Seq<char>, Seq<char>)| param_line(p.0, p.1)),
        e.len() > 0 ==> join_params(e).len() > 0 && !is_ws(join_params(e).last()),
    decreases e.len(),
{
    if e.len() == 1 {
        lemma_param_line_reads_back(e[0].0, e[0].1);
        crate::text::lemma_lines_last(param_line(e[0].0, e[0].1));
        assert(e.map_values(|p: (Seq<char>, Seq<char>)| param_line(p.0, p.1)) =~= seq![
            param_line(e[0].0, e[0].1),
        ]);
    } else if e.len() > 1 {
        let d = e.drop_last();
        assert forall|i: int| 0 <= i < d.len() implies key_ok(#[trigger] d[i].0) && clean_value(
            d[i].1,
        ) by {
            assert(d[i] == e[i]);
        }
        lemma_lines_of_params(d);
        let x = join_params(d);
        let y = param_line(e.last().0, e.last().1);
        lemma_param_line_reads_back(e.last().0, e.last().1);
        reveal_strlit("\n");
        assert(join_params(e) =~= x + seq!['\n'] + y);
        assert(x.last() != '\n' && x.last() != '\r');
        crate::text::lemma_lines_append(x, y);
        assert(e.map_values(|p: (Seq<char>, Seq<char>)| param_line(p.0, p.1)) =~= d.map_values(
            |p: (Seq<char>, Seq<char>)| param_line(p.0, p.1),
        ).push(y));
        assert((x + seq!['\n'] + y).last() == y.last());
    } else {
        assert(e.map_values(|p: (Seq<char>, Seq<char>)| param_line(p.0, p.1)) =~= Seq::<
            Seq<char>,
        >::empty());
    }
}

/// Lines that are all assignments give those assignments.
pub proof fn lemma_all_assignments(
    ls: Seq<Seq<char>>,
    n: int,
    e: Seq<(Seq<char>, Seq<char>)>,
)
    requires
        ls.len() == e.len(),
        forall|i: int| 0 <= i < ls.len() ==> shell_line(#[trigger] ls[i]) == Some(Some(e[i])),
    ensures
        shell_assignments(ls, n) == Ok::<Seq<(Seq<char>, Seq<char>)>, Seq<char>>(e),
    decreases ls.len(),
{
    if ls.len() == 0 {
        assert(e =~= Seq::<(Seq<char>, Seq<char>)>::empty());
    } else {
        assert(shell_line(ls[0]) == Some(Some(e[0])));
        assert forall|i: int| 0 <= i < ls.drop_first().len() implies shell_line(
            #[trigger] ls.drop_first()[i],
        ) == Some(Some(e.drop_first()[i])) by {
            assert(ls.drop_first()[i] == ls[i + 1]);
            assert(e.drop_first()[i] == e[i + 1]);
        }
        lemma_all_assignments(ls.drop_first(), n + 1, e.drop_first());
        assert(seq![e[0]] + e.drop_first() =~= e);
    }
}

/// The last assignment to a name is the one at position `j` when no later
/// assignment is to that name.
pub proof fn lemma_lookup_at(e: Seq<(Seq<char>, Seq<char>)>, j: int, k: Seq<char>)
    requires
        0 <= j < e.len(),
        e[j].0 == k,
        forall|i: int| j < i < e.len() ==> #[trigger] e[i].0 != k,
    ensures
        lookup(e, k) == Some(e[j].1),
    decreases e.len(),
{
    if j < e.len() - 1 {
        let d = e.drop_last();
        assert(e.last().0 != k);
        assert forall|i: int| j < i < d.len() implies #[trigger] d[i].0 != k by {
            assert(d[i] == e[i]);
        }
        lemma_lookup_at(d, j, k);
        assert(d[j] == e[j]);
    }
}

/// Dotted-decimal text and decimal numbers are clean values.
pub proof fn lemma_numbers_clean(ip: Ipv4, n: nat)
    ensures
        clean_value(dotted(ip)),
        clean_value(dec(n)),
{
    lemma_dec(n);
    lemma_dec(ip.a as nat);
    lemma_dec(ip.d as nat);
    crate::ipv4::lemma_dec_no_dot(ip.a as nat);
    let s = dotted(ip);
    assert(s[0] == dec(ip.a as nat)[0]);
    assert(s.last() == dec(ip.d as nat).last());
    assert(is_digit(dec(ip.d as nat)[dec(ip.d as nat).len() - 1]));
    assert(is_digit(dec(n)[dec(n).len() - 1]));
    assert forall|k: int| 0 <= k < s.len() implies #[trigger] s[k] != '\n' by {
        lemma_dotted_chars(ip, k);
    }
    assert forall|k: int| 0 <= k < dec(n).len() implies #[trigger] dec(n)[k] != '\n' by {
        assert(is_digit(dec(n)[k]));
    }
    reveal_strlit("${");
    assert(!crate::text::starts_with(s, "${"@)) by {
        if crate::text::starts_with(s, "${"@) {
            assert(s.take(2)[0] == '$');
        }
    }
    assert(!crate::text::starts_with(dec(n), "${"@)) by {
        if crate::text::starts_with(dec(n), "${"@) {
            assert(dec(n).take(2)[0] == '$');
        }
    }
}

/// Every character of dotted-decimal text is a digit or `.`.
pub proof fn lemma_dotted_chars(ip: Ipv4, k: int)
    requires
        0 <= k < dotted(ip).len(),
    ensures
        is_digit(dotted(ip)[k]) || dotted(ip)[k] == '.',
{
    lemma_dec(ip.a as nat);
    lemma_dec(ip.b as nat);
    lemma_dec(ip.c as nat);
    lemma_dec(ip.d as nat);
    let da = dec(ip.a as nat);
    let db = dec(ip.b as nat);
    let dc = dec(ip.c as nat);
    let dd = dec(ip.d as nat);
    let s = dotted(ip);
    if k < da.len() {
        assert(s[k] == da[k]);
    } else if k == da.len() {
    } else if k < da.len() + 1 + db.len() {
        assert(s[k] == db[k - da.len() - 1]);
    } else if k == da.len() + 1 + db.len() {
    } else if k < da.len() + 2 + db.len() + dc.len() {
        assert(s[k] == dc[k - da.len() - 2 - db.len()]);
    } else if k == da.len() + 2 + db.len() + dc.len() {
    } else {
        assert(s[k] == dd[k - da.len() - 3 - db.len() - dc.len()]);
    }
}

/// The eleven parameter names are valid names and pairwise different.
pub proof fn lemma_param_keys(a: InstallAnswers)
    ensures
        forall|i: int| 0 <= i < 11 ==> key_ok(#[trigger] param_entries(a)[i].0),
        forall|i: int, j: int|
            0 <= i < 11 && 0 <= j < 11 && i != j ==> #[trigger] param_entries(a)[i].0
                != #[trigger] param_entries(a)[j].0,
{
    reveal_strlit("SERVER_PUB_IP");
    reveal_strlit("SERVER_PUB_NIC");
    reveal_strlit("SERVER_WG_NIC");
    reveal_strlit("SERVER_WG_IPV4");
    reveal_strlit("SERVER_WG_IPV6");
    reveal_strlit("SERVER_PORT");
    reveal_strlit("SERVER_PRIV_KEY");
    reveal_strlit("SERVER_PUB_KEY");
    reveal_strlit("CLIENT_DNS_1");
    reveal_strlit("CLIENT_DNS_2");
    reveal_strlit("ALLOWED_IPS");
    let e = param_entries(a);
    assert forall|i: int| 0 <= i < 11 implies key_ok(#[trigger] e[i].0) by {
        let k = e[i].0;
        assert forall|m: int| 0 <= m < k.len() implies ('A' <= #[trigger] k[m] && k[m] <= 'Z') || (
        '0' <= k[m] && k[m] <= '9') || k[m] == '_' by {
        }
    }
    assert forall|i: int, j: int|
        0 <= i < 11 && 0 <= j < 11 && i != j implies #[trigger] e[i].0 != #[trigger] e[j].0 by {
        let x = e[i].0;
        let y = e[j].0;
        if x.len() == y.len() {
            if x =~= y {
                assert(x[7] == y[7]);
                assert(x[8] == y[8]);
                assert(x[11] == y[11]);
                assert(x[1] == y[1]);
                assert(x[x.len() - 1] == y[y.len() - 1]);
            }
        }
    }
}

/// Each parameter is found under its own name.
proof fn lemma_param_lookup(a: InstallAnswers, j: int)
    requires
        0 <= j < 11,
    ensures
        lookup(param_entries(a), param_entries(a)[j].0) == Some(param_entries(a)[j].1),
{
    lemma_param_keys(a);
    let e = param_entries(a);
    assert forall|i: int| j < i < e.len() implies #[trigger] e[i].0 != e[j].0 by {}
    lemma_lookup_at(e, j, e[j].0);
}

/// The value found under each name of the parameters file.
pub(crate) proof fn lemma_param_lookups(a: InstallAnswers)
    ensures
        lookup(param_entries(a), "SERVER_PUB_IP"@) == Some(dotted(a.server_pub_ip)),
        lookup(param_entries(a), "SERVER_PUB_NIC"@) == Some(a.server_public_nic@),
        lookup(param_entries(a), "SERVER_WG_NIC"@) == Some(a.server_wg_nic@),
        lookup(param_entries(a), "SERVER_WG_IPV4"@) == Some(dotted(a.server_wg_ip)),
        lookup(param_entries(a), "SERVER_WG_IPV6"@) == Some(param_entries(a)[4].1),
        lookup(param_entries(a), "SERVER_PORT"@) == Some(dec(a.server_wg_port as nat)),
        lookup(param_entries(a), "SERVER_PRIV_KEY"@) == Some(a.server_priv_key@),
        lookup(param_entries(a), "SERVER_PUB_KEY"@) == Some(a.server_pub_key@),
        lookup(param_entries(a), "CLIENT_DNS_1"@) == Some(dotted(a.client_dns_1)),
        lookup(param_entries(a), "CLIENT_DNS_2"@) == Some(dotted(a.client_dns_2)),
        lookup(param_entries(a), "ALLOWED_IPS"@) == Some(a.allowed_ips@),
{
    let e = param_entries(a);
    lemma_param_lookup(a, 0);
    lemma_param_lookup(a, 1);
    lemma_param_lookup(a, 2);
    lemma_param_lookup(a, 3);
    lemma_param_lookup(a, 4);
    lemma_param_lookup(a, 5);
    lemma_param_lookup(a, 6);
    lemma_param_lookup(a, 7);
    lemma_param_lookup(a, 8);
    lemma_param_lookup(a, 9);
    lemma_param_lookup(a, 10);
}

/// The lines of the parameters file are exactly its assignments.
proof fn lemma_param_lines(a: InstallAnswers)
    requires
        clean_value(a.server_public_nic@),
        clean_value(a.server_wg_nic@),
        clean_value(a.server_priv_key@),
        clean_value(a.server_pub_key@),
        clean_value(a.allowed_ips@),
        a.server_pub_ipv6 matches Some(v) ==> clean_value(v@),
    ensures
        shell_assignments(lines(params_file_spec(a)), 1) == Ok::<
            Seq<(Seq<char>, Seq<char>)>,
            Seq<char>,
        >(param_entries(a)),
{
    let e = param_entries(a);
    lemma_param_keys(a);
    lemma_numbers_clean(a.server_pub_ip, a.server_wg_port as nat);
    lemma_numbers_clean(a.server_wg_ip, a.server_wg_port as nat);
    lemma_numbers_clean(a.client_dns_1, a.server_wg_port as nat);
    lemma_numbers_clean(a.client_dns_2, a.server_wg_port as nat);
    assert(clean_value(e[4].1)) by {
        if a.server_pub_ipv6 is None {
            assert(e[4].1 =~= Seq::<char>::empty());
            assert(unbrace(Seq::<char>::empty()) == Seq::<char>::empty());
        }
    }
    assert forall|i: int| 0 <= i < e.len() implies key_ok(#[trigger] e[i].0) && clean_value(e[i].1) by {
    }
    lemma_lines_of_params(e);
    let ls = lines(params_file_spec(a));
    assert forall|i: int| 0 <= i < ls.len() implies shell_line(#[trigger] ls[i]) == Some(Some(e[i])) by {
        lemma_param_line_reads_back(e[i].0, e[i].1);
    }
    lemma_all_assignments(ls, 1, e);
}

/// What installation writes to the parameters file reads back as the same
/// server parameters, provided the free-text answers are clean values (and
/// an IPv6 address, if given, is nonempty).
pub proof fn lemma_params_round_trip(a: InstallAnswers)
    requires
        clean_value(a.server_public_nic@),
        clean_value(a.server_wg_nic@),
        clean_value(a.server_priv_key@),
        clean_value(a.server_pub_key@),
        clean_value(a.allowed_ips@),
        a.server_pub_ipv6 matches Some(v) ==> clean_value(v@) && v@.len() > 0,
    ensures
        shell_assignments(lines(params_file_spec(a)), 1) == Ok::<
            Seq<(Seq<char>, Seq<char>)>,
            Seq<char>,
        >(param_entries(a)),
        params_problem(param_entries(a)) is None,
        forall|p: WireguardParams|
            params_match(p, param_entries(a)) ==> {
                &&& p.server_pub_nic@ == a.server_public_nic@
                &&& p.server_wg_nic@ == a.server_wg_nic@
                &&& p.server_wg_ipv4 == a.server_wg_ip
                &&& option_text(p.server_wg_ipv6) == option_text(a.server_pub_ipv6)
                &&& p.server_port == a.server_wg_port
                &&& p.server_priv_key@ == a.server_priv_key@
                &&& p.server_pub_key@ == a.server_pub_key@
                &&& p.client_dns_1 == a.client_dns_1
                &&& p.client_dns_2 == a.client_dns_2
                &&& p.allowed_ips@ == a.allowed_ips@
            },
{
    let e = param_entries(a);
    lemma_param_lines(a);
    lemma_param_lookups(a);
    lemma_parse_dotted(a.server_wg_ip);
    lemma_parse_dotted(a.client_dns_1);
    lemma_parse_dotted(a.client_dns_2);
    lemma_parse_dec(a.server_wg_port as nat, 65535);
    match a.server_pub_ipv6 {
        Some(v) => {
            assert(e[4].1 == v@);
            crate::text::lemma_trim_fixed(v@);
        },
        None => {
            assert(e[4].1 =~= Seq::<char>::empty());
            assert(trim(Seq::<char>::empty()) =~= Seq::<char>::empty()) by {
                crate::text::lemma_trim_fixed(Seq::<char>::empty());
            }
        },
    }
    assert(optional_value(e, "SERVER_WG_IPV6"@) == option_text(a.server_pub_ipv6));
}

} // verus!
