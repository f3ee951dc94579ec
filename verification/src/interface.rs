//! Managing interfaces: the prefix of a subnet, an interface's configuration
//! file, the public network interface, client counts, and the checks made
//! before a new interface is added.

use vstd::prelude::*;
use crate::ipv4::dotted;
use crate::models::{view_keys, view_ports, InterfaceConfig, MultiInterfaceConfig};
use crate::network::{listing_shows_port, is_port_in_use, slice_contains};
use crate::numtext::{dec, dec_chars, parse_unsigned, parse_unsigned_chars};
use crate::text::{
    chars_eq, chars_of, contains, contains_str, extend, extend_str, find_from, lines, lines_of,
    owned, split_chars, split_on, starts_with, string_of, words, words_of,
};

verus! {

// ---------------------------------------------------------------------------
// The interface configuration file
// ---------------------------------------------------------------------------

/// The prefix length of a subnet text `address/prefix`, or the message for
/// text that is not two parts around one `/` or whose prefix is not a `u8`.
pub open spec fn subnet_prefix(subnet: Seq<char>) -> Result<int, Seq<char>> {
    let parts = split_on(subnet, '/');
    if parts.len() != 2 {
        Err("Invalid subnet format: "@ + subnet)
    } else {
        match parse_unsigned(parts[1], 255) {
            Some(n) => Ok(n),
            None => Err("Invalid subnet prefix: "@ + parts[1]),
        }
    }
}

/// The prefix length written after the `/` of a subnet.
pub fn extract_prefix_from_subnet(subnet: &str) -> (r: Result<u8, String>)
    ensures
        r matches Ok(p) ==> subnet_prefix(subnet@) == Ok::<int, Seq<char>>(p as int),
        r matches Err(e) ==> subnet_prefix(subnet@) == Err::<int, Seq<char>>(e@),
{
    let v = chars_of(subnet);
    let parts = split_chars(&v, '/');
    assert(parts@.len() == split_on(v@, '/').len());
    if parts.len() != 2 {
        let mut msg = chars_of("Invalid subnet format: ");
        extend(&mut msg, &v);
        return Err(string_of(&msg));
    }
    assert(parts@[1]@ == split_on(v@, '/')[1]);
    match parse_unsigned_chars(&parts[1], 255) {
        Some(n) => Ok(n as u8),
        None => {
            let mut msg = chars_of("Invalid subnet prefix: ");
            extend(&mut msg, &parts[1]);
            Err(string_of(&msg))
        },
    }
}

/// The configuration file of an added interface: its key, address with the
/// subnet's prefix, port, and forwarding and masquerading rules through the
/// public interface.
pub open spec fn interface_config_spec(i: InterfaceConfig, prefix: u8, public_interface: Seq<char>) -> Seq<char> {
    let name = i.name@;
    "[Interface]\nPrivateKey = "@ + i.private_key@ + "\nAddress = "@ + dotted(i.server_ip) + "/"@
        + dec(prefix as nat) + "\nListenPort = "@ + dec(i.port as nat)
        + "\nPostUp = iptables -A FORWARD -i "@ + name + " -j ACCEPT; iptables -A FORWARD -o "@
        + name + " -j ACCEPT; iptables -t nat -A POSTROUTING -o "@ + public_interface
        + " -j MASQUERADE\nPostDown = iptables -D FORWARD -i "@ + name
        + " -j ACCEPT; iptables -D FORWARD -o "@ + name
        + " -j ACCEPT; iptables -t nat -D POSTROUTING -o "@ + public_interface
        + " -j MASQUERADE\n"@
}

/// The text of an added interface's configuration file.
pub fn interface_config_text(interface: &InterfaceConfig, prefix: u8, public_interface: &str) -> (r: String)
    ensures
        r@ == interface_config_spec(*interface, prefix, public_interface@),
{
    let name = chars_of(interface.name.as_str());
    let public = chars_of(public_interface);
    let mut out = chars_of("[Interface]\nPrivateKey = ");
    extend_str(&mut out, interface.private_key.as_str());
    extend_str(&mut out, "\nAddress = ");
    let ip = interface.server_ip.to_chars();
    extend(&mut out, &ip);
    extend_str(&mut out, "/");
    let p = dec_chars(prefix as u64);
    extend(&mut out, &p);
    extend_str(&mut out, "\nListenPort = ");
    let port = dec_chars(interface.port as u64);
    extend(&mut out, &port);
    extend_str(&mut out, "\nPostUp = iptables -A FORWARD -i ");
    extend(&mut out, &name);
    extend_str(&mut out, " -j ACCEPT; iptables -A FORWARD -o ");
    extend(&mut out, &name);
    extend_str(&mut out, " -j ACCEPT; iptables -t nat -A POSTROUTING -o ");
    extend(&mut out, &public);
    extend_str(&mut out, " -j MASQUERADE\nPostDown = iptables -D FORWARD -i ");
    extend(&mut out, &name);
    extend_str(&mut out, " -j ACCEPT; iptables -D FORWARD -o ");
    extend(&mut out, &name);
    extend_str(&mut out, " -j ACCEPT; iptables -t nat -D POSTROUTING -o ");
    extend(&mut out, &public);
    extend_str(&mut out, " -j MASQUERADE\n");
    assert(out@ =~= interface_config_spec(*interface, prefix, public_interface@));
    string_of(&out)
}

/// The path of an interface's configuration file.
pub fn interface_config_path(interface_name: &str) -> (r: String)
    ensures
        r@ == "/etc/wireguard/"@ + interface_name@ + ".conf"@,
{
    let mut out = chars_of("/etc/wireguard/");
    extend_str(&mut out, interface_name);
    extend_str(&mut out, ".conf");
    string_of(&out)
}

// ---------------------------------------------------------------------------
// The public network interface
// ---------------------------------------------------------------------------

/// Position of the first word equal to `w`.
pub open spec fn word_index(ws: Seq<Seq<char>>, w: Seq<char>) -> Option<int>
    decreases ws.len(),
{
    if ws.len() == 0 {
        None
    } else if ws[0] == w {
        Some(0)
    } else {
        match word_index(ws.drop_first(), w) {
            Some(i) => Some(i + 1),
            None => None,
        }
    }
}

/// The device a route line names: the word after its first word `dev`.
pub open spec fn route_dev(line: Seq<char>) -> Option<Seq<char>> {
    if !contains(line, "dev"@) {
        None
    } else {
        let ws = words(line);
        match word_index(ws, "dev"@) {
            Some(d) => if d + 1 < ws.len() {
                Some(ws[d + 1])
            } else {
                None
            },
            None => None,
        }
    }
}

/// The device of the first route line that names one.
pub open spec fn first_route_dev(ls: Seq<Seq<char>>) -> Option<Seq<char>>
    decreases ls.len(),
{
    if ls.len() == 0 {
        None
    } else {
        match route_dev(ls[0]) {
            Some(d) => Some(d),
            None => first_route_dev(ls.drop_first()),
        }
    }
}

/// Position of the first word that is `dev`.
fn dev_position(ws: &Vec<Vec<char>>) -> (r: Option<usize>)
    ensures
        r matches Some(i) ==> i < ws@.len() && word_index(crate::text::views(ws@), "dev"@) == Some(
            i as int,
        ),
        r is None ==> word_index(crate::text::views(ws@), "dev"@) is None,
{
    let dev = chars_of("dev");
    let ghost all = crate::text::views(ws@);
    let mut i: usize = 0;
    assert(all.skip(0) =~= all);
    while i < ws.len()
        invariant
            i <= ws.len(),
            all == crate::text::views(ws@),
            dev@ == "dev"@,
            word_index(all, "dev"@) == match word_index(all.skip(i as int), "dev"@) {
                Some(k) => Some(k + i),
                None => None,
            },
        decreases ws.len() - i,
    {
        let ghost rest = all.skip(i as int);
        assert(rest[0] == ws@[i as int]@);
        assert(rest.drop_first() =~= all.skip(i + 1));
        if chars_eq(&ws[i], &dev) {
            return Some(i);
        }
        i += 1;
    }
    assert(all.skip(i as int) =~= Seq::<Seq<char>>::empty());
    None
}

/// The interface that the default route goes through, read from the output
/// of `ip route show default`: the word after `dev` on the first line that
/// has one.
pub fn public_interface_from_routes(route_output: &str) -> (r: Option<String>)
    ensures
        option_text_eq(r, first_route_dev(lines(route_output@))),
{
    let v = chars_of(route_output);
    let ls = lines_of(&v);
    let ghost all = lines(route_output@);
    let mut i: usize = 0;
    assert(all.skip(0) =~= all);
    while i < ls.len()
        invariant
            i <= ls.len(),
            crate::text::views(ls@) == all,
            all == lines(route_output@),
            first_route_dev(all) == first_route_dev(all.skip(i as int)),
        decreases ls.len() - i,
    {
        let ghost rest = all.skip(i as int);
        assert(rest[0] == ls@[i as int]@);
        assert(rest.drop_first() =~= all.skip(i + 1));
        if contains_str(&ls[i], "dev") {
            let ws = words_of(&ls[i]);
            let n = ws.len();
            match dev_position(&ws) {
                Some(d) => {
                    if d + 1 < n {
                        proof {
                            let line = ls@[i as int]@;
                            assert(crate::text::views(ws@)[d + 1] == ws@[d + 1]@);
                            assert(words(line) == crate::text::views(ws@));
                            assert(route_dev(line) == Some(ws@[d + 1]@));
                            assert(first_route_dev(rest) == route_dev(rest[0]));
                        }
                        return Some(string_of(&ws[d + 1]));
                    }
                },
                None => {},
            }
        }
        i += 1;
    }
    assert(all.skip(i as int) =~= Seq::<Seq<char>>::empty());
    None
}

/// Whether an optional string holds the given optional text.
pub open spec fn option_text_eq(r: Option<String>, s: Option<Seq<char>>) -> bool {
    match r {
        Some(x) => s == Some(x@),
        None => s is None,
    }
}

/// The interface names tried, in this order, when no default route names one.
pub open spec fn public_interface_candidates_spec() -> Seq<Seq<char>> {
    seq!["eth0"@, "ens3"@, "enp0s3"@, "wlan0"@]
}

/// The interface names tried when no default route names one.
pub fn public_interface_candidates() -> (r: Vec<String>)
    ensures
        crate::models::string_views(r@) == public_interface_candidates_spec(),
{
    let mut r: Vec<String> = Vec::new();
    r.push(owned("eth0"));
    r.push(owned("ens3"));
    r.push(owned("enp0s3"));
    r.push(owned("wlan0"));
    assert(crate::models::string_views(r@) =~= public_interface_candidates_spec());
    r
}

/// Position of the first `true`.
pub open spec fn first_true(s: Seq<bool>) -> Option<int>
    decreases s.len(),
{
    if s.len() == 0 {
        None
    } else if s[0] {
        Some(0)
    } else {
        match first_true(s.drop_first()) {
            Some(i) => Some(i + 1),
            None => None,
        }
    }
}

/// The public interface: the one the default route names (from the output of
/// `ip route show default`), else the first candidate of
/// `public_interface_candidates` that `link_shown` marks as present.
pub fn get_public_interface(route_output: &str, link_shown: &Vec<bool>) -> (r: Result<String, String>)
    requires
        link_shown.len() == 4,
    ensures
        r matches Ok(x) ==> match first_route_dev(lines(route_output@)) {
            Some(d) => x@ == d,
            None => (first_true(link_shown@) matches Some(i) && x@
                == public_interface_candidates_spec()[i]),
        },
        r matches Err(e) ==> first_route_dev(lines(route_output@)) is None && first_true(
            link_shown@,
        ) is None && e@ == "Could not detect public network interface"@,
{
    match public_interface_from_routes(route_output) {
        Some(x) => Ok(x),
        None => {
            let candidates = public_interface_candidates();
            assert(candidates@.len() == crate::models::string_views(candidates@).len());
            let mut i: usize = 0;
            assert(link_shown@.skip(0) =~= link_shown@);
            while i < link_shown.len()
                invariant
                    i <= link_shown.len() == 4,
                    first_route_dev(lines(route_output@)) is None,
                    candidates@.len() == 4,
                    crate::models::string_views(candidates@) == public_interface_candidates_spec(),
                    first_true(link_shown@) == match first_true(link_shown@.skip(i as int)) {
                        Some(k) => Some(k + i),
                        None => None,
                    },
                decreases link_shown.len() - i,
            {
                assert(link_shown@.skip(i as int).drop_first() =~= link_shown@.skip(i + 1));
                if link_shown[i] {
                    assert(crate::models::string_views(candidates@)[i as int] == candidates@[i as int]@);
                    assert(first_true(link_shown@.skip(i as int)) == Some(0int));
                    let c = candidates[i].clone();
                    assert(c@ == public_interface_candidates_spec()[i as int]);
                    return Ok(c);
                }
                i += 1;
            }
            assert(link_shown@.skip(i as int) =~= Seq::<bool>::empty());
            Err(owned("Could not detect public network interface"))
        },
    }
}

// ---------------------------------------------------------------------------
// Clients of an interface
// ---------------------------------------------------------------------------

/// Number of non-overlapping occurrences of `p` in `s` from position `from`,
/// found left to right (`str::matches(..).count()`).
pub open spec fn count_matches(s: Seq<char>, p: Seq<char>, from: int) -> nat
    decreases s.len() - from,
{
    if p.len() == 0 || from < 0 || from > s.len() {
        0
    } else {
        match find_from(s, p, from) {
            Some(j) => if j >= from && j + p.len() <= s.len() {
                1 + count_matches(s, p, j + p.len())
            } else {
                0
            },
            None => 0,
        }
    }
}

/// The number of clients of an interface: the client headers in its
/// configuration file, none when there is no file.
pub fn count_interface_clients(config_content: Option<&str>) -> (r: usize)
    ensures
        r == match config_content {
            Some(c) => count_matches(c@, "### Client "@, 0),
            None => 0,
        },
{
    match config_content {
        None => 0,
        Some(c) => {
            let s = chars_of(c);
            let p = chars_of("### Client ");
            proof {
                reveal_strlit("### Client ");
            }
            let mut from: usize = 0;
            let mut n: usize = 0;
            while from <= s.len()
                invariant
                    config_content == Some(c),
                    s@ == c@,
                    p@ == "### Client "@,
                    p@.len() == 11,
                    from <= s.len() + 11,
                    n <= from,
                    count_matches(s@, p@, 0) == n + count_matches(s@, p@, from as int),
                decreases s.len() + 1 - from,
            {
                match crate::text::find_from_exec(&s, &p, from) {
                    Some(j) => {
                        proof {
                            crate::text::lemma_find_from_bounds(s@, p@, from as int);
                            assert(count_matches(s@, p@, from as int) == 1 + count_matches(
                                s@,
                                p@,
                                j + 11,
                            ));
                        }
                        n += 1;
                        from = j + 11;
                    },
                    None => {
                        assert(count_matches(s@, p@, from as int) == 0);
                        return n;
                    },
                }
            }
            n
        },
    }
}

// ---------------------------------------------------------------------------
// Adding an interface
// ---------------------------------------------------------------------------

/// The first rule that a new interface name breaks: taken, or not `wg…`.
pub open spec fn new_name_problem(names: Seq<Seq<char>>, name: Seq<char>) -> Option<Seq<char>> {
    if names.contains(name) {
        Some("Interface "@ + name + " already exists"@)
    } else if !starts_with(name, "wg"@) {
        Some("Interface name must start with 'wg' (e.g., wg0, wg1, wg2)"@)
    } else {
        None
    }
}

/// A new interface name must be unused and begin with `wg`.
pub fn check_new_interface_name(config: &MultiInterfaceConfig, interface_name: &str) -> (r: Result<(), String>)
    ensures
        r is Ok <==> new_name_problem(view_keys(config.interfaces@), interface_name@) is None,
        r matches Err(e) ==> new_name_problem(view_keys(config.interfaces@), interface_name@)
            == Some(e@),
{
    if config.interfaces.contains_key(interface_name) {
        let mut msg = chars_of("Interface ");
        extend_str(&mut msg, interface_name);
        extend_str(&mut msg, " already exists");
        return Err(string_of(&msg));
    }
    let n = chars_of(interface_name);
    if !crate::text::starts_with_str(&n, "wg") {
        return Err(owned("Interface name must start with 'wg' (e.g., wg0, wg1, wg2)"));
    }
    Ok(())
}

/// The first rule that a port entered for a new interface breaks: not a
/// port number, below 1024, used by an interface, or shown as listening.
pub open spec fn port_problem(input: Seq<char>, existing: Seq<u16>, listing: Seq<char>) -> Option<Seq<char>> {
    match parse_unsigned(input, 65535) {
        None => Some("Invalid port number"@),
        Some(p) => if p < 1024 {
            Some("Port must be between 1024 and 65535"@)
        } else if existing.contains(p as u16) {
            Some("Port "@ + dec(p as nat) + " is already used by another interface"@)
        } else if listing_shows_port(listing, p as u16) {
            Some("Port "@ + dec(p as nat) + " is already in use by another process"@)
        } else {
            None
        },
    }
}

/// Reads and checks the port entered for a new interface against the ports
/// of the existing interfaces and a listing of UDP sockets (`ss -ulpn`).
pub fn check_interface_port(port_input: &str, existing_ports: &[u16], listing: &str) -> (r: Result<u16, String>)
    ensures
        r is Ok <==> port_problem(port_input@, existing_ports@, listing@) is None,
        r matches Ok(p) ==> parse_unsigned(port_input@, 65535) == Some(p as int),
        r matches Err(e) ==> port_problem(port_input@, existing_ports@, listing@) == Some(e@),
{
    let c = chars_of(port_input);
    let port = match parse_unsigned_chars(&c, 65535) {
        Some(n) => n as u16,
        None => {
            return Err(owned("Invalid port number"));
        },
    };
    if port < 1024 {
        return Err(owned("Port must be between 1024 and 65535"));
    }
    if slice_contains(existing_ports, port) {
        let mut msg = chars_of("Port ");
        let d = dec_chars(port as u64);
        extend(&mut msg, &d);
        extend_str(&mut msg, " is already used by another interface");
        return Err(string_of(&msg));
    }
    if is_port_in_use(port, listing) {
        let mut msg = chars_of("Port ");
        let d = dec_chars(port as u64);
        extend(&mut msg, &d);
        extend_str(&mut msg, " is already in use by another process");
        return Err(string_of(&msg));
    }
    Ok(port)
}

/// Records a created interface under its name; port suggestions continue
/// after its port.
pub fn register_interface(config: &mut MultiInterfaceConfig, interface: InterfaceConfig)
    requires
        interface.port < u16::MAX,
    ensures
        final(config).global_settings == old(config).global_settings,
        final(config).next_suggested_port == interface.port + 1,
        view_keys(final(config).interfaces@).contains(interface.name@),
        view_keys(old(config).interfaces@).contains(interface.name@) ==> exists|i: int|
            0 <= i < old(config).interfaces@.len() && old(config).interfaces@[i].0 == interface.name@
                && final(config).interfaces@ == old(config).interfaces@.update(
                i,
                (interface.name@, interface),
            ),
        !view_keys(old(config).interfaces@).contains(interface.name@) ==> final(config).interfaces@
            == old(config).interfaces@.push((interface.name@, interface)),
{
    let port = interface.port;
    let ghost name = interface.name@;
    let ghost iface = interface;
    let n = interface.name.clone();
    let prev = config.interfaces.insert(n, interface);
    proof {
        match prev {
            Some(_) => {
                let i = choose|i: int|
                    0 <= i < old(config).interfaces@.len() && old(config).interfaces@[i].0 == name
                        && config.interfaces@ == old(config).interfaces@.update(i, (name, iface));
                assert(config.interfaces@[i].0 == name);
                assert(view_keys(old(config).interfaces@)[i] == name);
                assert(view_keys(config.interfaces@)[i] == name);
            },
            None => {
                let last = config.interfaces@.len() - 1;
                assert(config.interfaces@[last].0 == name);
                assert(view_keys(config.interfaces@)[last] == name);
            },
        }
    }
    config.next_suggested_port = port + 1;
}

/// The configuration of the interface named `interface_name`, or the message
/// that there is none.
pub fn get_interface_config(config: &MultiInterfaceConfig, interface_name: &str) -> (r: Result<InterfaceConfig, String>)
    ensures
        r matches Ok(c) ==> exists|i: int|
            0 <= i < config.interfaces@.len() && config.interfaces@[i].0 == interface_name@
                && config.interfaces@[i].1 == c,
        r matches Err(e) ==> !view_keys(config.interfaces@).contains(interface_name@) && e@
            == "Interface "@ + interface_name@ + " not found"@,
{
    match config.interfaces.get(interface_name) {
        Some(c) => Ok(c.copy_of()),
        None => {
            let mut msg = chars_of("Interface ");
            extend_str(&mut msg, interface_name);
            extend_str(&mut msg, " not found");
            Err(string_of(&msg))
        },
    }
}

/// The menu line offered for an interface when adding a client.
pub open spec fn interface_option_spec(name: Seq<char>, i: InterfaceConfig, clients: nat, available: nat) -> Seq<char> {
    name + " ("@ + i.subnet@ + ") - Port: "@ + dec(i.port as nat) + " - Clients: "@ + dec(clients)
        + "/"@ + dec(available) + " available"@
}

/// The menu line for an interface with `client_count` clients in a subnet of
/// `subnet_size` addresses, two of which are the network and broadcast
/// addresses.
pub fn interface_option(name: &str, interface: &InterfaceConfig, client_count: usize, subnet_size: usize) -> (r: String)
    requires
        subnet_size >= 2 + client_count,
    ensures
        r@ == interface_option_spec(name@, *interface, client_count as nat, (subnet_size - 2 - client_count) as nat),
{
    let available = subnet_size - 2 - client_count;
    let mut out = chars_of(name);
    extend_str(&mut out, " (");
    extend_str(&mut out, interface.subnet.as_str());
    extend_str(&mut out, ") - Port: ");
    let t = dec_chars(interface.port as u64);
    extend(&mut out, &t);
    extend_str(&mut out, " - Clients: ");
    let t = dec_chars(client_count as u64);
    extend(&mut out, &t);
    extend_str(&mut out, "/");
    let t = dec_chars(available as u64);
    extend(&mut out, &t);
    extend_str(&mut out, " available");
    assert(out@ =~= interface_option_spec(name@, *interface, client_count as nat, available as nat));
    string_of(&out)
}

/// The names of the active interfaces, in table order.
pub open spec fn active_names(v: Seq<(Seq<char>, InterfaceConfig)>) -> Seq<Seq<char>>
    decreases v.len(),
{
    if v.len() == 0 {
        Seq::<Seq<char>>::empty()
    } else if v[0].1.active {
        seq![v[0].0] + active_names(v.drop_first())
    } else {
        active_names(v.drop_first())
    }
}

/// Which interface a new client goes to when no choice is needed: the
/// message for a table with no interfaces or no active one, the only active
/// interface when there is one, and `None` when the user must choose among
/// the active interfaces.
pub fn client_interface_choice(config: &MultiInterfaceConfig) -> (r: Result<Option<String>, String>)
    ensures
        config.interfaces@.len() == 0 ==> (r matches Err(e) && e@
            == "No interfaces configured. Please create an interface first."@),
        config.interfaces@.len() > 0 && active_names(config.interfaces@).len() == 0 ==> (r matches Err(e)
            && e@ == "No active interfaces available"@),
        config.interfaces@.len() > 0 && active_names(config.interfaces@).len() == 1 ==> (r matches Ok(Some(n))
            && n@ == active_names(config.interfaces@)[0]),
        config.interfaces@.len() > 0 && active_names(config.interfaces@).len() > 1 ==> (r matches Ok(None)),
{
    let ghost v = config.interfaces@;
    if config.interfaces.is_empty() {
        return Err(owned("No interfaces configured. Please create an interface first."));
    }
    let mut names: Vec<String> = Vec::new();
    let mut i: usize = 0;
    assert(v.skip(0) =~= v);
    assert(active_names(v) =~= crate::models::string_views(names@) + active_names(v.skip(0)));
    while i < config.interfaces.len()
        invariant
            i <= v.len(),
            v == config.interfaces@,
            active_names(v) == crate::models::string_views(names@) + active_names(v.skip(i as int)),
        decreases v.len() - i,
    {
        let (name, iface) = config.interfaces.entry(i);
        let ghost rest = v.skip(i as int);
        assert(rest[0] == v[i as int]);
        assert(rest.drop_first() =~= v.skip(i + 1));
        if iface.active {
            let ghost before = names@;
            names.push(name.clone());
            assert(crate::models::string_views(names@) =~= crate::models::string_views(before).push(
                name@,
            ));
            assert(crate::models::string_views(before) + (seq![name@] + active_names(v.skip(i + 1)))
                =~= crate::models::string_views(names@) + active_names(v.skip(i + 1)));
        }
        i += 1;
    }
    assert(v.skip(i as int) =~= Seq::<(Seq<char>, InterfaceConfig)>::empty());
    assert(active_names(v) =~= crate::models::string_views(names@));
    if names.len() == 0 {
        return Err(owned("No active interfaces available"));
    }
    if names.len() == 1 {
        assert(crate::models::string_views(names@)[0] == names@[0]@);
        return Ok(Some(names[0].clone()));
    }
    Ok(None)
}

/// The name suggested for a new interface is always accepted: a `wg<n>`
/// name that no interface has passes the name rules.
pub proof fn lemma_suggested_name_accepted(names: Seq<Seq<char>>, n: int)
    requires
        0 <= n,
        !names.contains(crate::models::wg_name(n)),
    ensures
        new_name_problem(names, crate::models::wg_name(n)) is None,
{
    reveal_strlit("wg");
    let w = crate::models::wg_name(n);
    assert(w.take(2) =~= "wg"@);
}

/// The port suggested for a new interface is accepted when entered as
/// suggested, provided it is not below 1024: a free port, written in
/// decimal, passes the port rules.
pub proof fn lemma_suggested_port_accepted(existing: Seq<u16>, listing: Seq<char>, p: u16)
    requires
        crate::network::port_free(existing, listing, p),
        p >= 1024,
    ensures
        port_problem(dec(p as nat), existing, listing) is None,
{
    crate::numtext::lemma_parse_dec(p as nat, 65535);
}

} // verus!
