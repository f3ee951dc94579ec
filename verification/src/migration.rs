//! Moving a single-interface installation to the multi-interface format: the
//! old parameters file, its reading, and the configuration built from it.

use vstd::prelude::*;
use crate::client::{lemma_lookup_prepend, lookup, missing_message, ShellVars};
use crate::install::{calculate_ipv4_network, network24_text};
use crate::ipv4::{parse_ipv4, parse_ipv4_chars, Ipv4};
use crate::models::{GlobalSettings, InstallAnswers, InterfaceConfig, MultiInterfaceConfig};
use crate::numtext::parse_unsigned;
use crate::text::{
    chars_of, extend, extend_str, lines, lines_of, owned, split_once, split_once_chars,
    starts_with, starts_with_str, string_of, trim, trim_chars, views,
};

verus! {

/// The parameters of a single-interface installation.
pub struct OldWireguardParams {
    pub server_pub_ip: Ipv4,
    pub server_pub_nic: String,
    pub server_wg_nic: String,
    pub server_wg_ipv4: Ipv4,
    pub server_port: u16,
    pub server_priv_key: String,
    pub server_pub_key: String,
    pub client_dns_1: Ipv4,
    pub client_dns_2: Ipv4,
    pub allowed_ips: String,
}

/// Migration is due when the old parameters file exists and the interfaces
/// file does not.
pub fn needs_migration(old_params_exists: bool, interfaces_file_exists: bool) -> (r: bool)
    ensures
        r == (old_params_exists && !interfaces_file_exists),
{
    old_params_exists && !interfaces_file_exists
}

// ---------------------------------------------------------------------------
// Reading the old parameters file
// ---------------------------------------------------------------------------

/// `s` without its leading occurrences of `c`.
pub open spec fn strip_start_char(s: Seq<char>, c: char) -> Seq<char>
    decreases s.len(),
{
    if s.len() > 0 && s[0] == c {
        strip_start_char(s.drop_first(), c)
    } else {
        s
    }
}

/// `s` without its trailing occurrences of `c`.
pub open spec fn strip_end_char(s: Seq<char>, c: char) -> Seq<char>
    decreases s.len(),
{
    if s.len() > 0 && s.last() == c {
        strip_end_char(s.drop_last(), c)
    } else {
        s
    }
}

/// `str::trim_matches` with a character: every leading and trailing `c` removed.
pub open spec fn trim_matches(s: Seq<char>, c: char) -> Seq<char> {
    strip_end_char(strip_start_char(s, c), c)
}

/// The value of an old parameter line: trimmed, then without surrounding
/// double quotes, then without surrounding single quotes.
pub open spec fn old_value(v: Seq<char>) -> Seq<char> {
    trim_matches(trim_matches(trim(v), '"'), '\'')
}

/// One line of the old parameters file: the assignment it makes, if any.
/// Blank lines, comments and lines without `=` make none.
pub open spec fn old_param_line(l: Seq<char>) -> Option<(Seq<char>, Seq<char>)> {
    let t = trim(l);
    if t.len() == 0 || starts_with(t, "#"@) {
        None
    } else {
        match split_once(t, "="@) {
            Some(kv) => Some((trim(kv.0), old_value(kv.1))),
            None => None,
        }
    }
}

/// The assignments that the given lines make, in order.
pub open spec fn old_param_entries(ls: Seq<Seq<char>>) -> Seq<(Seq<char>, Seq<char>)>
    decreases ls.len(),
{
    if ls.len() == 0 {
        Seq::<(Seq<char>, Seq<char>)>::empty()
    } else {
        match old_param_line(ls[0]) {
            Some(kv) => seq![kv] + old_param_entries(ls.drop_first()),
            None => old_param_entries(ls.drop_first()),
        }
    }
}

/// `trim_matches` on characters.
fn trim_matches_chars(v: &Vec<char>, c: char) -> (r: Vec<char>)
    ensures
        r@ == trim_matches(v@, c),
{
    let mut lo: usize = 0;
    assert(v@.skip(0) =~= v@);
    while lo < v.len() && v[lo] == c
        invariant
            lo <= v.len(),
            strip_start_char(v@, c) == strip_start_char(v@.skip(lo as int), c),
        decreases v.len() - lo,
    {
        assert(v@.skip(lo as int).drop_first() =~= v@.skip(lo + 1));
        lo += 1;
    }
    let mut hi: usize = v.len();
    let ghost s = v@.skip(lo as int);
    assert(strip_start_char(v@, c) == s);
    assert(s.take(s.len() as int) =~= s);
    while hi > lo && v[hi - 1] == c
        invariant
            lo <= hi <= v.len(),
            s == v@.skip(lo as int),
            strip_end_char(s, c) == strip_end_char(v@.subrange(lo as int, hi as int), c),
        decreases hi,
    {
        assert(v@.subrange(lo as int, hi as int).drop_last() =~= v@.subrange(lo as int, hi - 1));
        hi -= 1;
    }
    crate::text::slice_of(v, lo, hi)
}

/// The assignments of the old parameters file, in the order its lines make
/// them; a later assignment to a name replaces an earlier one.
pub fn parse_old_params(content: &str) -> (r: ShellVars)
    ensures
        r@ == old_param_entries(lines(content@)),
{
    let v = chars_of(content);
    let ls = lines_of(&v);
    let ghost all = lines(content@);
    let mut vars = ShellVars::new();
    let mut i: usize = 0;
    assert(all.skip(0) =~= all);
    assert(vars@ + old_param_entries(all) =~= old_param_entries(all));
    while i < ls.len()
        invariant
            i <= ls.len(),
            views(ls@) == all,
            old_param_entries(all) == vars@ + old_param_entries(all.skip(i as int)),
        decreases ls.len() - i,
    {
        let ghost rest = all.skip(i as int);
        assert(rest[0] == ls@[i as int]@);
        assert(rest.drop_first() =~= all.skip(i + 1));
        let line = trim_chars(&ls[i]);
        if line.len() == 0 || starts_with_str(&line, "#") {
        } else {
            let eq = chars_of("=");
            match split_once_chars(&line, &eq) {
                Some((k, val)) => {
                    let key = trim_chars(&k);
                    let t = trim_chars(&val);
                    let t = trim_matches_chars(&t, '"');
                    let value = trim_matches_chars(&t, '\'');
                    let ghost before = vars@;
                    vars.insert(string_of(&key), string_of(&value));
                    assert(before + (seq![(key@, value@)] + old_param_entries(all.skip(i + 1)))
                        =~= vars@ + old_param_entries(all.skip(i + 1)));
                },
                None => {},
            }
        }
        i += 1;
    }
    assert(all.skip(i as int) =~= Seq::<Seq<char>>::empty());
    assert(vars@ + Seq::<(Seq<char>, Seq<char>)>::empty() =~= vars@);
    vars
}

/// A required parameter's text, or the message that it is missing.
pub open spec fn param_text(a: Seq<(Seq<char>, Seq<char>)>, k: Seq<char>) -> Result<Seq<char>, Seq<char>> {
    match lookup(a, k) {
        Some(v) => Ok(v),
        None => Err(missing_message(k)),
    }
}

/// A required parameter read as an address.
pub open spec fn ip_param(a: Seq<(Seq<char>, Seq<char>)>, k: Seq<char>) -> Result<Ipv4, Seq<char>> {
    match lookup(a, k) {
        None => Err(missing_message(k)),
        Some(v) => match parse_ipv4(v) {
            Some(ip) => Ok(ip),
            None => Err("Invalid IP address for "@ + k + ": "@ + v),
        },
    }
}

/// A required parameter read as a port number.
pub open spec fn port_param(a: Seq<(Seq<char>, Seq<char>)>, k: Seq<char>) -> Result<int, Seq<char>> {
    match lookup(a, k) {
        None => Err(missing_message(k)),
        Some(v) => match parse_unsigned(v, 65535) {
            Some(n) => Ok(n),
            None => Err("Invalid port number for "@ + k + ": "@ + v),
        },
    }
}

/// A required parameter.
pub fn get_param(vars: &ShellVars, key: &str) -> (r: Result<String, String>)
    ensures
        r matches Ok(v) ==> param_text(vars@, key@) == Ok::<Seq<char>, Seq<char>>(v@),
        r matches Err(e) ==> param_text(vars@, key@) == Err::<Seq<char>, Seq<char>>(e@),
{
    match vars.get(key) {
        Some(v) => Ok(v),
        None => {
            let mut msg = chars_of("Missing required parameter: ");
            extend_str(&mut msg, key);
            Err(string_of(&msg))
        },
    }
}

/// A required parameter read as an address.
pub fn parse_ip(vars: &ShellVars, key: &str) -> (r: Result<Ipv4, String>)
    ensures
        r matches Ok(ip) ==> ip_param(vars@, key@) == Ok::<Ipv4, Seq<char>>(ip),
        r matches Err(e) ==> ip_param(vars@, key@) == Err::<Ipv4, Seq<char>>(e@),
{
    let value = get_param(vars, key)?;
    let c = chars_of(value.as_str());
    match parse_ipv4_chars(&c) {
        Some(ip) => Ok(ip),
        None => {
            let mut msg = chars_of("Invalid IP address for ");
            extend_str(&mut msg, key);
            extend_str(&mut msg, ": ");
            extend(&mut msg, &c);
            Err(string_of(&msg))
        },
    }
}

/// A required parameter read as a port number.
pub fn parse_port(vars: &ShellVars, key: &str) -> (r: Result<u16, String>)
    ensures
        r matches Ok(p) ==> port_param(vars@, key@) == Ok::<int, Seq<char>>(p as int),
        r matches Err(e) ==> port_param(vars@, key@) == Err::<int, Seq<char>>(e@),
{
    let value = get_param(vars, key)?;
    let c = chars_of(value.as_str());
    match crate::numtext::parse_unsigned_chars(&c, 65535) {
        Some(n) => Ok(n as u16),
        None => {
            let mut msg = chars_of("Invalid port number for ");
            extend_str(&mut msg, key);
            extend_str(&mut msg, ": ");
            extend(&mut msg, &c);
            Err(string_of(&msg))
        },
    }
}

/// The error message of a failed read, if it failed.
pub open spec fn failure<T>(r: Result<T, Seq<char>>) -> Option<Seq<char>> {
    match r {
        Ok(_) => None,
        Err(e) => Some(e),
    }
}

/// The first problem with the old parameters, in the order in which
/// `read_old_params` reads them.
pub open spec fn old_params_problem(a: Seq<(Seq<char>, Seq<char>)>) -> Option<Seq<char>> {
    if failure(ip_param(a, "SERVER_PUB_IP"@)) is Some {
        failure(ip_param(a, "SERVER_PUB_IP"@))
    } else if failure(param_text(a, "SERVER_PUB_NIC"@)) is Some {
        failure(param_text(a, "SERVER_PUB_NIC"@))
    } else if failure(param_text(a, "SERVER_WG_NIC"@)) is Some {
        failure(param_text(a, "SERVER_WG_NIC"@))
    } else if failure(ip_param(a, "SERVER_WG_IPV4"@)) is Some {
        failure(ip_param(a, "SERVER_WG_IPV4"@))
    } else if failure(port_param(a, "SERVER_PORT"@)) is Some {
        failure(port_param(a, "SERVER_PORT"@))
    } else if failure(param_text(a, "SERVER_PRIV_KEY"@)) is Some {
        failure(param_text(a, "SERVER_PRIV_KEY"@))
    } else if failure(param_text(a, "SERVER_PUB_KEY"@)) is Some {
        failure(param_text(a, "SERVER_PUB_KEY"@))
    } else if failure(ip_param(a, "CLIENT_DNS_1"@)) is Some {
        failure(ip_param(a, "CLIENT_DNS_1"@))
    } else {
        failure(ip_param(a, "CLIENT_DNS_2"@))
    }
}

/// The allowed IPs of the old parameters, `0.0.0.0/0` when not given.
pub open spec fn old_allowed_ips(a: Seq<(Seq<char>, Seq<char>)>) -> Seq<char> {
    match lookup(a, "ALLOWED_IPS"@) {
        Some(v) => v,
        None => "0.0.0.0/0"@,
    }
}

/// The old parameters read from the assignments `a`.
pub open spec fn old_params_match(p: OldWireguardParams, a: Seq<(Seq<char>, Seq<char>)>) -> bool {
    &&& ip_param(a, "SERVER_PUB_IP"@) == Ok::<Ipv4, Seq<char>>(p.server_pub_ip)
    &&& param_text(a, "SERVER_PUB_NIC"@) == Ok::<Seq<char>, Seq<char>>(p.server_pub_nic@)
    &&& param_text(a, "SERVER_WG_NIC"@) == Ok::<Seq<char>, Seq<char>>(p.server_wg_nic@)
    &&& ip_param(a, "SERVER_WG_IPV4"@) == Ok::<Ipv4, Seq<char>>(p.server_wg_ipv4)
    &&& port_param(a, "SERVER_PORT"@) == Ok::<int, Seq<char>>(p.server_port as int)
    &&& param_text(a, "SERVER_PRIV_KEY"@) == Ok::<Seq<char>, Seq<char>>(p.server_priv_key@)
    &&& param_text(a, "SERVER_PUB_KEY"@) == Ok::<Seq<char>, Seq<char>>(p.server_pub_key@)
    &&& ip_param(a, "CLIENT_DNS_1"@) == Ok::<Ipv4, Seq<char>>(p.client_dns_1)
    &&& ip_param(a, "CLIENT_DNS_2"@) == Ok::<Ipv4, Seq<char>>(p.client_dns_2)
    &&& p.allowed_ips@ == old_allowed_ips(a)
}

/// The value that the last of the old parameter lines assigning `k` gives
/// it, trimmed and without surrounding quotes, if any line does.
pub open spec fn old_last_assigned(ls: Seq<Seq<char>>, k: Seq<char>) -> Option<Seq<char>>
    decreases ls.len(),
{
    if ls.len() == 0 {
        None
    } else {
        match old_last_assigned(ls.drop_first(), k) {
            Some(v) => Some(v),
            None => match old_param_line(ls[0]) {
                Some(kv) => if kv.0 == k {
                    Some(kv.1)
                } else {
                    None
                },
                None => None,
            },
        }
    }
}

/// Each old parameter has the value of the last line that assigns it,
/// trimmed and stripped of surrounding double and then single quotes; lines
/// that are blank, comments or without `=` assign nothing.
pub proof fn lemma_old_params_last_line_wins(ls: Seq<Seq<char>>, k: Seq<char>)
    ensures
        lookup(old_param_entries(ls), k) == old_last_assigned(ls, k),
    decreases ls.len(),
{
    if ls.len() > 0 {
        lemma_old_params_last_line_wins(ls.drop_first(), k);
        match old_param_line(ls[0]) {
            Some(kv) => {
                lemma_lookup_prepend(kv, old_param_entries(ls.drop_first()), k);
            },
            None => {},
        }
    }
}

/// The name of the `j`-th required old parameter, in the order in which
/// `read_old_params` reads them.
pub open spec fn old_param_key(j: int) -> Seq<char> {
    if j == 0 {
        "SERVER_PUB_IP"@
    } else if j == 1 {
        "SERVER_PUB_NIC"@
    } else if j == 2 {
        "SERVER_WG_NIC"@
    } else if j == 3 {
        "SERVER_WG_IPV4"@
    } else if j == 4 {
        "SERVER_PORT"@
    } else if j == 5 {
        "SERVER_PRIV_KEY"@
    } else if j == 6 {
        "SERVER_PUB_KEY"@
    } else if j == 7 {
        "CLIENT_DNS_1"@
    } else {
        "CLIENT_DNS_2"@
    }
}

/// What is wrong with the `j`-th required old parameter taken alone: it is
/// missing, or its value does not read as the address or port it holds.
pub open spec fn old_param_failure(a: Seq<(Seq<char>, Seq<char>)>, j: int) -> Option<Seq<char>> {
    let k = old_param_key(j);
    if j == 0 || j == 3 || j == 7 || j == 8 {
        failure(ip_param(a, k))
    } else if j == 4 {
        failure(port_param(a, k))
    } else {
        failure(param_text(a, k))
    }
}

/// The old parameters are read exactly when every required one is present
/// and readable (`ALLOWED_IPS` is optional).
pub proof fn lemma_old_params_read_when_complete(a: Seq<(Seq<char>, Seq<char>)>)
    ensures
        old_params_problem(a) is None <==> forall|j: int|
            0 <= j < 9 ==> #[trigger] old_param_failure(a, j) is None,
{
    if forall|j: int| 0 <= j < 9 ==> #[trigger] old_param_failure(a, j) is None {
        assert(old_param_failure(a, 0) is None && old_param_failure(a, 1) is None
            && old_param_failure(a, 2) is None && old_param_failure(a, 3) is None
            && old_param_failure(a, 4) is None && old_param_failure(a, 5) is None
            && old_param_failure(a, 6) is None && old_param_failure(a, 7) is None
            && old_param_failure(a, 8) is None);
    }
    if old_params_problem(a) is None {
        assert forall|j: int| 0 <= j < 9 implies #[trigger] old_param_failure(a, j) is None by {
            if j == 0 {
            } else if j == 1 {
            } else if j == 2 {
            } else if j == 3 {
            } else if j == 4 {
            } else if j == 5 {
            } else if j == 6 {
            } else if j == 7 {
            } else {
            }
        }
    }
}

/// When the old parameters are refused, the message is that of the first
/// required parameter, in reading order, that is missing or unreadable; a
/// missing one is reported as `Missing required parameter: ` and its name.
pub proof fn lemma_old_params_first_failure(a: Seq<(Seq<char>, Seq<char>)>, j: int)
    requires
        0 <= j < 9,
        old_param_failure(a, j) is Some,
        forall|i: int| 0 <= i < j ==> #[trigger] old_param_failure(a, i) is None,
    ensures
        old_params_problem(a) == old_param_failure(a, j),
        lookup(a, old_param_key(j)) is None ==> old_params_problem(a) == Some(
            missing_message(old_param_key(j)),
        ),
{
    assert(j > 0 ==> old_param_failure(a, 0) is None);
    assert(j > 1 ==> old_param_failure(a, 1) is None);
    assert(j > 2 ==> old_param_failure(a, 2) is None);
    assert(j > 3 ==> old_param_failure(a, 3) is None);
    assert(j > 4 ==> old_param_failure(a, 4) is None);
    assert(j > 5 ==> old_param_failure(a, 5) is None);
    assert(j > 6 ==> old_param_failure(a, 6) is None);
    assert(j > 7 ==> old_param_failure(a, 7) is None);
}

/// The old parameters held by the text of the old parameters file, or the
/// message for the first one that is missing or unreadable.
pub fn read_old_params(content: &str) -> (r: Result<OldWireguardParams, String>)
    ensures
        r matches Ok(p) ==> old_params_problem(old_param_entries(lines(content@))) is None
            && old_params_match(p, old_param_entries(lines(content@))),
        r matches Err(e) ==> old_params_problem(old_param_entries(lines(content@))) == Some(e@),
{
    let params = parse_old_params(content);
    let server_pub_ip = parse_ip(&params, "SERVER_PUB_IP")?;
    let server_pub_nic = get_param(&params, "SERVER_PUB_NIC")?;
    let server_wg_nic = get_param(&params, "SERVER_WG_NIC")?;
    let server_wg_ipv4 = parse_ip(&params, "SERVER_WG_IPV4")?;
    let server_port = parse_port(&params, "SERVER_PORT")?;
    let server_priv_key = get_param(&params, "SERVER_PRIV_KEY")?;
    let server_pub_key = get_param(&params, "SERVER_PUB_KEY")?;
    let client_dns_1 = parse_ip(&params, "CLIENT_DNS_1")?;
    let client_dns_2 = parse_ip(&params, "CLIENT_DNS_2")?;
    let allowed_ips = match params.get("ALLOWED_IPS") {
        Some(v) => v,
        None => owned("0.0.0.0/0"),
    };
    Ok(
        OldWireguardParams {
            server_pub_ip,
            server_pub_nic,
            server_wg_nic,
            server_wg_ipv4,
            server_port,
            server_priv_key,
            server_pub_key,
            client_dns_1,
            client_dns_2,
            allowed_ips,
        },
    )
}

// ---------------------------------------------------------------------------
// The migrated configuration
// ---------------------------------------------------------------------------

/// The /24 subnet of an address, as text (`10.19.11.1` gives `10.19.11.0/24`).
pub fn determine_subnet_from_ip(server_ip: &Ipv4) -> (r: String)
    ensures
        r@ == network24_text(*server_ip) + "/24"@,
{
    let net = calculate_ipv4_network(server_ip);
    let mut out = chars_of(net.as_str());
    extend_str(&mut out, "/24");
    string_of(&out)
}

/// The multi-interface configuration that replaces an old installation: its
/// global settings, its one interface with the /24 subnet of the server
/// address, marked `migrated`; port suggestions continue after its port.
pub fn migrated_config(old: &OldWireguardParams) -> (r: MultiInterfaceConfig)
    requires
        old.server_port < u16::MAX,
    ensures
        r.global_settings.server_pub_ip == old.server_pub_ip,
        r.global_settings.server_pub_nic@ == old.server_pub_nic@,
        r.global_settings.dns_servers@ == seq![old.client_dns_1, old.client_dns_2],
        r.global_settings.allowed_ips@ == old.allowed_ips@,
        r.next_suggested_port == old.server_port + 1,
        r.interfaces@.len() == 1,
        r.interfaces@[0].0 == old.server_wg_nic@,
        r.interfaces@[0].1.name@ == old.server_wg_nic@,
        r.interfaces@[0].1.subnet@ == network24_text(old.server_wg_ipv4) + "/24"@,
        r.interfaces@[0].1.server_ip == old.server_wg_ipv4,
        r.interfaces@[0].1.port == old.server_port,
        r.interfaces@[0].1.private_key@ == old.server_priv_key@,
        r.interfaces@[0].1.public_key@ == old.server_pub_key@,
        r.interfaces@[0].1.created_at@ == "migrated"@,
        r.interfaces@[0].1.active,
{
    let mut config = MultiInterfaceConfig::new();
    let mut dns: Vec<Ipv4> = Vec::new();
    dns.push(old.client_dns_1);
    dns.push(old.client_dns_2);
    assert(dns@ =~= seq![old.client_dns_1, old.client_dns_2]);
    config.global_settings = GlobalSettings {
        server_pub_ip: old.server_pub_ip,
        server_pub_nic: old.server_pub_nic.clone(),
        dns_servers: dns,
        allowed_ips: old.allowed_ips.clone(),
    };
    let subnet = determine_subnet_from_ip(&old.server_wg_ipv4);
    let iface = InterfaceConfig {
        name: old.server_wg_nic.clone(),
        subnet,
        server_ip: old.server_wg_ipv4,
        port: old.server_port,
        private_key: old.server_priv_key.clone(),
        public_key: old.server_pub_key.clone(),
        created_at: owned("migrated"),
        active: true,
    };
    let _ = config.interfaces.insert(old.server_wg_nic.clone(), iface);
    config.next_suggested_port = old.server_port + 1;
    config
}

// ---------------------------------------------------------------------------
// Installation's parameters file migrates to the same settings
// ---------------------------------------------------------------------------

/// A value that quoting rules leave alone: it neither starts nor ends with a
/// double or single quote.
pub open spec fn quote_free(v: Seq<char>) -> bool {
    v.len() > 0 ==> v[0] != '"' && v[0] != '\'' && v.last() != '"' && v.last() != '\''
}

/// A clean, quote-free value is its own old-style value.
proof fn lemma_old_value_fixed(v: Seq<char>)
    requires
        trim(v) == v,
        quote_free(v),
    ensures
        old_value(v) == v,
{
    assert(strip_start_char(v, '"') == v);
    assert(strip_end_char(v, '"') == v);
    assert(strip_start_char(v, '\'') == v);
    assert(strip_end_char(v, '\'') == v);
}

/// Parameter lines read as old parameter lines give the same assignments.
proof fn lemma_old_entries_of_params(e: Seq<(Seq<char>, Seq<char>)>)
    requires
        forall|i: int|
            0 <= i < e.len() ==> crate::install::key_ok(#[trigger] e[i].0) && crate::install::clean_value(
                e[i].1,
            ) && quote_free(e[i].1),
    ensures
        old_param_entries(e.map_values(|p: (Seq<char>, Seq<char>)| crate::install::param_line(p.0, p.1)))
            == e,
    decreases e.len(),
{
    let ls = e.map_values(|p: (Seq<char>, Seq<char>)| crate::install::param_line(p.0, p.1));
    if e.len() > 0 {
        let d = e.drop_first();
        assert forall|i: int| 0 <= i < d.len() implies crate::install::key_ok(#[trigger] d[i].0)
            && crate::install::clean_value(d[i].1) && quote_free(d[i].1) by {
            assert(d[i] == e[i + 1]);
        }
        lemma_old_entries_of_params(d);
        assert(ls.drop_first() =~= d.map_values(
            |p: (Seq<char>, Seq<char>)| crate::install::param_line(p.0, p.1),
        ));
        crate::install::lemma_param_line_reads_back(e[0].0, e[0].1);
        lemma_old_value_fixed(e[0].1);
        assert(ls[0] == crate::install::param_line(e[0].0, e[0].1));
        assert(old_param_line(ls[0]) == Some(e[0]));
        assert(seq![e[0]] + d =~= e);
    } else {
        assert(ls =~= Seq::<Seq<char>>::empty());
        assert(e =~= Seq::<(Seq<char>, Seq<char>)>::empty());
    }
}

/// The answers that the parameters file carries unchanged through the old
/// reading: clean values that do not start or end with a quote.
pub open spec fn migratable(a: InstallAnswers) -> bool {
    &&& crate::install::clean_value(a.server_public_nic@) && quote_free(a.server_public_nic@)
    &&& crate::install::clean_value(a.server_wg_nic@) && quote_free(a.server_wg_nic@)
    &&& crate::install::clean_value(a.server_priv_key@) && quote_free(a.server_priv_key@)
    &&& crate::install::clean_value(a.server_pub_key@) && quote_free(a.server_pub_key@)
    &&& crate::install::clean_value(a.allowed_ips@) && quote_free(a.allowed_ips@)
    &&& a.server_pub_ipv6 matches Some(v) ==> crate::install::clean_value(v@) && quote_free(v@)
}

/// Dotted-decimal text neither starts nor ends with a quote.
proof fn lemma_dotted_quote_free(ip: Ipv4)
    ensures
        quote_free(crate::ipv4::dotted(ip)),
{
    crate::numtext::lemma_dec(ip.a as nat);
    crate::numtext::lemma_dec(ip.d as nat);
    crate::ipv4::lemma_dec_no_dot(ip.a as nat);
    assert(crate::ipv4::dotted(ip)[0] == crate::numtext::dec(ip.a as nat)[0]);
    assert(crate::ipv4::dotted(ip).last() == crate::numtext::dec(ip.d as nat).last());
}

/// The old reading of installation's parameters file gives back the
/// parameter entries.
#[verifier::spinoff_prover]
proof fn lemma_install_params_entries(a: InstallAnswers)
    requires
        migratable(a),
    ensures
        old_param_entries(lines(crate::install::params_file_spec(a))) == crate::install::param_entries(a),
{
    let e = crate::install::param_entries(a);
    crate::install::lemma_param_keys(a);
    crate::install::lemma_numbers_clean(a.server_pub_ip, a.server_wg_port as nat);
    crate::install::lemma_numbers_clean(a.server_wg_ip, a.server_wg_port as nat);
    crate::install::lemma_numbers_clean(a.client_dns_1, a.server_wg_port as nat);
    crate::install::lemma_numbers_clean(a.client_dns_2, a.server_wg_port as nat);
    crate::numtext::lemma_dec(a.server_wg_port as nat);
    lemma_dotted_quote_free(a.server_pub_ip);
    lemma_dotted_quote_free(a.server_wg_ip);
    lemma_dotted_quote_free(a.client_dns_1);
    lemma_dotted_quote_free(a.client_dns_2);
    assert(crate::install::clean_value(e[4].1) && quote_free(e[4].1)) by {
        if a.server_pub_ipv6 is None {
            assert(e[4].1 =~= Seq::<char>::empty());
            assert(crate::client::unbrace(Seq::<char>::empty()) == Seq::<char>::empty());
        }
    }
    assert forall|i: int| 0 <= i < e.len() implies crate::install::key_ok(#[trigger] e[i].0)
        && crate::install::clean_value(e[i].1) && quote_free(e[i].1) by {
    }
    crate::install::lemma_lines_of_params(e);
    lemma_old_entries_of_params(e);
}

/// What installation writes to the parameters file migrates to the same
/// settings: read as an old parameters file, it gives the answers' public
/// address and interface, WireGuard interface and address, port, keys, DNS
/// servers and allowed IPs. The free-text answers are clean values that do
/// not start or end with a quote.
#[verifier::spinoff_prover]
pub proof fn lemma_install_params_migrate(a: InstallAnswers)
    requires
        migratable(a),
    ensures
        old_params_problem(old_param_entries(lines(crate::install::params_file_spec(a)))) is None,
        forall|p: OldWireguardParams|
            old_params_match(p, old_param_entries(lines(crate::install::params_file_spec(a)))) ==> {
                &&& p.server_pub_ip == a.server_pub_ip
                &&& p.server_pub_nic@ == a.server_public_nic@
                &&& p.server_wg_nic@ == a.server_wg_nic@
                &&& p.server_wg_ipv4 == a.server_wg_ip
                &&& p.server_port == a.server_wg_port
                &&& p.server_priv_key@ == a.server_priv_key@
                &&& p.server_pub_key@ == a.server_pub_key@
                &&& p.client_dns_1 == a.client_dns_1
                &&& p.client_dns_2 == a.client_dns_2
                &&& p.allowed_ips@ == a.allowed_ips@
            },
{
    lemma_install_params_entries(a);
    crate::install::lemma_param_lookups(a);
    crate::ipv4::lemma_parse_dotted(a.server_pub_ip);
    crate::ipv4::lemma_parse_dotted(a.server_wg_ip);
    crate::ipv4::lemma_parse_dotted(a.client_dns_1);
    crate::ipv4::lemma_parse_dotted(a.client_dns_2);
    crate::numtext::lemma_parse_dec(a.server_wg_port as nat, 65535);
}

} // verus!
