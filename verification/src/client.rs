//! Client management: the server parameters file, client names and
//! addresses, the client and peer configuration text, and the client blocks
//! of the server configuration.

use vstd::prelude::*;
use crate::ipv4::{dotted, parse_ipv4, parse_ipv4_chars, Ipv4};
use crate::numtext::{dec, dec_chars, parse_error_text, parse_unsigned, parse_unsigned_detailed};
use crate::outside::{client_header_rest, is_name_char, regex_first_group, regex_is_match};
use crate::text::{
    chars_eq, chars_of, contains, contains_chars, ends_with, extend, extend_str, lines, lines_of,
    option_text, owned, slice_of, split_once, split_once_chars, starts_with, starts_with_str,
    string_of, trim, trim_chars, views, lemma_lines_join, lemma_lines_last, lemma_lines_step, is_ws,
};

verus! {

// ---------------------------------------------------------------------------
// The parameters file
// ---------------------------------------------------------------------------

/// Server configuration read from the parameters file.
pub struct WireguardParams {
    pub server_pub_nic: String,
    pub server_wg_nic: String,
    pub server_wg_ipv4: Ipv4,
    pub server_wg_ipv6: Option<String>,
    pub server_port: u16,
    pub server_priv_key: String,
    pub server_pub_key: String,
    pub client_dns_1: Ipv4,
    pub client_dns_2: Ipv4,
    pub allowed_ips: String,
}

/// A value written `${NAME}` stands for `NAME`.
pub open spec fn unbrace(v: Seq<char>) -> Seq<char> {
    if starts_with(v, "${"@) && ends_with(v, "}"@) && v.len() >= 3 {
        v.subrange(2, v.len() - 1)
    } else {
        v
    }
}

/// One line of the parameters file: `Some(None)` for a blank line or a
/// comment, `Some(Some((key, value)))` for `KEY=VALUE`, `None` otherwise.
pub open spec fn shell_line(l: Seq<char>) -> Option<Option<(Seq<char>, Seq<char>)>> {
    let t = trim(l);
    if t.len() == 0 || starts_with(t, "#"@) {
        Some(None)
    } else {
        match split_once(t, "="@) {
            Some(kv) => Some(Some((trim(kv.0), unbrace(trim(kv.1))))),
            None => None,
        }
    }
}

/// The message for a line that is not `KEY=VALUE`.
pub open spec fn bad_line_message(num: int, l: Seq<char>) -> Seq<char> {
    "Invalid format at line "@ + dec(num as nat) + ": "@ + trim(l)
}

/// The assignments of the given lines, the first of them numbered
/// `first_num`, or the message for the first line that is not understood.
pub open spec fn shell_assignments(ls: Seq<Seq<char>>, first_num: int) -> Result<
    Seq<(Seq<char>, Seq<char>)>,
    Seq<char>,
>
    decreases ls.len(),
{
    if ls.len() == 0 {
        Ok(seq![])
    } else {
        match shell_line(ls[0]) {
            None => Err(bad_line_message(first_num, ls[0])),
            Some(None) => shell_assignments(ls.drop_first(), first_num + 1),
            Some(Some(kv)) => prepend(seq![kv], shell_assignments(ls.drop_first(), first_num + 1)),
        }
    }
}

/// Puts `a` before the assignments of an outcome.
pub open spec fn prepend(
    a: Seq<(Seq<char>, Seq<char>)>,
    r: Result<Seq<(Seq<char>, Seq<char>)>, Seq<char>>,
) -> Result<Seq<(Seq<char>, Seq<char>)>, Seq<char>> {
    match r {
        Ok(x) => Ok(a + x),
        Err(e) => Err(e),
    }
}

/// The value of the last assignment to `k`.
pub open spec fn lookup(a: Seq<(Seq<char>, Seq<char>)>, k: Seq<char>) -> Option<Seq<char>>
    decreases a.len(),
{
    if a.len() == 0 {
        None
    } else if a.last().0 == k {
        Some(a.last().1)
    } else {
        lookup(a.drop_last(), k)
    }
}

/// Variables read from a parameters file. A later assignment to a name
/// replaces an earlier one.
pub struct ShellVars {
    assignments: Vec<(String, String)>,
}

impl View for ShellVars {
    type V = Seq<(Seq<char>, Seq<char>)>;

    closed spec fn view(&self) -> Seq<(Seq<char>, Seq<char>)> {
        self.assignments@.map_values(|p: (String, String)| (p.0@, p.1@))
    }
}

impl ShellVars {
    /// No variables.
    pub fn new() -> (r: ShellVars)
        ensures
            r@ == Seq::<(Seq<char>, Seq<char>)>::empty(),
    {
        let r = ShellVars { assignments: Vec::new() };
        assert(r@ =~= Seq::<(Seq<char>, Seq<char>)>::empty());
        r
    }

    /// Assigns `value` to `key`.
    pub fn insert(&mut self, key: String, value: String)
        ensures
            final(self)@ == old(self)@.push((key@, value@)),
    {
        let ghost before = self@;
        self.assignments.push((key, value));
        assert(self@ =~= before.push((key@, value@)));
    }

    /// The value last assigned to `key`.
    pub fn get(&self, key: &str) -> (r: Option<String>)
        ensures
            option_text(r) == lookup(self@, key@),
    {
        let k = chars_of(key);
        let mut i: usize = self.assignments.len();
        assert(self@.take(i as int) =~= self@);
        while i > 0
            invariant
                i <= self.assignments.len(),
                k@ == key@,
                self@.len() == self.assignments@.len(),
                lookup(self@, key@) == lookup(self@.take(i as int), key@),
            decreases i,
        {
            let name = chars_of(self.assignments[i - 1].0.as_str());
            let ghost t = self@.take(i as int);
            assert(t.last() == self@[i - 1]);
            assert(self@[i - 1] == (self.assignments@[i - 1].0@, self.assignments@[i - 1].1@));
            assert(t.drop_last() =~= self@.take(i - 1));
            if chars_eq(&name, &k) {
                let v = self.assignments[i - 1].1.clone();
                assert(t.len() > 0);
                assert(name@ == k@);
                assert(name@ == self.assignments@[i - 1].0@);
                assert(t.last() == self@[i - 1]);
                assert(t.last().0 == key@);
                assert(lookup(t, key@) == Some(t.last().1));
                return Some(v);
            }
            assert(name@ == self.assignments@[i - 1].0@);
            assert(t.last().0 != key@);
            assert(lookup(t, key@) == lookup(t.drop_last(), key@));
            i -= 1;
        }
        None
    }
}

/// Reads `KEY=VALUE` lines; blank lines and `#` comments are skipped, a value
/// `${NAME}` stands for `NAME`, and any other line is an error naming its
/// number.
pub fn parse_shell_vars(content: &str) -> (r: Result<ShellVars, String>)
    ensures
        r matches Ok(v) ==> shell_assignments(lines(content@), 1) == Ok::<
            Seq<(Seq<char>, Seq<char>)>,
            Seq<char>,
        >(v@),
        r matches Err(e) ==> shell_assignments(lines(content@), 1) == Err::<
            Seq<(Seq<char>, Seq<char>)>,
            Seq<char>,
        >(e@),
{
    let v = chars_of(content);
    let ls = lines_of(&v);
    let ghost all = lines(content@);
    let mut vars = ShellVars::new();
    let mut i: usize = 0;
    assert(all.skip(0) =~= all);
    assert(prepend(vars@, shell_assignments(all, 1)) =~= shell_assignments(all, 1)) by {
        match shell_assignments(all, 1) {
            Ok(x) => {
                assert(vars@ + x =~= x);
            },
            Err(_) => {},
        }
    }
    while i < ls.len()
        invariant
            i <= ls.len(),
            views(ls@) == all,
            all == lines(content@),
            shell_assignments(all, 1) == prepend(vars@, shell_assignments(all.skip(i as int), i + 1)),
        decreases ls.len() - i,
    {
        let line = trim_chars(&ls[i]);
        let ghost rest = all.skip(i as int);
        assert(rest[0] == ls@[i as int]@);
        assert(rest.drop_first() =~= all.skip(i + 1));
        let hash = chars_of("#");
        let eq = chars_of("=");
        if line.len() == 0 || starts_with_str(&line, "#") {
            // a blank line or a comment
        } else {
            match split_once_chars(&line, &eq) {
                Some((k, val)) => {
                    let key = trim_chars(&k);
                    let value = trim_chars(&val);
                    let n = value.len();
                    let processed = if starts_with_str(&value, "${") && crate::text::ends_with_chars(
                        &value,
                        &chars_of("}"),
                    ) && n >= 3 {
                        slice_of(&value, 2, n - 1)
                    } else {
                        value
                    };
                    let ghost before = vars@;
                    vars.insert(string_of(&key), string_of(&processed));
                    proof {
                        match shell_assignments(all.skip(i + 1), i + 2) {
                            Ok(x) => {
                                assert(before + (seq![(key@, processed@)] + x) =~= vars@ + x);
                            },
                            Err(_) => {},
                        }
                    }
                },
                None => {
                    let mut msg = chars_of("Invalid format at line ");
                    let num = dec_chars((i as u64) + 1);
                    extend(&mut msg, &num);
                    extend_str(&mut msg, ": ");
                    extend(&mut msg, &line);
                    assert(msg@ =~= bad_line_message(i + 1, rest[0]));
                    return Err(string_of(&msg));
                },
            }
        }
        i += 1;
    }
    proof {
        assert(all.skip(i as int) =~= Seq::<Seq<char>>::empty());
        assert(vars@ + Seq::<(Seq<char>, Seq<char>)>::empty() =~= vars@);
    }
    Ok(vars)
}

/// The message for a missing parameter.
pub open spec fn missing_message(k: Seq<char>) -> Seq<char> {
    "Missing required parameter: "@ + k
}

/// A required variable.
pub fn get_required_var(vars: &ShellVars, key: &str) -> (r: Result<String, String>)
    ensures
        r matches Ok(v) ==> lookup(vars@, key@) == Some(v@),
        r matches Err(e) ==> lookup(vars@, key@) is None && e@ == missing_message(key@),
{
    match vars.get(key) {
        Some(v) => Ok(v),
        None => {
            let mut msg = chars_of("Missing required parameter: ");
            extend_str(&mut msg, key);
            Err(string_of(&msg))
        },
    }
}

/// An optional variable: its trimmed value when that is nonempty.
pub open spec fn optional_value(a: Seq<(Seq<char>, Seq<char>)>, k: Seq<char>) -> Option<Seq<char>> {
    match lookup(a, k) {
        Some(v) => if trim(v).len() == 0 {
            None
        } else {
            Some(trim(v))
        },
        None => None,
    }
}

/// An optional variable: `None` when missing or blank, else its trimmed value.
pub fn get_optional_var(vars: &ShellVars, key: &str) -> (r: Option<String>)
    ensures
        option_text(r) == optional_value(vars@, key@),
{
    match vars.get(key) {
        Some(v) => {
            let c = chars_of(v.as_str());
            let t = trim_chars(&c);
            if t.len() == 0 {
                None
            } else {
                Some(string_of(&t))
            }
        },
        None => None,
    }
}

/// The message for a required address that does not read as one.
pub open spec fn bad_address_message(k: Seq<char>) -> Seq<char> {
    "Invalid "@ + k + ": invalid IPv4 address syntax"@
}

/// The first problem with the server parameters, fields taken in the order
/// `load_wireguard_params` reads them.
pub open spec fn params_problem(a: Seq<(Seq<char>, Seq<char>)>) -> Option<Seq<char>> {
    if lookup(a, "SERVER_PUB_NIC"@) is None {
        Some(missing_message("SERVER_PUB_NIC"@))
    } else if lookup(a, "SERVER_WG_NIC"@) is None {
        Some(missing_message("SERVER_WG_NIC"@))
    } else if lookup(a, "SERVER_WG_IPV4"@) is None {
        Some(missing_message("SERVER_WG_IPV4"@))
    } else if parse_ipv4(lookup(a, "SERVER_WG_IPV4"@)->0) is None {
        Some(bad_address_message("SERVER_WG_IPV4"@))
    } else if lookup(a, "SERVER_PORT"@) is None {
        Some(missing_message("SERVER_PORT"@))
    } else if parse_unsigned(lookup(a, "SERVER_PORT"@)->0, 65535) is None {
        Some("Invalid SERVER_PORT: "@ + parse_error_text(lookup(a, "SERVER_PORT"@)->0, 65535))
    } else if lookup(a, "SERVER_PRIV_KEY"@) is None {
        Some(missing_message("SERVER_PRIV_KEY"@))
    } else if lookup(a, "SERVER_PUB_KEY"@) is None {
        Some(missing_message("SERVER_PUB_KEY"@))
    } else if lookup(a, "CLIENT_DNS_1"@) is None {
        Some(missing_message("CLIENT_DNS_1"@))
    } else if parse_ipv4(lookup(a, "CLIENT_DNS_1"@)->0) is None {
        Some(bad_address_message("CLIENT_DNS_1"@))
    } else if lookup(a, "CLIENT_DNS_2"@) is None {
        Some(missing_message("CLIENT_DNS_2"@))
    } else if parse_ipv4(lookup(a, "CLIENT_DNS_2"@)->0) is None {
        Some(bad_address_message("CLIENT_DNS_2"@))
    } else if lookup(a, "ALLOWED_IPS"@) is None {
        Some(missing_message("ALLOWED_IPS"@))
    } else {
        None
    }
}

/// The server parameters held by the given assignments, when there is no problem.
pub open spec fn params_match(p: WireguardParams, a: Seq<(Seq<char>, Seq<char>)>) -> bool {
    &&& Some(p.server_pub_nic@) == lookup(a, "SERVER_PUB_NIC"@)
    &&& Some(p.server_wg_nic@) == lookup(a, "SERVER_WG_NIC"@)
    &&& Some(p.server_wg_ipv4) == parse_ipv4(lookup(a, "SERVER_WG_IPV4"@)->0)
    &&& option_text(p.server_wg_ipv6) == optional_value(a, "SERVER_WG_IPV6"@)
    &&& Some(p.server_port as int) == parse_unsigned(lookup(a, "SERVER_PORT"@)->0, 65535)
    &&& Some(p.server_priv_key@) == lookup(a, "SERVER_PRIV_KEY"@)
    &&& Some(p.server_pub_key@) == lookup(a, "SERVER_PUB_KEY"@)
    &&& Some(p.client_dns_1) == parse_ipv4(lookup(a, "CLIENT_DNS_1"@)->0)
    &&& Some(p.client_dns_2) == parse_ipv4(lookup(a, "CLIENT_DNS_2"@)->0)
    &&& Some(p.allowed_ips@) == lookup(a, "ALLOWED_IPS"@)
}

/// A required variable read as an address.
fn required_address(vars: &ShellVars, key: &str) -> (r: Result<Ipv4, String>)
    ensures
        r matches Ok(ip) ==> lookup(vars@, key@) is Some && parse_ipv4(lookup(vars@, key@)->0)
            == Some(ip),
        r matches Err(e) ==> (lookup(vars@, key@) is None && e@ == missing_message(key@)) || (
        lookup(vars@, key@) is Some && parse_ipv4(lookup(vars@, key@)->0) is None && e@
            == bad_address_message(key@)),
{
    let v = get_required_var(vars, key)?;
    let c = chars_of(v.as_str());
    match parse_ipv4_chars(&c) {
        Some(ip) => Ok(ip),
        None => {
            let mut msg = chars_of("Invalid ");
            extend_str(&mut msg, key);
            extend_str(&mut msg, ": invalid IPv4 address syntax");
            assert(msg@ =~= bad_address_message(key@));
            Err(string_of(&msg))
        },
    }
}

/// The server parameters held by the assignments of a parameters file.
pub fn params_from_vars(vars: &ShellVars) -> (r: Result<WireguardParams, String>)
    ensures
        r is Ok <==> params_problem(vars@) is None,
        r matches Err(e) ==> params_problem(vars@) == Some(e@),
        r matches Ok(p) ==> params_match(p, vars@),
{
    let server_wg_ipv6 = get_optional_var(vars, "SERVER_WG_IPV6");
    let server_pub_nic = get_required_var(vars, "SERVER_PUB_NIC")?;
    let server_wg_nic = get_required_var(vars, "SERVER_WG_NIC")?;
    let server_wg_ipv4 = required_address(vars, "SERVER_WG_IPV4")?;
    let port_text = get_required_var(vars, "SERVER_PORT")?;
    let pc = chars_of(port_text.as_str());
    let server_port = match parse_unsigned_detailed(&pc, 65535) {
        Ok(p) => p as u16,
        Err(e) => {
            let mut msg = chars_of("Invalid SERVER_PORT: ");
            extend_str(&mut msg, e.as_str());
            return Err(string_of(&msg));
        },
    };
    let server_priv_key = get_required_var(vars, "SERVER_PRIV_KEY")?;
    let server_pub_key = get_required_var(vars, "SERVER_PUB_KEY")?;
    let client_dns_1 = required_address(vars, "CLIENT_DNS_1")?;
    let client_dns_2 = required_address(vars, "CLIENT_DNS_2")?;
    let allowed_ips = get_required_var(vars, "ALLOWED_IPS")?;
    Ok(
        WireguardParams {
            server_pub_nic,
            server_wg_nic,
            server_wg_ipv4,
            server_wg_ipv6,
            server_port,
            server_priv_key,
            server_pub_key,
            client_dns_1,
            client_dns_2,
            allowed_ips,
        },
    )
}

/// What reading a parameters file gives: its assignments, then the server
/// parameters they hold.
pub open spec fn params_outcome(content: Seq<char>) -> Option<Seq<char>> {
    match shell_assignments(lines(content), 1) {
        Err(e) => Some(e),
        Ok(a) => params_problem(a),
    }
}

/// Reads the server parameters from the text of the parameters file (the
/// computing part of `load_wireguard_params`).
pub fn parse_wireguard_params(content: &str) -> (r: Result<WireguardParams, String>)
    ensures
        r is Ok <==> params_outcome(content@) is None,
        r matches Err(e) ==> params_outcome(content@) == Some(e@),
        r matches Ok(p) ==> (shell_assignments(lines(content@), 1) matches Ok(a) && params_match(
            p,
            a,
        )),
{
    let vars = parse_shell_vars(content)?;
    params_from_vars(&vars)
}

/// The value of `k` after the assignment `x` and then the assignments `a`:
/// a later assignment wins.
pub proof fn lemma_lookup_prepend(x: (Seq<char>, Seq<char>), a: Seq<(Seq<char>, Seq<char>)>, k: Seq<char>)
    ensures
        lookup(seq![x] + a, k) == match lookup(a, k) {
            Some(v) => Some(v),
            None => if x.0 == k {
                Some(x.1)
            } else {
                None
            },
        },
    decreases a.len(),
{
    let s = seq![x] + a;
    if a.len() == 0 {
        assert(s.len() == 1);
        assert(s.last() == x);
        assert(s.drop_last() =~= Seq::<(Seq<char>, Seq<char>)>::empty());
        assert(lookup(s.drop_last(), k) is None);
        assert(lookup(a, k) is None);
    } else {
        assert(s.last() == a.last());
        assert(s.drop_last() =~= seq![x] + a.drop_last());
        lemma_lookup_prepend(x, a.drop_last(), k);
    }
}

/// The value that the last of the lines assigning `k` gives it, if any line does.
pub open spec fn last_assigned(ls: Seq<Seq<char>>, k: Seq<char>) -> Option<Seq<char>>
    decreases ls.len(),
{
    if ls.len() == 0 {
        None
    } else {
        match last_assigned(ls.drop_first(), k) {
            Some(v) => Some(v),
            None => match shell_line(ls[0]) {
                Some(Some(kv)) => if kv.0 == k {
                    Some(kv.1)
                } else {
                    None
                },
                _ => None,
            },
        }
    }
}

proof fn lemma_shell_assignments_all(ls: Seq<Seq<char>>, first_num: int, k: Seq<char>)
    requires
        forall|i: int| 0 <= i < ls.len() ==> shell_line(#[trigger] ls[i]) is Some,
    ensures
        shell_assignments(ls, first_num) matches Ok(a) && lookup(a, k) == last_assigned(ls, k),
    decreases ls.len(),
{
    if ls.len() > 0 {
        assert forall|i: int| 0 <= i < ls.drop_first().len() implies shell_line(
            #[trigger] ls.drop_first()[i],
        ) is Some by {
            assert(ls.drop_first()[i] == ls[i + 1]);
        }
        lemma_shell_assignments_all(ls.drop_first(), first_num + 1, k);
        assert(shell_line(ls[0]) is Some);
        match shell_line(ls[0]) {
            Some(Some(kv)) => {
                match shell_assignments(ls.drop_first(), first_num + 1) {
                    Ok(a) => {
                        lemma_lookup_prepend(kv, a, k);
                    },
                    Err(_) => {},
                }
            },
            _ => {},
        }
    }
}

/// Reading a parameters file whose every line is understood (blank, a
/// comment or `KEY=VALUE`) succeeds, and each name then has the value given
/// by the last line that assigns it; a name that no line assigns has none.
pub proof fn lemma_shell_vars_last_line_wins(content: Seq<char>, k: Seq<char>)
    requires
        forall|i: int| 0 <= i < lines(content).len() ==> shell_line(#[trigger] lines(content)[i]) is Some,
    ensures
        shell_assignments(lines(content), 1) matches Ok(a) && lookup(a, k) == last_assigned(
            lines(content),
            k,
        ),
{
    lemma_shell_assignments_all(lines(content), 1, k);
}

proof fn lemma_shell_assignments_bad(ls: Seq<Seq<char>>, first_num: int, j: int)
    requires
        0 <= j < ls.len(),
        shell_line(ls[j]) is None,
        forall|i: int| 0 <= i < j ==> shell_line(#[trigger] ls[i]) is Some,
    ensures
        shell_assignments(ls, first_num) == Err::<Seq<(Seq<char>, Seq<char>)>, Seq<char>>(
            bad_line_message(first_num + j, ls[j]),
        ),
    decreases j,
{
    if j > 0 {
        assert(shell_line(ls[0]) is Some);
        assert forall|i: int| 0 <= i < j - 1 implies shell_line(#[trigger] ls.drop_first()[i]) is Some by {
            assert(ls.drop_first()[i] == ls[i + 1]);
        }
        assert(ls.drop_first()[j - 1] == ls[j]);
        lemma_shell_assignments_bad(ls.drop_first(), first_num + 1, j - 1);
    }
}

/// Reading a parameters file stops at the first line that is neither blank,
/// a comment nor `KEY=VALUE`, and the error names that line by its number,
/// counted from one.
pub proof fn lemma_shell_vars_first_bad_line(content: Seq<char>, j: int)
    requires
        0 <= j < lines(content).len(),
        shell_line(lines(content)[j]) is None,
        forall|i: int| 0 <= i < j ==> shell_line(#[trigger] lines(content)[i]) is Some,
    ensures
        shell_assignments(lines(content), 1) == Err::<Seq<(Seq<char>, Seq<char>)>, Seq<char>>(
            bad_line_message(j + 1, lines(content)[j]),
        ),
{
    lemma_shell_assignments_bad(lines(content), 1, j);
}

/// The name of the `j`-th required server parameter, in the order in which
/// `load_wireguard_params` reads them.
pub open spec fn param_key(j: int) -> Seq<char> {
    if j == 0 {
        "SERVER_PUB_NIC"@
    } else if j == 1 {
        "SERVER_WG_NIC"@
    } else if j == 2 {
        "SERVER_WG_IPV4"@
    } else if j == 3 {
        "SERVER_PORT"@
    } else if j == 4 {
        "SERVER_PRIV_KEY"@
    } else if j == 5 {
        "SERVER_PUB_KEY"@
    } else if j == 6 {
        "CLIENT_DNS_1"@
    } else if j == 7 {
        "CLIENT_DNS_2"@
    } else {
        "ALLOWED_IPS"@
    }
}

/// What is wrong with the `j`-th required server parameter taken alone: it is
/// missing, or its value does not read as the address or port it holds.
pub open spec fn param_problem(a: Seq<(Seq<char>, Seq<char>)>, j: int) -> Option<Seq<char>> {
    let k = param_key(j);
    match lookup(a, k) {
        None => Some(missing_message(k)),
        Some(v) => if (j == 2 || j == 6 || j == 7) && parse_ipv4(v) is None {
            Some(bad_address_message(k))
        } else if j == 3 && parse_unsigned(v, 65535) is None {
            Some("Invalid SERVER_PORT: "@ + parse_error_text(v, 65535))
        } else {
            None
        },
    }
}

/// The server parameters are read exactly when every required parameter is
/// present and readable; `params_from_vars` then fills each field from its
/// key (`params_match`).
pub proof fn lemma_params_read_when_complete(a: Seq<(Seq<char>, Seq<char>)>)
    ensures
        params_problem(a) is None <==> forall|j: int| 0 <= j < 9 ==> #[trigger] param_problem(a, j) is None,
{
    if forall|j: int| 0 <= j < 9 ==> #[trigger] param_problem(a, j) is None {
        assert(param_problem(a, 0) is None && param_problem(a, 1) is None && param_problem(a, 2) is None
            && param_problem(a, 3) is None && param_problem(a, 4) is None && param_problem(a, 5) is None
            && param_problem(a, 6) is None && param_problem(a, 7) is None && param_problem(a, 8) is None);
    }
    if params_problem(a) is None {
        assert forall|j: int| 0 <= j < 9 implies #[trigger] param_problem(a, j) is None by {
            if j == 0 {
            } else if j == 1 {
            } else if j == 2 {
            } else if j == 3 {
            } else if j == 4 {
            } else if j == 5 {
            } else if j == 6 {
            } else if j == 7 {
            } else {
            }
        }
    }
}

/// When the server parameters are refused, the message is the problem of the
/// first required parameter, in reading order, that has one: a missing key is
/// reported as missing, an unreadable value as invalid, by its name.
pub proof fn lemma_params_first_problem(a: Seq<(Seq<char>, Seq<char>)>, j: int)
    requires
        0 <= j < 9,
        param_problem(a, j) is Some,
        forall|i: int| 0 <= i < j ==> #[trigger] param_problem(a, i) is None,
    ensures
        params_problem(a) == param_problem(a, j),
{
    assert(j > 0 ==> param_problem(a, 0) is None);
    assert(j > 1 ==> param_problem(a, 1) is None);
    assert(j > 2 ==> param_problem(a, 2) is None);
    assert(j > 3 ==> param_problem(a, 3) is None);
    assert(j > 4 ==> param_problem(a, 4) is None);
    assert(j > 5 ==> param_problem(a, 5) is None);
    assert(j > 6 ==> param_problem(a, 6) is None);
    assert(j > 7 ==> param_problem(a, 7) is None);
}

// ---------------------------------------------------------------------------
// Names, addresses and allowed IPs of a new client
// ---------------------------------------------------------------------------

/// `host:port`, with brackets around an IPv6 host that has none.
pub open spec fn endpoint_text(ip: Seq<char>, port: u16) -> Seq<char> {
    if contains(ip, ":"@) && !starts_with(ip, "["@) {
        "["@ + ip + "]:"@ + dec(port as nat)
    } else {
        ip + ":"@ + dec(port as nat)
    }
}

/// Formats the server endpoint, adding brackets around an IPv6 address.
pub fn format_endpoint(server_ip: &str, port: u16) -> (r: String)
    ensures
        r@ == endpoint_text(server_ip@, port),
{
    let ip = chars_of(server_ip);
    let d = dec_chars(port as u64);
    let mut out: Vec<char> = Vec::new();
    if crate::text::contains_str(&ip, ":") && !starts_with_str(&ip, "[") {
        extend_str(&mut out, "[");
        extend(&mut out, &ip);
        extend_str(&mut out, "]:");
    } else {
        extend(&mut out, &ip);
        extend_str(&mut out, ":");
    }
    extend(&mut out, &d);
    assert(out@ =~= endpoint_text(server_ip@, port));
    string_of(&out)
}

/// Why a client name is refused, if it is: it must be made of ASCII letters,
/// digits, `_` and `-`, be shorter than 16 characters, and not yet be used in
/// the server configuration.
pub open spec fn client_name_problem(name: Seq<char>, server_config: Option<Seq<char>>) -> Option<
    Seq<char>,
> {
    if !(name.len() > 0 && forall|i: int| 0 <= i < name.len() ==> is_name_char(#[trigger] name[i])) {
        Some(
            "Invalid characters in client name. Use only alphanumeric characters, underscores, or dashes."@,
        )
    } else if name.len() >= 16 {
        Some("Client name must be less than 16 characters."@)
    } else if server_config matches Some(c) && contains(c, "### Client "@ + name) {
        Some(
            "A client with the specified name was already created, please choose another name."@,
        )
    } else {
        None
    }
}

/// The optional text of an optional string slice.
pub open spec fn option_str(o: Option<&str>) -> Option<Seq<char>> {
    match o {
        Some(s) => Some(s@),
        None => None,
    }
}

/// Checks a proposed client name against the text of the server
/// configuration (`None` when it could not be read); gives the message the
/// prompt shows when the name is refused.
pub fn check_client_name(name: &str, server_config: Option<&str>) -> (r: Result<(), String>)
    ensures
        r is Ok <==> client_name_problem(name@, option_str(server_config)) is None,
        r matches Err(e) ==> client_name_problem(name@, option_str(server_config)) == Some(e@),
{
    let matched = regex_is_match("^[a-zA-Z0-9_-]+$", name);
    let ok = match matched {
        Some(m) => m,
        None => false,
    };
    if !ok {
        return Err(
            owned(
                "Invalid characters in client name. Use only alphanumeric characters, underscores, or dashes.",
            ),
        );
    }
    let n = chars_of(name);
    if n.len() >= 16 {
        return Err(owned("Client name must be less than 16 characters."));
    }
    match server_config {
        Some(c) => {
            let cv = chars_of(c);
            let mut pat = chars_of("### Client ");
            extend(&mut pat, &n);
            if contains_chars(&cv, &pat) {
                return Err(
                    owned(
                        "A client with the specified name was already created, please choose another name.",
                    ),
                );
            }
        },
        None => {},
    }
    Ok(())
}

/// The first three octets of an address, `a.b.c`.
pub open spec fn base_text(ip: Ipv4) -> Seq<char> {
    dec(ip.a as nat) + "."@ + dec(ip.b as nat) + "."@ + dec(ip.c as nat)
}

fn base_chars(ip: &Ipv4) -> (r: Vec<char>)
    ensures
        r@ == base_text(*ip),
{
    let mut r = dec_chars(ip.a as u64);
    extend_str(&mut r, ".");
    let t = dec_chars(ip.b as u64);
    extend(&mut r, &t);
    extend_str(&mut r, ".");
    let t = dec_chars(ip.c as u64);
    extend(&mut r, &t);
    assert(r@ =~= base_text(*ip));
    r
}

/// The subnet shown when a client address is asked for: the first three
/// octets of the server address (`10.19.11` for `10.19.11.1`).
pub fn ipv4_subnet_label(server_ipv4: &Ipv4) -> (r: String)
    ensures
        r@ == base_text(*server_ipv4),
{
    let c = base_chars(server_ipv4);
    string_of(&c)
}

/// The IPv6 subnet shown when a client address is asked for: the server
/// address up to its first `::`, or `invalid` when it has none.
pub open spec fn ipv6_subnet_label_spec(server_ipv6: Seq<char>) -> Seq<char> {
    match split_once(server_ipv6, "::"@) {
        Some(p) => p.0,
        None => "invalid"@,
    }
}

/// The IPv6 subnet shown when a client address is asked for.
pub fn ipv6_subnet_label(server_ipv6: &str) -> (r: String)
    ensures
        r@ == ipv6_subnet_label_spec(server_ipv6@),
{
    let c = chars_of(server_ipv6);
    let sep = chars_of("::");
    match split_once_chars(&c, &sep) {
        Some((prefix, _)) => string_of(&prefix),
        None => owned("invalid"),
    }
}

/// What `validate_ipv4_address` decides for a proposed client address.
pub open spec fn ipv4_choice(ip: Seq<char>, server: Ipv4, server_config: Option<Seq<char>>) -> Result<
    Ipv4,
    Seq<char>,
> {
    match parse_ipv4(ip) {
        None => Err("Invalid IPv4 address format"@),
        Some(p) => if p.a != server.a || p.b != server.b || p.c != server.c {
            Err("IP address must be in subnet "@ + base_text(server) + ".x"@)
        } else if p == server {
            Err("Cannot use server's IP address"@)
        } else if server_config matches Some(c) && contains(c, dotted(p) + "/32"@) {
            Err("IP address "@ + dotted(p) + " is already in use"@)
        } else {
            Ok(p)
        },
    }
}

/// Checks a proposed client IPv4 address: it must read as an address, share
/// the first three octets with the server, differ from the server and not be
/// used yet (`<ip>/32` in the server configuration, `None` when unreadable).
pub fn validate_ipv4_address(ip: &str, server_ipv4: &Ipv4, server_config: Option<&str>) -> (r: Result<
    Ipv4,
    String,
>)
    ensures
        r matches Ok(p) ==> ipv4_choice(ip@, *server_ipv4, option_str(server_config)) == Ok::<
            Ipv4,
            Seq<char>,
        >(p),
        r matches Err(e) ==> ipv4_choice(ip@, *server_ipv4, option_str(server_config)) == Err::<
            Ipv4,
            Seq<char>,
        >(e@),
{
    let parsed = match crate::ipv4::parse_ipv4_str(ip) {
        Some(p) => p,
        None => {
            return Err(owned("Invalid IPv4 address format"));
        },
    };
    if parsed.a != server_ipv4.a || parsed.b != server_ipv4.b || parsed.c != server_ipv4.c {
        let mut msg = chars_of("IP address must be in subnet ");
        let b = base_chars(server_ipv4);
        extend(&mut msg, &b);
        extend_str(&mut msg, ".x");
        assert(msg@ =~= "IP address must be in subnet "@ + base_text(*server_ipv4) + ".x"@);
        return Err(string_of(&msg));
    }
    if parsed == *server_ipv4 {
        return Err(owned("Cannot use server's IP address"));
    }
    let text = parsed.to_chars();
    match server_config {
        Some(c) => {
            let cv = chars_of(c);
            let mut pat = text.clone();
            extend_str(&mut pat, "/32");
            if contains_chars(&cv, &pat) {
                let mut msg = chars_of("IP address ");
                extend(&mut msg, &text);
                extend_str(&mut msg, " is already in use");
                assert(msg@ =~= "IP address "@ + dotted(parsed) + " is already in use"@);
                return Err(string_of(&msg));
            }
        },
        None => {},
    }
    Ok(parsed)
}

/// What `validate_ipv6_address` decides for a proposed client address.
pub open spec fn ipv6_choice(ip: Seq<char>, server: Seq<char>, server_config: Option<Seq<char>>) -> Result<
    Seq<char>,
    Seq<char>,
> {
    if !contains(ip, "::"@) {
        Err("Invalid IPv6 address format (must contain '::')"@)
    } else {
        match split_once(server, "::"@) {
            None => Err("Invalid server IPv6 configuration"@),
            Some(sp) => match split_once(ip, "::"@) {
                None => Err("Invalid IPv6 address format"@),
                Some(ipp) => if sp.0 != ipp.0 {
                    Err("IPv6 address must be in subnet "@ + sp.0 + "::x"@)
                } else if ip == server {
                    Err("Cannot use server's IPv6 address"@)
                } else if server_config matches Some(c) && contains(c, ip + "/128"@) {
                    Err("IPv6 address "@ + ip + " is already in use"@)
                } else {
                    Ok(ip)
                },
            },
        }
    }
}

/// An IPv6 address is accepted for a client only as given, inside the
/// server's prefix, different from the server's address and not yet listed
/// as `<address>/128` in the server configuration; an address listed there
/// is refused as in use.
pub proof fn lemma_accepted_ipv6_is_free(ip: Seq<char>, server: Seq<char>, server_config: Option<Seq<char>>)
    ensures
        ipv6_choice(ip, server, server_config) matches Ok(x) ==> {
            &&& x == ip
            &&& ip != server
            &&& contains(ip, "::"@)
            &&& split_once(ip, "::"@) matches Some(ipp) && split_once(server, "::"@) matches Some(sp)
                && ipp.0 == sp.0
            &&& server_config matches Some(c) ==> !contains(c, ip + "/128"@)
        },
        (server_config matches Some(c) && contains(c, ip + "/128"@)) ==> ipv6_choice(
            ip,
            server,
            server_config,
        ) is Err,
{
}

/// Checks a proposed client IPv6 address: it must contain `::`, have the
/// server's part before `::`, differ from the server and not be used yet.
pub fn validate_ipv6_address(ip: &str, server_ipv6: &str, server_config: Option<&str>) -> (r: Result<
    String,
    String,
>)
    ensures
        text_result_eq(r, ipv6_choice(ip@, server_ipv6@, option_str(server_config))),
        r matches Ok(x) ==> x@ == ip@ && ip@ != server_ipv6@ && (server_config matches Some(c)
            ==> !contains(c@, ip@ + "/128"@)),
{
    proof {
        lemma_accepted_ipv6_is_free(ip@, server_ipv6@, option_str(server_config));
    }
    let ipv = chars_of(ip);
    let sep = chars_of("::");
    if !contains_chars(&ipv, &sep) {
        return Err(owned("Invalid IPv6 address format (must contain '::')"));
    }
    let sv = chars_of(server_ipv6);
    let server_base = match split_once_chars(&sv, &sep) {
        Some((prefix, _)) => prefix,
        None => {
            return Err(owned("Invalid server IPv6 configuration"));
        },
    };
    let parsed_base = match split_once_chars(&ipv, &sep) {
        Some((prefix, _)) => prefix,
        None => {
            return Err(owned("Invalid IPv6 address format"));
        },
    };
    if !chars_eq(&server_base, &parsed_base) {
        let mut msg = chars_of("IPv6 address must be in subnet ");
        extend(&mut msg, &server_base);
        extend_str(&mut msg, "::x");
        return Err(string_of(&msg));
    }
    if chars_eq(&ipv, &sv) {
        return Err(owned("Cannot use server's IPv6 address"));
    }
    match server_config {
        Some(c) => {
            let cv = chars_of(c);
            let mut pat = ipv.clone();
            extend_str(&mut pat, "/128");
            if contains_chars(&cv, &pat) {
                let mut msg = chars_of("IPv6 address ");
                extend(&mut msg, &ipv);
                extend_str(&mut msg, " is already in use");
                return Err(string_of(&msg));
            }
        },
        None => {},
    }
    Ok(owned(ip))
}

/// An outcome with text on both sides agrees with a spec outcome.
pub open spec fn text_result_eq(r: Result<String, String>, s: Result<Seq<char>, Seq<char>>) -> bool {
    crate::text::text_result(r) == s
}

/// The address `a.b.c.d` written from the first three octets of `server`.
pub open spec fn host_text(server: Ipv4, d: int) -> Seq<char> {
    base_text(server) + "."@ + dec(d as nat)
}

/// Host number `d` of the server's /24 is not yet in the server configuration.
pub open spec fn ipv4_host_free(server: Ipv4, config: Seq<char>, d: int) -> bool {
    !contains(config, host_text(server, d) + "/32"@)
}

/// Finds the first client address `a.b.c.d` of the server's /24 with `d` from
/// 2 to 254 that the server configuration does not hold as `<ip>/32`.
pub fn find_available_ipv4(server_ipv4: &Ipv4, server_config: &str) -> (r: Result<Ipv4, String>)
    ensures
        r matches Ok(ip) ==> ip.a == server_ipv4.a && ip.b == server_ipv4.b && ip.c == server_ipv4.c
            && 2 <= ip.d <= 254 && ipv4_host_free(*server_ipv4, server_config@, ip.d as int)
            && dotted(ip) == host_text(*server_ipv4, ip.d as int) && forall|d: int|
            2 <= d < ip.d ==> !ipv4_host_free(*server_ipv4, server_config@, d),
        r matches Err(e) ==> e@ == "The subnet configured supports only 253 clients."@ && forall|
            d: int,
        |
            2 <= d <= 254 ==> !ipv4_host_free(*server_ipv4, server_config@, d),
{
    let cv = chars_of(server_config);
    let base = base_chars(server_ipv4);
    let mut d: u8 = 2;
    while d < 255
        invariant
            2 <= d <= 255,
            cv@ == server_config@,
            base@ == base_text(*server_ipv4),
            forall|k: int| 2 <= k < d ==> !ipv4_host_free(*server_ipv4, server_config@, k),
        decreases 255 - d,
    {
        let mut pat = base.clone();
        extend_str(&mut pat, ".");
        let t = dec_chars(d as u64);
        extend(&mut pat, &t);
        extend_str(&mut pat, "/32");
        assert(pat@ =~= host_text(*server_ipv4, d as int) + "/32"@);
        if !contains_chars(&cv, &pat) {
            let ip = Ipv4 { a: server_ipv4.a, b: server_ipv4.b, c: server_ipv4.c, d };
            proof {
                reveal_strlit(".");
                assert(dotted(ip) =~= host_text(*server_ipv4, d as int));
            }
            return Ok(ip);
        }
        d += 1;
    }
    Err(owned("The subnet configured supports only 253 clients."))
}

/// The address `<prefix>::d` in the server's IPv6 range.
pub open spec fn ipv6_host_text(prefix: Seq<char>, d: int) -> Seq<char> {
    prefix + "::"@ + dec(d as nat)
}

/// What `find_available_ipv6` suggests: with a server IPv6 address holding
/// `::` and a readable server configuration, the first `<prefix>::d` with `d`
/// from 2 to 254 that is not used as `<ip>/128`.
pub open spec fn ipv6_suggestion(server: Option<Seq<char>>, config: Option<Seq<char>>) -> Option<
    Seq<char>,
> {
    match (server, config) {
        (Some(sv), Some(c)) => match split_once(sv, "::"@) {
            Some(sp) => first_free_ipv6(sp.0, c, 2),
            None => None,
        },
        _ => None,
    }
}

/// The first `<prefix>::d` with `d` from `from` to 254 not used in `config`.
pub open spec fn first_free_ipv6(prefix: Seq<char>, config: Seq<char>, from: int) -> Option<Seq<char>>
    decreases 255 - from,
{
    if from >= 255 || from < 0 {
        None
    } else if !contains(config, ipv6_host_text(prefix, from) + "/128"@) {
        Some(ipv6_host_text(prefix, from))
    } else {
        first_free_ipv6(prefix, config, from + 1)
    }
}

/// Suggests a client IPv6 address in the server's range (see `ipv6_suggestion`).
pub fn find_available_ipv6(server_ipv6: Option<&str>, server_config: Option<&str>) -> (r: Option<String>)
    ensures
        option_text(r) == ipv6_suggestion(option_str(server_ipv6), option_str(server_config)),
{
    let sv = match server_ipv6 {
        Some(s) => chars_of(s),
        None => {
            return None;
        },
    };
    let c = match server_config {
        Some(c) => chars_of(c),
        None => {
            return None;
        },
    };
    let sep = chars_of("::");
    let base = match split_once_chars(&sv, &sep) {
        Some((prefix, _)) => prefix,
        None => {
            return None;
        },
    };
    let mut d: u8 = 2;
    while d < 255
        invariant
            2 <= d <= 255,
            ipv6_suggestion(option_str(server_ipv6), option_str(server_config)) == first_free_ipv6(
                base@,
                c@,
                2,
            ),
            first_free_ipv6(base@, c@, 2) == first_free_ipv6(base@, c@, d as int),
        decreases 255 - d,
    {
        let mut host = base.clone();
        extend_str(&mut host, "::");
        let t = dec_chars(d as u64);
        extend(&mut host, &t);
        assert(host@ =~= ipv6_host_text(base@, d as int));
        let mut pat = host.clone();
        extend_str(&mut pat, "/128");
        if !contains_chars(&c, &pat) {
            return Some(string_of(&host));
        }
        d += 1;
    }
    None
}

/// One comma-separated entry of allowed IPs: after trimming, only digits,
/// `.`, `/` and `:`; holds `.` or `:`; does not start or end with `/`.
pub open spec fn allowed_entry_ok(p: Seq<char>) -> bool {
    let t = trim(p);
    &&& forall|i: int|
        0 <= i < t.len() ==> crate::numtext::is_digit(#[trigger] t[i]) || t[i] == '.' || t[i] == '/'
            || t[i] == ':'
    &&& (contains(t, "."@) || contains(t, ":"@))
    &&& !starts_with(t, "/"@)
    &&& !ends_with(t, "/"@)
}

/// What the allowed-IPs prompt accepts: the trimmed input when it is nonempty
/// and every comma-separated entry is acceptable, else the message shown.
pub open spec fn allowed_ips_check(input: Seq<char>) -> Result<Seq<char>, Seq<char>> {
    let t = trim(input);
    if t.len() == 0 {
        Err("Allowed IPs cannot be empty"@)
    } else if forall|i: int|
        0 <= i < crate::text::split_on(t, ',').len() ==> allowed_entry_ok(
            #[trigger] crate::text::split_on(t, ',')[i],
        ) {
        Ok(t)
    } else {
        Err("Invalid IP format. Please use CIDR notation (e.g., 192.168.1.0/24)"@)
    }
}

fn allowed_entry_ok_exec(p: &Vec<char>) -> (r: bool)
    ensures
        r == allowed_entry_ok(p@),
{
    let t = trim_chars(p);
    let mut i: usize = 0;
    while i < t.len()
        invariant
            i <= t.len(),
            t@ == trim(p@),
            forall|k: int|
                0 <= k < i ==> crate::numtext::is_digit(#[trigger] t@[k]) || t@[k] == '.' || t@[k]
                    == '/' || t@[k] == ':',
        decreases t.len() - i,
    {
        let c = t[i];
        if !(('0' <= c && c <= '9') || c == '.' || c == '/' || c == ':') {
            assert(!(crate::numtext::is_digit(t@[i as int]) || t@[i as int] == '.' || t@[i as int]
                == '/' || t@[i as int] == ':'));
            assert(t@ == trim(p@));
            return false;
        }
        i += 1;
    }
    let has = crate::text::contains_str(&t, ".") || crate::text::contains_str(&t, ":");
    has && !starts_with_str(&t, "/") && !crate::text::ends_with_chars(&t, &chars_of("/"))
}

/// Checks the allowed-IPs input of a new client (see `allowed_ips_check`).
pub fn check_allowed_ips(input: &str) -> (r: Result<String, String>)
    ensures
        text_result_eq(r, allowed_ips_check(input@)),
{
    let v = chars_of(input);
    let t = trim_chars(&v);
    if t.len() == 0 {
        return Err(owned("Allowed IPs cannot be empty"));
    }
    let parts = crate::text::split_chars(&t, ',');
    let mut i: usize = 0;
    while i < parts.len()
        invariant
            i <= parts.len(),
            t@ == trim(input@),
            t@.len() > 0,
            views(parts@) == crate::text::split_on(t@, ','),
            forall|k: int| 0 <= k < i ==> allowed_entry_ok(#[trigger] views(parts@)[k]),
        decreases parts.len() - i,
    {
        assert(views(parts@)[i as int] == parts@[i as int]@);
        if !allowed_entry_ok_exec(&parts[i]) {
            assert(!allowed_entry_ok(crate::text::split_on(t@, ',')[i as int]));
            assert(trim(input@) == t@);
            return Err(owned("Invalid IP format. Please use CIDR notation (e.g., 192.168.1.0/24)"));
        }
        i += 1;
    }
    Ok(string_of(&t))
}

// ---------------------------------------------------------------------------
// Configuration text of a client
// ---------------------------------------------------------------------------

/// A client being created.
pub struct ClientConfig {
    pub name: String,
    pub private_key: String,
    pub public_key: String,
    pub preshared_key: String,
    pub ipv4: Ipv4,
    pub ipv6: Option<String>,
    /// Directory that receives the client's configuration file.
    pub home_dir: String,
    pub use_dns: bool,
    pub allowed_ips: String,
}

/// `<ipv4>/32`, followed by `,<ipv6>/128` when the client has an IPv6 address.
pub open spec fn address_list(ipv4: Ipv4, ipv6: Option<Seq<char>>) -> Seq<char> {
    match ipv6 {
        Some(v) => dotted(ipv4) + "/32"@ + ","@ + v + "/128"@,
        None => dotted(ipv4) + "/32"@,
    }
}

fn address_list_chars(ipv4: &Ipv4, ipv6: &Option<String>) -> (r: Vec<char>)
    ensures
        r@ == address_list(*ipv4, option_text(*ipv6)),
{
    let mut r = ipv4.to_chars();
    extend_str(&mut r, "/32");
    match ipv6 {
        Some(v) => {
            extend_str(&mut r, ",");
            extend_str(&mut r, v.as_str());
            extend_str(&mut r, "/128");
        },
        None => {},
    }
    r
}

/// The DNS line of a client configuration, when DNS is included.
pub open spec fn dns_line(use_dns: bool, p: WireguardParams) -> Seq<char> {
    if use_dns {
        "DNS = "@ + dotted(p.client_dns_1) + ","@ + dotted(p.client_dns_2) + "\n"@
    } else {
        Seq::<char>::empty()
    }
}

/// The text between the interface and the peer sections of a client
/// configuration.
pub open spec fn mtu_note() -> Seq<char> {
    "\n# Uncomment the next line to set a custom MTU\n# This might impact performance, so use it only if you know what you are doing\n# See https://github.com/nitred/nr-wg-mtu-finder to find your optimal MTU\n# MTU = 1420\n\n[Peer]\nPublicKey = "@
}

/// The configuration file of a client: its interface (key, addresses,
/// optional DNS), a note on MTU, and the server as its peer reached at
/// `endpoint_ip`.
pub open spec fn client_config_spec(c: ClientConfig, p: WireguardParams, endpoint_ip: Seq<char>) -> Seq<
    char,
> {
    "[Interface]\nPrivateKey = "@ + c.private_key@ + "\nAddress = "@ + address_list(
        c.ipv4,
        option_text(c.ipv6),
    ) + "\n"@ + dns_line(c.use_dns, p) + mtu_note() + p.server_pub_key@ + "\nPresharedKey = "@
        + c.preshared_key@ + "\nEndpoint = "@ + endpoint_text(endpoint_ip, p.server_port)
        + "\nAllowedIPs = "@ + c.allowed_ips@
}

/// A line followed by a line break starts the lines of a text.
proof fn lemma_lines_cons(x: Seq<char>, r: Seq<char>)
    requires
        single_line(x),
    ensures
        lines(x + seq!['\n'] + r) == seq![x] + lines(r),
{
    let s = x + seq!['\n'] + r;
    assert(s[x.len() as int] == '\n');
    assert forall|k: int| 0 <= k < x.len() implies s[k] != '\n' by {
        assert(s[k] == x[k]);
    }
    lemma_lines_step(s, x.len() as int);
    assert(s.take(x.len() as int) =~= x);
    assert(s.skip(x.len() as int + 1) =~= r);
}

/// The endpoint text of a single-line host is a single line.
proof fn lemma_endpoint_single_line(ip: Seq<char>, port: u16)
    requires
        single_line(ip),
    ensures
        single_line(endpoint_text(ip, port)),
{
    reveal_strlit("[");
    reveal_strlit("]:");
    reveal_strlit(":");
    crate::numtext::lemma_dec(port as nat);
    let d = dec(port as nat);
    assert(single_line(d)) by {
        assert forall|k: int| 0 <= k < d.len() implies #[trigger] d[k] != '\n' && d[k] != '\r' by {
            assert(crate::numtext::is_digit(d[k]));
        }
    }
    lemma_single_line_concat(ip, ":"@);
    lemma_single_line_concat(ip + ":"@, d);
    lemma_single_line_concat("["@, ip);
    lemma_single_line_concat("["@ + ip, "]:"@);
    lemma_single_line_concat("["@ + ip + "]:"@, d);
}

/// A line that begins with `DNS =` begins with `D`.
proof fn lemma_dns_start(l: Seq<char>)
    ensures
        starts_with(l, "DNS ="@) ==> l.len() > 0 && l[0] == 'D',
{
    reveal_strlit("DNS =");
    if starts_with(l, "DNS ="@) {
        assert(l.take(5)[0] == l[0]);
    }
}

/// Lines, each followed by a line break, then the text `r`.
spec fn joined(parts: Seq<Seq<char>>, r: Seq<char>) -> Seq<char>
    decreases parts.len(),
{
    if parts.len() == 0 {
        r
    } else {
        parts[0] + seq!['\n'] + joined(parts.drop_first(), r)
    }
}

/// The lines of single lines joined before a text are those lines, then the
/// text's lines.
proof fn lemma_lines_joined(parts: Seq<Seq<char>>, r: Seq<char>)
    requires
        forall|j: int| 0 <= j < parts.len() ==> single_line(#[trigger] parts[j]),
    ensures
        lines(joined(parts, r)) == parts + lines(r),
    decreases parts.len(),
{
    if parts.len() == 0 {
        assert(parts + lines(r) =~= lines(r));
    } else {
        assert(single_line(parts[0]));
        assert forall|j: int| 0 <= j < parts.drop_first().len() implies single_line(
            #[trigger] parts.drop_first()[j],
        ) by {
            assert(parts.drop_first()[j] == parts[j + 1]);
        }
        lemma_lines_joined(parts.drop_first(), r);
        lemma_lines_cons(parts[0], joined(parts.drop_first(), r));
        assert(seq![parts[0]] + (parts.drop_first() + lines(r)) =~= parts + lines(r));
    }
}

/// Text added after joined lines goes after their final text.
proof fn lemma_joined_append(parts: Seq<Seq<char>>, r: Seq<char>, x: Seq<char>)
    ensures
        joined(parts, r) + x == joined(parts, r + x),
    decreases parts.len(),
{
    if parts.len() > 0 {
        lemma_joined_append(parts.drop_first(), r, x);
        assert(parts[0] + seq!['\n'] + joined(parts.drop_first(), r) + x =~= parts[0] + seq!['\n']
            + (joined(parts.drop_first(), r) + x));
    }
}

/// The lines of the note on MTU: a blank line, the comments, a blank line
/// and the header of the peer section.
spec fn mtu_lines() -> Seq<Seq<char>> {
    seq![Seq::<char>::empty(), "# Uncomment the next line to set a custom MTU"@, "# This might impact performance, so use it only if you know what you are doing"@, "# See https://github.com/nitred/nr-wg-mtu-finder to find your optimal MTU"@, "# MTU = 1420"@, Seq::<char>::empty(), "[Peer]"@]
}

/// The note on MTU: a blank line, its comment lines, a blank line, and the
/// start of the peer section.
proof fn lemma_mtu_note_shape()
    ensures
        mtu_note() == joined(mtu_lines(), "PublicKey = "@),
        forall|j: int| 0 <= j < mtu_lines().len() ==> single_line(#[trigger] mtu_lines()[j]),
        forall|j: int| 0 <= j < mtu_lines().len() ==> !starts_with(#[trigger] mtu_lines()[j], "DNS ="@),
{
    reveal_strlit("\n# Uncomment the next line to set a custom MTU\n# This might impact performance, so use it only if you know what you are doing\n# See https://github.com/nitred/nr-wg-mtu-finder to find your optimal MTU\n# MTU = 1420\n\n[Peer]\nPublicKey = ");
    reveal_strlit("# Uncomment the next line to set a custom MTU");
    reveal_strlit("# This might impact performance, so use it only if you know what you are doing");
    reveal_strlit("# See https://github.com/nitred/nr-wg-mtu-finder to find your optimal MTU");
    reveal_strlit("# MTU = 1420");
    reveal_strlit("[Peer]");
    reveal_strlit("PublicKey = ");
    reveal_with_fuel(joined, 8);
    let m = mtu_lines();
    assert(mtu_note() =~= joined(m, "PublicKey = "@));
    assert forall|j: int| 0 <= j < m.len() implies single_line(#[trigger] m[j]) && !starts_with(
        m[j],
        "DNS ="@,
    ) by {
        lemma_dns_start(m[j]);
    }
}

/// The address list of a client with a single-line IPv6 address is a single line.
proof fn lemma_address_list_single_line(c: ClientConfig)
    requires
        c.ipv6 matches Some(v) ==> single_line(v@),
    ensures
        single_line(address_list(c.ipv4, option_text(c.ipv6))),
{
    assert(single_line(dotted(c.ipv4))) by {
        assert forall|k: int| 0 <= k < dotted(c.ipv4).len() implies #[trigger] dotted(c.ipv4)[k] != '\n'
            && dotted(c.ipv4)[k] != '\r' by {
            crate::install::lemma_dotted_chars(c.ipv4, k);
        }
    }
    reveal_strlit("/32");
    reveal_strlit("/128");
    reveal_strlit(",");
    lemma_single_line_concat(dotted(c.ipv4), "/32"@);
    match c.ipv6 {
        Some(v) => {
            lemma_single_line_concat(dotted(c.ipv4) + "/32"@, ","@);
            lemma_single_line_concat(dotted(c.ipv4) + "/32"@ + ","@, v@);
            lemma_single_line_concat(dotted(c.ipv4) + "/32"@ + ","@ + v@, "/128"@);
        },
        None => {},
    }
}

/// The DNS line of a configuration, without its line break.
spec fn dns_text(p: WireguardParams) -> Seq<char> {
    "DNS = "@ + dotted(p.client_dns_1) + ","@ + dotted(p.client_dns_2)
}

/// The DNS line is a single line that begins with `DNS =`.
proof fn lemma_dns_text(p: WireguardParams)
    ensures
        single_line(dns_text(p)),
        starts_with(dns_text(p), "DNS ="@),
        dns_line(true, p) == dns_text(p) + seq!['\n'],
        dns_line(false, p) == Seq::<char>::empty(),
{
    reveal_strlit("DNS = ");
    reveal_strlit("DNS =");
    reveal_strlit(",");
    reveal_strlit("\n");
    let d1 = dotted(p.client_dns_1);
    let d2 = dotted(p.client_dns_2);
    assert forall|k: int| 0 <= k < d1.len() implies #[trigger] d1[k] != '\n' && d1[k] != '\r' by {
        crate::install::lemma_dotted_chars(p.client_dns_1, k);
    }
    assert forall|k: int| 0 <= k < d2.len() implies #[trigger] d2[k] != '\n' && d2[k] != '\r' by {
        crate::install::lemma_dotted_chars(p.client_dns_2, k);
    }
    lemma_single_line_concat("DNS = "@, d1);
    lemma_single_line_concat("DNS = "@ + d1, ","@);
    lemma_single_line_concat("DNS = "@ + d1 + ","@, d2);
    assert(dns_text(p).take(5) =~= "DNS ="@);
    assert(dns_line(true, p) =~= dns_text(p) + seq!['\n']);
}

/// The part of a client's configuration after its interface section: the
/// note on MTU and the server as its peer.
#[verifier::opaque]
spec fn config_tail_text(c: ClientConfig, p: WireguardParams, endpoint_ip: Seq<char>) -> Seq<char> {
    mtu_note() + p.server_pub_key@ + "\nPresharedKey = "@ + c.preshared_key@ + "\nEndpoint = "@
        + endpoint_text(endpoint_ip, p.server_port) + "\nAllowedIPs = "@ + c.allowed_ips@
}

/// The peer section's lines after its header, none beginning with `DNS =`.
proof fn lemma_peer_lines(c: ClientConfig, p: WireguardParams, endpoint_ip: Seq<char>)
    requires
        single_line(c.preshared_key@),
        single_line(c.allowed_ips@),
        single_line(p.server_pub_key@),
        single_line(endpoint_ip),
    ensures
        ({
            let t = "PublicKey = "@ + p.server_pub_key@ + "\nPresharedKey = "@ + c.preshared_key@
                + "\nEndpoint = "@ + endpoint_text(endpoint_ip, p.server_port) + "\nAllowedIPs = "@
                + c.allowed_ips@;
            forall|j: int| 0 <= j < lines(t).len() ==> !starts_with(#[trigger] lines(t)[j], "DNS ="@)
        }),
{
    let nl = seq!['\n'];
    reveal_strlit("PublicKey = ");
    reveal_strlit("PresharedKey = ");
    reveal_strlit("Endpoint = ");
    reveal_strlit("AllowedIPs = ");
    reveal_strlit("\nPresharedKey = ");
    reveal_strlit("\nEndpoint = ");
    reveal_strlit("\nAllowedIPs = ");
    let ep = endpoint_text(endpoint_ip, p.server_port);
    lemma_endpoint_single_line(endpoint_ip, p.server_port);
    let l10 = "PublicKey = "@ + p.server_pub_key@;
    let l11 = "PresharedKey = "@ + c.preshared_key@;
    let l12 = "Endpoint = "@ + ep;
    let l13 = "AllowedIPs = "@ + c.allowed_ips@;
    lemma_single_line_concat("PublicKey = "@, p.server_pub_key@);
    lemma_single_line_concat("PresharedKey = "@, c.preshared_key@);
    lemma_single_line_concat("Endpoint = "@, ep);
    lemma_single_line_concat("AllowedIPs = "@, c.allowed_ips@);
    let t12 = l12 + nl + l13;
    let t11 = l11 + nl + t12;
    let t10 = l10 + nl + t11;
    assert("\nPresharedKey = "@ =~= nl + "PresharedKey = "@);
    assert("\nEndpoint = "@ =~= nl + "Endpoint = "@);
    assert("\nAllowedIPs = "@ =~= nl + "AllowedIPs = "@);
    let t = "PublicKey = "@ + p.server_pub_key@ + "\nPresharedKey = "@ + c.preshared_key@ + "\nEndpoint = "@
        + ep + "\nAllowedIPs = "@ + c.allowed_ips@;
    assert(t =~= t10);
    lemma_lines_last(l13);
    lemma_lines_cons(l12, l13);
    lemma_lines_cons(l11, t12);
    lemma_lines_cons(l10, t11);
    let rest = seq![l10, l11, l12, l13];
    assert(lines(t10) =~= rest);
    assert forall|j: int| 0 <= j < rest.len() implies !starts_with(#[trigger] rest[j], "DNS ="@) by {
        lemma_dns_start(rest[j]);
    }
}

/// The lines after the interface section begin with a blank line, then the
/// note on MTU as comments, and the peer section; none begins with `DNS =`.
proof fn lemma_config_tail_lines(c: ClientConfig, p: WireguardParams, endpoint_ip: Seq<char>)
    requires
        single_line(c.preshared_key@),
        single_line(c.allowed_ips@),
        single_line(p.server_pub_key@),
        single_line(endpoint_ip),
    ensures
        forall|j: int|
            0 <= j < lines(config_tail_text(c, p, endpoint_ip)).len() ==> !starts_with(
                #[trigger] lines(config_tail_text(c, p, endpoint_ip))[j],
                "DNS ="@,
            ),
{
    reveal(config_tail_text);
    lemma_mtu_note_shape();
    lemma_peer_lines(c, p, endpoint_ip);
    let y = p.server_pub_key@ + "\nPresharedKey = "@ + c.preshared_key@ + "\nEndpoint = "@ + endpoint_text(
        endpoint_ip,
        p.server_port,
    ) + "\nAllowedIPs = "@ + c.allowed_ips@;
    let pk = "PublicKey = "@ + p.server_pub_key@ + "\nPresharedKey = "@ + c.preshared_key@ + "\nEndpoint = "@
        + endpoint_text(endpoint_ip, p.server_port) + "\nAllowedIPs = "@ + c.allowed_ips@;
    assert(config_tail_text(c, p, endpoint_ip) =~= mtu_note() + y);
    assert("PublicKey = "@ + y =~= pk);
    lemma_joined_append(mtu_lines(), "PublicKey = "@, y);
    lemma_lines_joined(mtu_lines(), pk);
    let head = mtu_lines();
    let lt = lines(config_tail_text(c, p, endpoint_ip));
    assert forall|j: int| 0 <= j < lt.len() implies !starts_with(#[trigger] lt[j], "DNS ="@) by {
        if j >= head.len() {
            assert(lt[j] == lines(pk)[j - head.len()]);
        } else {
            assert(lt[j] == head[j]);
        }
    }
}

/// The lines of a client's interface section: its header, key and
/// addresses, and the DNS line when the client uses the server's DNS servers.
spec fn config_head_lines(c: ClientConfig, p: WireguardParams) -> Seq<Seq<char>> {
    seq!["[Interface]"@, "PrivateKey = "@ + c.private_key@, "Address = "@ + address_list(
        c.ipv4,
        option_text(c.ipv6),
    )] + if c.use_dns {
        seq![dns_text(p)]
    } else {
        Seq::<Seq<char>>::empty()
    }
}

/// The interface section of a client's configuration.
spec fn config_head_text(c: ClientConfig, p: WireguardParams) -> Seq<char> {
    "[Interface]\nPrivateKey = "@ + c.private_key@ + "\nAddress = "@ + address_list(c.ipv4, option_text(c.ipv6))
        + "\n"@ + dns_line(c.use_dns, p)
}

/// The interface section is its lines, each ended by a line break.
#[verifier::spinoff_prover]
proof fn lemma_config_head(c: ClientConfig, p: WireguardParams)
    ensures
        config_head_text(c, p) == joined(config_head_lines(c, p), Seq::<char>::empty()),
{
    reveal_strlit("[Interface]\nPrivateKey = ");
    reveal_strlit("\nAddress = ");
    reveal_strlit("\n");
    reveal_strlit("[Interface]");
    reveal_strlit("PrivateKey = ");
    reveal_strlit("Address = ");
    reveal_with_fuel(joined, 5);
    lemma_dns_text(p);
    let h = config_head_lines(c, p);
    if c.use_dns {
        assert(h.drop_first().drop_first().drop_first() =~= seq![dns_text(p)]);
        assert(h.drop_first().drop_first().drop_first().drop_first() =~= Seq::<Seq<char>>::empty());
    } else {
        assert(h.drop_first().drop_first().drop_first() =~= Seq::<Seq<char>>::empty());
    }
    assert(config_head_text(c, p) =~= joined(h, Seq::<char>::empty()));
}

/// A client's configuration is its interface section's lines, each ended by
/// a line break, then the rest.
#[verifier::spinoff_prover]
proof fn lemma_config_split(c: ClientConfig, p: WireguardParams, endpoint_ip: Seq<char>)
    ensures
        client_config_spec(c, p, endpoint_ip) == joined(config_head_lines(c, p), config_tail_text(c, p, endpoint_ip)),
{
    assert(client_config_spec(c, p, endpoint_ip) =~= config_head_text(c, p) + config_tail_text(
        c,
        p,
        endpoint_ip,
    )) by {
        reveal(config_tail_text);
    }
    lemma_config_head(c, p);
    lemma_joined_append(config_head_lines(c, p), Seq::<char>::empty(), config_tail_text(c, p, endpoint_ip));
    assert(Seq::<char>::empty() + config_tail_text(c, p, endpoint_ip) =~= config_tail_text(c, p, endpoint_ip));
}

/// A client's configuration has the line `DNS = <dns1>,<dns2>`, right after
/// its `Address` line, when the client uses the server's DNS servers, and
/// otherwise no line that begins with `DNS =`; no other line begins so. The
/// keys, allowed IPs, IPv6 address and endpoint host are single lines, as
/// `new_client` makes them.
pub proof fn lemma_client_config_dns_line(c: ClientConfig, p: WireguardParams, endpoint_ip: Seq<char>)
    requires
        single_line(c.private_key@),
        single_line(c.preshared_key@),
        single_line(c.allowed_ips@),
        single_line(p.server_pub_key@),
        single_line(endpoint_ip),
        c.ipv6 matches Some(v) ==> single_line(v@),
    ensures
        forall|i: int|
            0 <= i < lines(client_config_spec(c, p, endpoint_ip)).len() ==> (starts_with(
                #[trigger] lines(client_config_spec(c, p, endpoint_ip))[i],
                "DNS ="@,
            ) <==> (c.use_dns && i == 3)),
        c.use_dns ==> lines(client_config_spec(c, p, endpoint_ip))[3] == "DNS = "@ + dotted(
            p.client_dns_1,
        ) + ","@ + dotted(p.client_dns_2),
        lines(client_config_spec(c, p, endpoint_ip))[2] == "Address = "@ + address_list(
            c.ipv4,
            option_text(c.ipv6),
        ),
{
    reveal_strlit("[Interface]");
    reveal_strlit("PrivateKey = ");
    reveal_strlit("Address = ");
    let a = address_list(c.ipv4, option_text(c.ipv6));
    lemma_address_list_single_line(c);
    lemma_dns_text(p);
    lemma_single_line_concat("PrivateKey = "@, c.private_key@);
    lemma_single_line_concat("Address = "@, a);
    let h = config_head_lines(c, p);
    let t = config_tail_text(c, p, endpoint_ip);
    assert(single_line("[Interface]"@));
    assert forall|j: int| 0 <= j < h.len() implies single_line(#[trigger] h[j]) by {
        if j == 3 {
            assert(h[j] == dns_text(p));
        }
    }
    lemma_config_split(c, p, endpoint_ip);
    lemma_lines_joined(h, t);
    lemma_config_tail_lines(c, p, endpoint_ip);
    let ls = lines(client_config_spec(c, p, endpoint_ip));
    let lt = lines(t);
    lemma_dns_start(h[0]);
    lemma_dns_start(h[1]);
    lemma_dns_start(h[2]);
    assert forall|i: int| 0 <= i < ls.len() implies (starts_with(#[trigger] ls[i], "DNS ="@) <==> (
    c.use_dns && i == 3)) by {
        if i >= h.len() {
            assert(ls[i] == lt[i - h.len()]);
        } else {
            assert(ls[i] == h[i]);
        }
    }
}

/// The host that clients reach the server at: the given public address, or
/// else the server's WireGuard address.
pub open spec fn endpoint_host(server_pub_ip: Option<Seq<char>>, p: WireguardParams) -> Seq<char> {
    match server_pub_ip {
        Some(ip) => ip,
        None => dotted(p.server_wg_ipv4),
    }
}

/// The text of a client's configuration file (what `create_client_config_file`
/// writes). `server_pub_ip` is the public address clients connect to, when
/// one is set.
pub fn client_config_text(client: &ClientConfig, params: &WireguardParams, server_pub_ip: Option<&str>) -> (r: String)
    ensures
        r@ == client_config_spec(*client, *params, endpoint_host(option_str(server_pub_ip), *params)),
{
    let host = match server_pub_ip {
        Some(ip) => owned(ip),
        None => params.server_wg_ipv4.to_dotted_string(),
    };
    let endpoint = format_endpoint(host.as_str(), params.server_port);
    let mut out = chars_of("[Interface]\nPrivateKey = ");
    extend_str(&mut out, client.private_key.as_str());
    extend_str(&mut out, "\nAddress = ");
    let addr = address_list_chars(&client.ipv4, &client.ipv6);
    extend(&mut out, &addr);
    extend_str(&mut out, "\n");
    if client.use_dns {
        extend_str(&mut out, "DNS = ");
        let d1 = params.client_dns_1.to_chars();
        extend(&mut out, &d1);
        extend_str(&mut out, ",");
        let d2 = params.client_dns_2.to_chars();
        extend(&mut out, &d2);
        extend_str(&mut out, "\n");
    }
    extend_str(
        &mut out,
        "\n# Uncomment the next line to set a custom MTU\n# This might impact performance, so use it only if you know what you are doing\n# See https://github.com/nitred/nr-wg-mtu-finder to find your optimal MTU\n# MTU = 1420\n\n[Peer]\nPublicKey = ",
    );
    extend_str(&mut out, params.server_pub_key.as_str());
    extend_str(&mut out, "\nPresharedKey = ");
    extend_str(&mut out, client.preshared_key.as_str());
    extend_str(&mut out, "\nEndpoint = ");
    extend_str(&mut out, endpoint.as_str());
    extend_str(&mut out, "\nAllowedIPs = ");
    extend_str(&mut out, client.allowed_ips.as_str());
    assert(out@ =~= client_config_spec(*client, *params, endpoint_host(option_str(server_pub_ip), *params)));
    string_of(&out)
}

/// Name of a client's configuration file: `<interface>-client-<name>.conf`.
pub open spec fn client_file_name(nic: Seq<char>, name: Seq<char>) -> Seq<char> {
    nic + "-client-"@ + name + ".conf"@
}

/// Name of a client's configuration file.
pub fn client_config_file_name(server_wg_nic: &str, client_name: &str) -> (r: String)
    ensures
        r@ == client_file_name(server_wg_nic@, client_name@),
{
    let mut out = chars_of(server_wg_nic);
    extend_str(&mut out, "-client-");
    extend_str(&mut out, client_name);
    extend_str(&mut out, ".conf");
    string_of(&out)
}

/// The header line of a client's block in the server configuration.
pub open spec fn client_header(name: Seq<char>) -> Seq<char> {
    "### Client "@ + name
}

/// The block that adds a client as a peer of the server: a newline, the
/// client header, and the peer section.
pub open spec fn peer_block_spec(c: ClientConfig) -> Seq<char> {
    "\n"@ + client_header(c.name@) + "\n[Peer]\nPublicKey = "@ + c.public_key@
        + "\nPresharedKey = "@ + c.preshared_key@ + "\nAllowedIPs = "@ + address_list(
        c.ipv4,
        option_text(c.ipv6),
    )
}

/// The block appended to the server configuration for a new client (what
/// `add_client_to_server_config` appends).
pub fn server_peer_block(client: &ClientConfig) -> (r: String)
    ensures
        r@ == peer_block_spec(*client),
{
    let mut out = chars_of("\n");
    extend_str(&mut out, "### Client ");
    extend_str(&mut out, client.name.as_str());
    extend_str(&mut out, "\n[Peer]\nPublicKey = ");
    extend_str(&mut out, client.public_key.as_str());
    extend_str(&mut out, "\nPresharedKey = ");
    extend_str(&mut out, client.preshared_key.as_str());
    extend_str(&mut out, "\nAllowedIPs = ");
    let addr = address_list_chars(&client.ipv4, &client.ipv6);
    extend(&mut out, &addr);
    assert(out@ =~= peer_block_spec(*client));
    string_of(&out)
}

// ---------------------------------------------------------------------------
// Client blocks of the server configuration
// ---------------------------------------------------------------------------

/// The client names listed by the given lines: for each line of the form
/// `### Client <rest>`, the trimmed rest.
pub open spec fn client_names(ls: Seq<Seq<char>>) -> Seq<Seq<char>>
    decreases ls.len(),
{
    if ls.len() == 0 {
        seq![]
    } else {
        match client_header_rest(ls[0]) {
            Some(rest) => seq![trim(rest)] + client_names(ls.drop_first()),
            None => client_names(ls.drop_first()),
        }
    }
}

/// The names of the clients in the server configuration text, in order
/// (what `list_clients` and `get_existing_clients` read).
pub fn extract_client_names(config_content: &str) -> (r: Vec<String>)
    ensures
        crate::models::string_views(r@) == client_names(lines(config_content@)),
{
    let v = chars_of(config_content);
    let ls = lines_of(&v);
    let ghost all = lines(config_content@);
    let mut r: Vec<String> = Vec::new();
    let mut i: usize = 0;
    assert(all.skip(0) =~= all);
    assert(crate::models::string_views(r@) + client_names(all) =~= client_names(all));
    while i < ls.len()
        invariant
            i <= ls.len(),
            views(ls@) == all,
            all == lines(config_content@),
            crate::models::string_views(r@) + client_names(all.skip(i as int)) == client_names(all),
        decreases ls.len() - i,
    {
        let line = string_of(&ls[i]);
        let ghost rest = all.skip(i as int);
        assert(rest[0] == line@);
        assert(rest.drop_first() =~= all.skip(i + 1));
        let g = regex_first_group("^### Client (.+)$", line.as_str());
        let ghost before = crate::models::string_views(r@);
        match g {
            Some(Some(m)) => {
                let mc = chars_of(m.as_str());
                let t = trim_chars(&mc);
                r.push(string_of(&t));
                assert(crate::models::string_views(r@) =~= before.push(t@));
                assert(crate::models::string_views(r@) + client_names(all.skip(i + 1)) =~= before
                    + client_names(rest));
            },
            _ => {},
        }
        i += 1;
    }
    assert(all.skip(i as int) =~= Seq::<Seq<char>>::empty());
    assert(crate::models::string_views(r@) + client_names(all.skip(i as int)) =~= crate::models::string_views(r@));
    r
}

/// The client list as `list_clients` and `revoke_client` print it: a count
/// line (`Found 1 client:`, `Found 3 clients:`), then `  <n>) <name>` for
/// each client, numbered from 1.
pub open spec fn client_list_spec(names: Seq<Seq<char>>) -> Seq<Seq<char>> {
    seq![
        "Found "@ + dec(names.len()) + (if names.len() == 1 {
            " client:"@
        } else {
            " clients:"@
        }),
    ] + Seq::new(names.len(), |i: int| "  "@ + dec((i + 1) as nat) + ") "@ + names[i])
}

/// The lines that list the clients.
pub fn client_list_lines(clients: &Vec<String>) -> (r: Vec<String>)
    ensures
        crate::models::string_views(r@) == client_list_spec(crate::models::string_views(clients@)),
{
    let ghost names = crate::models::string_views(clients@);
    let mut r: Vec<String> = Vec::new();
    let mut head = chars_of("Found ");
    let n = dec_chars(clients.len() as u64);
    extend(&mut head, &n);
    if clients.len() == 1 {
        extend_str(&mut head, " client:");
    } else {
        extend_str(&mut head, " clients:");
    }
    r.push(string_of(&head));
    let mut i: usize = 0;
    while i < clients.len()
        invariant
            i <= clients.len(),
            names == crate::models::string_views(clients@),
            crate::models::string_views(r@) == client_list_spec(names).take(i + 1),
        decreases clients.len() - i,
    {
        let mut line = chars_of("  ");
        let k = dec_chars((i as u64) + 1);
        extend(&mut line, &k);
        extend_str(&mut line, ") ");
        extend_str(&mut line, clients[i].as_str());
        let ghost before = r@;
        let l = string_of(&line);
        r.push(l);
        proof {
            assert(names[i as int] == clients@[i as int]@);
            assert(client_list_spec(names)[i + 1] == "  "@ + dec((i + 1) as nat) + ") "@ + names[i as int]);
            assert(l@ =~= client_list_spec(names)[i + 1]);
            assert(crate::models::string_views(r@) =~= crate::models::string_views(before).push(l@));
            assert(client_list_spec(names).take(i + 2) =~= client_list_spec(names).take(i + 1).push(
                client_list_spec(names)[i + 1],
            ));
        }
        i += 1;
    }
    assert(client_list_spec(names).take(i + 1) =~= client_list_spec(names));
    r
}

/// The lines `line\n` one after the other.
pub open spec fn join_lines(ls: Seq<Seq<char>>) -> Seq<char>
    decreases ls.len(),
{
    if ls.len() == 0 {
        Seq::<char>::empty()
    } else {
        ls[0] + seq!['\n'] + join_lines(ls.drop_first())
    }
}

/// The lines kept when the block of the client whose header is `header` is
/// removed. The block runs from its header up to, and not including, the
/// first blank line or the next client header; `skipping` tells whether the
/// lines are inside such a block.
pub open spec fn kept_lines(ls: Seq<Seq<char>>, header: Seq<char>, skipping: bool) -> Seq<Seq<char>>
    decreases ls.len(),
{
    if ls.len() == 0 {
        seq![]
    } else {
        let l = ls[0];
        if l == header {
            kept_lines(ls.drop_first(), header, true)
        } else if skipping && trim(l).len() != 0 && client_header_rest(l) is None {
            kept_lines(ls.drop_first(), header, true)
        } else {
            seq![l] + kept_lines(ls.drop_first(), header, false)
        }
    }
}

/// Removes a client's block from the text of the server configuration (the
/// text that `remove_client_from_config` writes back).
pub fn remove_client_from_config(content: &str, client_name: &str) -> (r: String)
    ensures
        r@ == crate::text::trim_end(
            join_lines(kept_lines(lines(content@), client_header(client_name@), false)),
        ),
{
    let v = chars_of(content);
    let ls = lines_of(&v);
    let ghost all = lines(content@);
    let mut header = chars_of("### Client ");
    extend_str(&mut header, client_name);
    let ghost h = client_header(client_name@);
    let mut out: Vec<char> = Vec::new();
    let mut skip_block = false;
    let mut i: usize = 0;
    assert(all.skip(0) =~= all);
    while i < ls.len()
        invariant
            i <= ls.len(),
            views(ls@) == all,
            all == lines(content@),
            header@ == h,
            h == client_header(client_name@),
            join_lines(kept_lines(all, h, false)) == out@ + join_lines(
                kept_lines(all.skip(i as int), h, skip_block),
            ),
        decreases ls.len() - i,
    {
        let ghost rest = all.skip(i as int);
        assert(rest[0] == ls@[i as int]@);
        assert(rest.drop_first() =~= all.skip(i + 1));
        let line = &ls[i];
        if chars_eq(line, &header) {
            skip_block = true;
        } else {
            let t = trim_chars(line);
            let line_str = string_of(line);
            let g = regex_first_group("^### Client (.+)$", line_str.as_str());
            let is_header = match g {
                Some(Some(_)) => true,
                _ => false,
            };
            if skip_block && t.len() != 0 && !is_header {
                // inside the removed block
            } else {
                let ghost before = out@;
                extend(&mut out, line);
                out.push('\n');
                assert(out@ =~= before + (line@ + seq!['\n']));
                let ghost tail = kept_lines(all.skip(i + 1), h, false);
                assert(line@ != h);
                assert(kept_lines(rest, h, skip_block) == seq![line@] + tail);
                assert((seq![line@] + tail)[0] == line@);
                assert((seq![line@] + tail).drop_first() =~= tail);
                assert(join_lines(kept_lines(rest, h, skip_block)) =~= line@ + seq!['\n'] + join_lines(
                    kept_lines(all.skip(i + 1), h, false),
                ));
                skip_block = false;
            }
        }
        i += 1;
    }
    assert(all.skip(i as int) =~= Seq::<Seq<char>>::empty());
    assert(out@ + join_lines(kept_lines(all.skip(i as int), h, skip_block)) =~= out@);
    let t = crate::text::trim_end_chars(&out);
    string_of(&t)
}

/// Removing a client never keeps its header line.
pub proof fn lemma_removed_header_gone(ls: Seq<Seq<char>>, header: Seq<char>, skipping: bool)
    ensures
        !kept_lines(ls, header, skipping).contains(header),
    decreases ls.len(),
{
    if ls.len() > 0 {
        lemma_removed_header_gone(ls.drop_first(), header, ls[0] == header || (skipping && trim(
            ls[0],
        ).len() != 0 && client_header_rest(ls[0]) is None));
        let k = kept_lines(ls, header, skipping);
        if !(ls[0] == header) && !(skipping && trim(ls[0]).len() != 0 && client_header_rest(ls[0]) is None) {
            let tail = kept_lines(ls.drop_first(), header, false);
            assert(k == seq![ls[0]] + tail);
            if k.contains(header) {
                let j = choose|j: int| 0 <= j < k.len() && k[j] == header;
                if j > 0 {
                    assert(tail[j - 1] == header);
                }
            }
        }
    }
}

/// The lines that list a client, in order.
pub open spec fn header_lines(ls: Seq<Seq<char>>) -> Seq<Seq<char>>
    decreases ls.len(),
{
    if ls.len() == 0 {
        seq![]
    } else if client_header_rest(ls[0]) is Some {
        seq![ls[0]] + header_lines(ls.drop_first())
    } else {
        header_lines(ls.drop_first())
    }
}

/// The lines other than `h`, in order.
pub open spec fn without_line(ls: Seq<Seq<char>>, h: Seq<char>) -> Seq<Seq<char>>
    decreases ls.len(),
{
    if ls.len() == 0 {
        seq![]
    } else if ls[0] == h {
        without_line(ls.drop_first(), h)
    } else {
        seq![ls[0]] + without_line(ls.drop_first(), h)
    }
}

/// Removing a client keeps every other client's header line, in order: the
/// header lines kept are those of the text without the removed client's.
pub proof fn lemma_other_headers_kept(ls: Seq<Seq<char>>, header: Seq<char>, skipping: bool)
    ensures
        header_lines(kept_lines(ls, header, skipping)) == without_line(header_lines(ls), header),
    decreases ls.len(),
{
    if ls.len() > 0 {
        let l = ls[0];
        let rest = ls.drop_first();
        let next = l == header || (skipping && trim(l).len() != 0 && client_header_rest(l) is None);
        lemma_other_headers_kept(rest, header, next);
        let hr = header_lines(rest);
        if client_header_rest(l) is Some {
            let hl = seq![l] + hr;
            assert(hl[0] == l);
            assert(hl.drop_first() =~= hr);
        }
        if !(l == header) && !(skipping && trim(l).len() != 0 && client_header_rest(l) is None) {
            let tail = kept_lines(rest, header, false);
            let k = seq![l] + tail;
            assert(k[0] == l);
            assert(k.drop_first() =~= tail);
            if client_header_rest(l) is Some {
                let hk = seq![l] + header_lines(tail);
                assert(hk[0] == l);
                assert(hk.drop_first() =~= header_lines(tail));
            }
        }
    }
}

/// When no line is the client's header, every line is kept.
pub proof fn lemma_absent_client_keeps_all(ls: Seq<Seq<char>>, header: Seq<char>)
    requires
        !ls.contains(header),
    ensures
        kept_lines(ls, header, false) == ls,
    decreases ls.len(),
{
    if ls.len() > 0 {
        assert(!ls.drop_first().contains(header)) by {
            if ls.drop_first().contains(header) {
                let j = choose|j: int| 0 <= j < ls.drop_first().len() && ls.drop_first()[j] == header;
                assert(ls[j + 1] == header);
            }
        }
        lemma_absent_client_keeps_all(ls.drop_first(), header);
        assert(ls[0] != header);
        assert(seq![ls[0]] + ls.drop_first() =~= ls);
    }
}

// ---------------------------------------------------------------------------
// An added client is listed
// ---------------------------------------------------------------------------

/// Text that holds no newline and no carriage return.
pub open spec fn single_line(s: Seq<char>) -> bool {
    forall|k: int| 0 <= k < s.len() ==> #[trigger] s[k] != '\n' && s[k] != '\r'
}

/// The peer section of a client's block, after its header line.
pub open spec fn peer_tail(c: ClientConfig) -> Seq<char> {
    "[Peer]\nPublicKey = "@ + c.public_key@ + "\nPresharedKey = "@ + c.preshared_key@
        + "\nAllowedIPs = "@ + address_list(c.ipv4, option_text(c.ipv6))
}

/// The client names of two runs of lines are those of each, in order.
pub proof fn lemma_client_names_append(a: Seq<Seq<char>>, b: Seq<Seq<char>>)
    ensures
        client_names(a + b) == client_names(a) + client_names(b),
    decreases a.len(),
{
    if a.len() == 0 {
        assert(a + b =~= b);
        assert(client_names(a) + client_names(b) =~= client_names(b));
    } else {
        assert((a + b).drop_first() =~= a.drop_first() + b);
        assert((a + b)[0] == a[0]);
        lemma_client_names_append(a.drop_first(), b);
        match client_header_rest(a[0]) {
            Some(rest) => {
                assert(seq![trim(rest)] + (client_names(a.drop_first()) + client_names(b)) =~= (seq![
                    trim(rest),
                ] + client_names(a.drop_first())) + client_names(b));
            },
            None => {},
        }
    }
}

/// The client names of a single line.
proof fn lemma_client_names_single(l: Seq<char>)
    ensures
        client_names(seq![l]) == match client_header_rest(l) {
            Some(r) => seq![trim(r)],
            None => Seq::<Seq<char>>::empty(),
        },
{
    let s = seq![l];
    assert(s[0] == l);
    assert(s.drop_first() =~= Seq::<Seq<char>>::empty());
    assert(client_names(Seq::<Seq<char>>::empty()) == Seq::<Seq<char>>::empty());
    match client_header_rest(l) {
        Some(r) => {
            assert(seq![trim(r)] + Seq::<Seq<char>>::empty() =~= seq![trim(r)]);
        },
        None => {},
    }
}

/// A line whose first character is not `#` lists no client.
proof fn lemma_not_header(l: Seq<char>)
    requires
        l.len() > 0,
        l[0] != '#',
    ensures
        client_header_rest(l) is None,
{
    reveal_strlit("### Client ");
    if l.len() > 11 {
        assert(l.take(11)[0] == l[0]);
    }
}

/// Text made of a literal prefix and a single-line part is a single line.
proof fn lemma_single_line_concat(a: Seq<char>, b: Seq<char>)
    requires
        single_line(a),
        single_line(b),
    ensures
        single_line(a + b),
{
    assert forall|k: int| 0 <= k < (a + b).len() implies #[trigger] (a + b)[k] != '\n' && (a
        + b)[k] != '\r' by {
        if k < a.len() {
            assert((a + b)[k] == a[k]);
        } else {
            assert((a + b)[k] == b[k - a.len()]);
        }
    }
}

/// Text that holds no carriage return.
spec fn no_cr(s: Seq<char>) -> bool {
    forall|k: int| 0 <= k < s.len() ==> #[trigger] s[k] != '\r'
}

/// Two pieces without carriage returns, joined by a line break, hold none.
proof fn lemma_no_cr_join(a: Seq<char>, b: Seq<char>)
    requires
        no_cr(a) || single_line(a),
        no_cr(b) || single_line(b),
    ensures
        no_cr(a + seq!['\n'] + b),
{
    let s = a + seq!['\n'] + b;
    assert forall|k: int| 0 <= k < s.len() implies #[trigger] s[k] != '\r' by {
        if k < a.len() {
            assert(s[k] == a[k]);
        } else if k > a.len() {
            assert(s[k] == b[k - a.len() - 1]);
        }
    }
}

/// The peer section lists no client; it holds no carriage return and ends
/// its last line without a line break.
proof fn lemma_peer_tail_lists_none(c: ClientConfig)
    requires
        single_line(c.public_key@),
        single_line(c.preshared_key@),
        c.ipv6 matches Some(v) ==> single_line(v@),
    ensures
        client_names(lines(peer_tail(c))) == Seq::<Seq<char>>::empty(),
        forall|i: int|
            0 <= i < lines(peer_tail(c)).len() ==> trim(#[trigger] lines(peer_tail(c))[i]).len() != 0
                && client_header_rest(lines(peer_tail(c))[i]) is None,
        no_cr(peer_tail(c)),
        peer_tail(c).len() > 0,
        peer_tail(c).last() != '\n',
        peer_tail(c).last() != '\r',
{
    reveal_strlit("[Peer]\nPublicKey = ");
    reveal_strlit("\nPresharedKey = ");
    reveal_strlit("\nAllowedIPs = ");
    reveal_strlit("[Peer]");
    reveal_strlit("PublicKey = ");
    reveal_strlit("PresharedKey = ");
    reveal_strlit("AllowedIPs = ");
    reveal_strlit("/32");
    reveal_strlit(",");
    reveal_strlit("/128");
    let addrs = address_list(c.ipv4, option_text(c.ipv6));
    assert(single_line(dotted(c.ipv4))) by {
        assert forall|k: int| 0 <= k < dotted(c.ipv4).len() implies #[trigger] dotted(c.ipv4)[k]
            != '\n' && dotted(c.ipv4)[k] != '\r' by {
            crate::install::lemma_dotted_chars(c.ipv4, k);
        }
    }
    assert(single_line(addrs)) by {
        lemma_single_line_concat(dotted(c.ipv4), "/32"@);
        match c.ipv6 {
            Some(v) => {
                lemma_single_line_concat(dotted(c.ipv4) + "/32"@, ","@);
                lemma_single_line_concat(dotted(c.ipv4) + "/32"@ + ","@, v@);
                lemma_single_line_concat(dotted(c.ipv4) + "/32"@ + ","@ + v@, "/128"@);
            },
            None => {},
        }
    }
    let p1 = "[Peer]"@;
    let p2 = "PublicKey = "@ + c.public_key@;
    let p3 = "PresharedKey = "@ + c.preshared_key@;
    let p4 = "AllowedIPs = "@ + addrs;
    lemma_single_line_concat("PublicKey = "@, c.public_key@);
    lemma_single_line_concat("PresharedKey = "@, c.preshared_key@);
    lemma_single_line_concat("AllowedIPs = "@, addrs);
    assert(peer_tail(c) =~= p1 + seq!['\n'] + (p2 + seq!['\n'] + (p3 + seq!['\n'] + p4)));
    assert(single_line(p1));
    lemma_no_cr_join(p3, p4);
    lemma_no_cr_join(p2, p3 + seq!['\n'] + p4);
    lemma_no_cr_join(p1, p2 + seq!['\n'] + (p3 + seq!['\n'] + p4));
    assert(p4.len() > 0 && p4.last() != '\n' && p4.last() != '\r');
    assert(peer_tail(c).last() == p4.last());
    assert(p2.last() != '\n' && p2.last() != '\r');
    assert(p3.last() != '\n' && p3.last() != '\r');
    lemma_lines_join(p1, p2 + seq!['\n'] + (p3 + seq!['\n'] + p4));
    lemma_lines_join(p2, p3 + seq!['\n'] + p4);
    lemma_lines_join(p3, p4);
    lemma_lines_last(p1);
    lemma_lines_last(p2);
    lemma_lines_last(p3);
    lemma_lines_last(p4);
    let ls = seq![p1] + (seq![p2] + (seq![p3] + seq![p4]));
    assert(lines(peer_tail(c)) == ls);
    lemma_not_header(p1);
    lemma_not_header(p2);
    lemma_not_header(p3);
    lemma_not_header(p4);
    lemma_client_names_append(seq![p1], seq![p2] + (seq![p3] + seq![p4]));
    lemma_client_names_append(seq![p2], seq![p3] + seq![p4]);
    lemma_client_names_append(seq![p3], seq![p4]);
    lemma_client_names_single(p1);
    lemma_client_names_single(p2);
    lemma_client_names_single(p3);
    lemma_client_names_single(p4);
    crate::text::lemma_trim_end_keeps_first(p1);
    crate::text::lemma_trim_end_keeps_first(p2);
    crate::text::lemma_trim_end_keeps_first(p3);
    crate::text::lemma_trim_end_keeps_first(p4);
    assert(crate::text::trim_start(p1) == p1);
    assert(crate::text::trim_start(p2) == p2);
    assert(crate::text::trim_start(p3) == p3);
    assert(crate::text::trim_start(p4) == p4);
    assert forall|i: int| 0 <= i < ls.len() implies trim(#[trigger] ls[i]).len() != 0
        && client_header_rest(ls[i]) is None by {
        if i == 0 {
            assert(ls[i] == p1);
        } else if i == 1 {
            assert(ls[i] == p2);
        } else if i == 2 {
            assert(ls[i] == p3);
        } else {
            assert(ls[i] == p4);
        }
    }
}

/// A client added to the server configuration is then listed: the names read
/// from the configuration with the client's peer block appended are the
/// names read before, followed by the new client's name. The name is one that
/// `check_client_name` accepts; keys and address are single lines.
pub proof fn lemma_added_client_listed(config: Seq<char>, c: ClientConfig)
    requires
        config.len() > 0 ==> config.last() != '\r',
        c.name@.len() > 0,
        forall|i: int| 0 <= i < c.name@.len() ==> is_name_char(#[trigger] c.name@[i]),
        single_line(c.public_key@),
        single_line(c.preshared_key@),
        c.ipv6 matches Some(v) ==> single_line(v@),
    ensures
        client_names(lines(config + peer_block_spec(c))) == client_names(lines(config)) + seq![
            c.name@,
        ],
{
    let name = c.name@;
    let h = client_header(name);
    let lt = lines(peer_tail(c));
    lemma_block_lines(config, c);
    lemma_peer_tail_lists_none(c);
    crate::text::lemma_trim_fixed(name);
    assert(client_header_rest(h) == Some(name)) by {
        reveal_strlit("### Client ");
        assert(h.take(11) =~= "### Client "@);
        assert(h.skip(11) =~= name);
    }
    lemma_client_names_single(h);
    lemma_client_names_append(seq![h], lt);
    assert(client_names(seq![h] + lt) =~= seq![name]);
    let pre = lines_before_block(config);
    lemma_client_names_append(pre, seq![h] + lt);
    if config.len() == 0 || config.last() == '\n' {
        let blank = seq![Seq::<char>::empty()];
        assert(client_header_rest(Seq::<char>::empty()) is None);
        lemma_client_names_single(Seq::<char>::empty());
        lemma_client_names_append(lines(config), blank);
        assert(client_names(lines(config)) + Seq::<Seq<char>>::empty() =~= client_names(lines(config)));
    }
}

/// Lines that name no client's header, before the rest, are kept unchanged.
proof fn lemma_kept_prefix(a: Seq<Seq<char>>, b: Seq<Seq<char>>, header: Seq<char>)
    requires
        !a.contains(header),
    ensures
        kept_lines(a + b, header, false) == a + kept_lines(b, header, false),
    decreases a.len(),
{
    if a.len() == 0 {
        assert(a + b =~= b);
        assert(a + kept_lines(b, header, false) =~= kept_lines(b, header, false));
    } else {
        assert((a + b)[0] == a[0]);
        assert((a + b).drop_first() =~= a.drop_first() + b);
        assert(a[0] != header);
        assert(!a.drop_first().contains(header)) by {
            if a.drop_first().contains(header) {
                let j = choose|j: int| 0 <= j < a.drop_first().len() && a.drop_first()[j] == header;
                assert(a[j + 1] == header);
            }
        }
        lemma_kept_prefix(a.drop_first(), b, header);
        assert(seq![a[0]] + (a.drop_first() + kept_lines(b, header, false)) =~= a + kept_lines(
            b,
            header,
            false,
        ));
    }
}

/// Inside a removed block, nonblank lines that are not client headers are
/// dropped, and what follows them is read as still inside the block.
proof fn lemma_kept_skips_block(ls: Seq<Seq<char>>, more: Seq<Seq<char>>, header: Seq<char>)
    requires
        client_header_rest(header) is Some,
        forall|i: int|
            0 <= i < ls.len() ==> trim(#[trigger] ls[i]).len() != 0 && client_header_rest(ls[i])
                is None,
    ensures
        kept_lines(ls + more, header, true) == kept_lines(more, header, true),
    decreases ls.len(),
{
    if ls.len() == 0 {
        assert(ls + more =~= more);
    } else {
        assert(trim(ls[0]).len() != 0 && client_header_rest(ls[0]) is None);
        assert((ls + more)[0] == ls[0]);
        assert((ls + more).drop_first() =~= ls.drop_first() + more);
        assert forall|i: int| 0 <= i < ls.drop_first().len() implies trim(
            #[trigger] ls.drop_first()[i],
        ).len() != 0 && client_header_rest(ls.drop_first()[i]) is None by {
            assert(ls.drop_first()[i] == ls[i + 1]);
        }
        lemma_kept_skips_block(ls.drop_first(), more, header);
    }
}

/// The lines of two runs, each followed by a newline, one after the other.
proof fn lemma_join_lines_append(a: Seq<Seq<char>>, b: Seq<Seq<char>>)
    ensures
        join_lines(a + b) == join_lines(a) + join_lines(b),
    decreases a.len(),
{
    if a.len() == 0 {
        assert(a + b =~= b);
        assert(join_lines(a) + join_lines(b) =~= join_lines(b));
    } else {
        assert((a + b)[0] == a[0]);
        assert((a + b).drop_first() =~= a.drop_first() + b);
        lemma_join_lines_append(a.drop_first(), b);
        assert(a[0] + seq!['\n'] + (join_lines(a.drop_first()) + join_lines(b)) =~= (a[0] + seq![
            '\n',
        ] + join_lines(a.drop_first())) + join_lines(b));
    }
}

/// Revoking a client right after adding it gives back the server
/// configuration as it was, up to white space at its end: removing the block
/// of the client just appended keeps exactly the lines of the configuration
/// before. The configuration has no carriage returns and no block of a client
/// of that name; the client is one that `new_client` creates.
pub proof fn lemma_revoke_undoes_add(config: Seq<char>, c: ClientConfig)
    requires
        forall|k: int| 0 <= k < config.len() ==> #[trigger] config[k] != '\r',
        !lines(config).contains(client_header(c.name@)),
        c.name@.len() > 0,
        forall|i: int| 0 <= i < c.name@.len() ==> is_name_char(#[trigger] c.name@[i]),
        single_line(c.public_key@),
        single_line(c.preshared_key@),
        c.ipv6 matches Some(v) ==> single_line(v@),
    ensures
        crate::text::trim_end(
            join_lines(kept_lines(lines(config + peer_block_spec(c)), client_header(c.name@), false)),
        ) == crate::text::trim_end(config),
{
    let h = client_header(c.name@);
    let lt = lines(peer_tail(c));
    lemma_block_lines(config, c);
    lemma_kept_skips_block(lt, Seq::<Seq<char>>::empty(), h);
    assert(lt + Seq::<Seq<char>>::empty() =~= lt);
    let hl = seq![h] + lt;
    assert(hl[0] == h);
    assert(hl.drop_first() =~= lt);
    assert(kept_lines(hl, h, false) == Seq::<Seq<char>>::empty());
    let pre = lines_before_block(config);
    assert(!pre.contains(h)) by {
        reveal_strlit("### Client ");
        if pre.contains(h) {
            let j = choose|j: int| 0 <= j < pre.len() && pre[j] == h;
            if j < lines(config).len() {
                assert(lines(config)[j] == h);
            } else {
                assert(h.len() > 0);
            }
        }
    }
    lemma_kept_prefix(pre, hl, h);
    assert(pre + Seq::<Seq<char>>::empty() =~= pre);
    crate::text::lemma_join_lines_of_lines(config);
    assert(crate::text::is_ws('\n'));
    if config.len() == 0 || config.last() == '\n' {
        let blank = seq![Seq::<char>::empty()];
        lemma_join_lines_append(lines(config), blank);
        assert(blank[0] == Seq::<char>::empty());
        assert(blank.drop_first() =~= Seq::<Seq<char>>::empty());
        assert(join_lines(Seq::<Seq<char>>::empty()) == Seq::<char>::empty());
        assert(Seq::<char>::empty() + seq!['\n'] + Seq::<char>::empty() =~= seq!['\n']);
        assert(join_lines(blank) =~= seq!['\n']);
    }
    crate::text::lemma_trim_end_drops_ws(config, seq!['\n']);
}

/// The lines in front of an appended peer block that come from the text
/// before it: that text's lines, and a blank line where the text was empty
/// or ended its last line.
spec fn lines_before_block(config: Seq<char>) -> Seq<Seq<char>> {
    if config.len() == 0 || config.last() == '\n' {
        lines(config) + seq![Seq::<char>::empty()]
    } else {
        lines(config)
    }
}

/// The lines of a configuration with a client's peer block appended: those
/// before it, the client's header, then the lines of the peer section. The
/// text then ends its last line without a line break, and the block holds no
/// carriage return.
proof fn lemma_block_lines(config: Seq<char>, c: ClientConfig)
    requires
        config.len() > 0 ==> config.last() != '\r',
        c.name@.len() > 0,
        forall|i: int| 0 <= i < c.name@.len() ==> is_name_char(#[trigger] c.name@[i]),
        single_line(c.public_key@),
        single_line(c.preshared_key@),
        c.ipv6 matches Some(v) ==> single_line(v@),
    ensures
        lines(config + peer_block_spec(c)) == lines_before_block(config) + (seq![
            client_header(c.name@),
        ] + lines(peer_tail(c))),
        (config + peer_block_spec(c)).len() > 0,
        (config + peer_block_spec(c)).last() != '\n',
        (config + peer_block_spec(c)).last() != '\r',
        no_cr(peer_block_spec(c)),
        client_header_rest(client_header(c.name@)) is Some,
        forall|i: int|
            0 <= i < lines(peer_tail(c)).len() ==> trim(#[trigger] lines(peer_tail(c))[i]).len() != 0
                && client_header_rest(lines(peer_tail(c))[i]) is None,
{
    reveal_strlit("### Client ");
    reveal_strlit("\n");
    reveal_strlit("\n[Peer]\nPublicKey = ");
    reveal_strlit("[Peer]\nPublicKey = ");
    let name = c.name@;
    let h = client_header(name);
    let t = peer_tail(c);
    let b = peer_block_spec(c);
    let rest = h + seq!['\n'] + t;
    assert(b =~= seq!['\n'] + rest);
    assert(!is_name_char('\n') && !is_name_char('\r'));
    assert forall|k: int| 0 <= k < h.len() implies #[trigger] h[k] != '\n' && h[k] != '\r' by {
        if k >= 11 {
            assert(h[k] == name[k - 11]);
        }
    }
    assert(h.last() == name.last());
    lemma_lines_join(h, t);
    lemma_lines_last(h);
    lemma_peer_tail_lists_none(c);
    assert(client_header_rest(h) is Some) by {
        assert(h.take(11) =~= "### Client "@);
        assert(h.skip(11) =~= name);
    }
    assert(lines(rest) == seq![h] + lines(t));
    lemma_no_cr_join(h, t);
    assert(no_cr(b)) by {
        assert forall|k: int| 0 <= k < b.len() implies #[trigger] b[k] != '\r' by {
            if k > 0 {
                assert(b[k] == rest[k - 1]);
            }
        }
    }
    assert((config + b).last() == t.last()) by {
        assert(config + b =~= (config + seq!['\n'] + h + seq!['\n']) + t);
    }
    if config.len() == 0 || config.last() == '\n' {
        crate::text::lemma_lines_after_break(config, b);
        crate::text::lemma_lines_after_break(seq!['\n'], rest);
        lemma_lines_step(seq!['\n'], 0);
        assert(seq!['\n'].take(0) =~= Seq::<char>::empty());
        assert(seq!['\n'].skip(1) =~= Seq::<char>::empty());
        assert(lines(seq!['\n']) =~= seq![Seq::<char>::empty()]);
        assert(seq!['\n'] + rest =~= b);
    } else {
        crate::text::lemma_lines_join(config, rest);
        assert(config + seq!['\n'] + rest =~= config + b);
    }
}

/// Revoking the earlier of two clients added one after the other leaves the
/// configuration with only the later one added, up to white space at its
/// end: removing the first client's block keeps every line before it and the
/// whole block of the second. The configuration has no carriage returns and
/// no block of the first client's name; the two clients have different names
/// and are ones that `new_client` creates.
pub proof fn lemma_revoke_earlier_keeps_later(config: Seq<char>, a: ClientConfig, b: ClientConfig)
    requires
        forall|k: int| 0 <= k < config.len() ==> #[trigger] config[k] != '\r',
        !lines(config).contains(client_header(a.name@)),
        a.name@ != b.name@,
        a.name@.len() > 0,
        forall|i: int| 0 <= i < a.name@.len() ==> is_name_char(#[trigger] a.name@[i]),
        single_line(a.public_key@),
        single_line(a.preshared_key@),
        a.ipv6 matches Some(v) ==> single_line(v@),
        b.name@.len() > 0,
        forall|i: int| 0 <= i < b.name@.len() ==> is_name_char(#[trigger] b.name@[i]),
        single_line(b.public_key@),
        single_line(b.preshared_key@),
        b.ipv6 matches Some(v) ==> single_line(v@),
    ensures
        kept_lines(
            lines(config + peer_block_spec(a) + peer_block_spec(b)),
            client_header(a.name@),
            false,
        ) == lines(config + peer_block_spec(b)),
        crate::text::trim_end(
            join_lines(
                kept_lines(
                    lines(config + peer_block_spec(a) + peer_block_spec(b)),
                    client_header(a.name@),
                    false,
                ),
            ),
        ) == crate::text::trim_end(config + peer_block_spec(b)),
{
    reveal_strlit("### Client ");
    let ha = client_header(a.name@);
    let hb = client_header(b.name@);
    let lta = lines(peer_tail(a));
    let ltb = lines(peer_tail(b));
    let x = config + peer_block_spec(a);
    lemma_block_lines(config, a);
    lemma_block_lines(x, b);
    lemma_block_lines(config, b);
    let pre = lines_before_block(config);
    let whole = lines(x + peer_block_spec(b));
    assert(lines_before_block(x) == lines(x));
    assert(whole =~= pre + (seq![ha] + (lta + (seq![hb] + ltb))));
    assert(!pre.contains(ha)) by {
        if pre.contains(ha) {
            let j = choose|j: int| 0 <= j < pre.len() && pre[j] == ha;
            if j < lines(config).len() {
                assert(lines(config)[j] == ha);
            } else {
                assert(ha.len() > 0);
            }
        }
    }
    lemma_kept_prefix(pre, seq![ha] + (lta + (seq![hb] + ltb)), ha);
    let s1 = seq![ha] + (lta + (seq![hb] + ltb));
    assert(s1[0] == ha);
    assert(s1.drop_first() =~= lta + (seq![hb] + ltb));
    lemma_kept_skips_block(lta, seq![hb] + ltb, ha);
    assert(hb != ha) by {
        if hb == ha {
            assert(hb.skip(11) =~= b.name@);
            assert(ha.skip(11) =~= a.name@);
        }
    }
    let s2 = seq![hb] + ltb;
    assert(s2[0] == hb);
    assert(s2.drop_first() =~= ltb);
    assert(!ltb.contains(ha)) by {
        if ltb.contains(ha) {
            let j = choose|j: int| 0 <= j < ltb.len() && ltb[j] == ha;
            assert(client_header_rest(ltb[j]) is None);
        }
    }
    lemma_absent_client_keeps_all(ltb, ha);
    assert(kept_lines(whole, ha, false) =~= pre + (seq![hb] + ltb));
    let y = config + peer_block_spec(b);
    assert(no_cr(y)) by {
        assert forall|k: int| 0 <= k < y.len() implies #[trigger] y[k] != '\r' by {
            if k >= config.len() {
                assert(y[k] == peer_block_spec(b)[k - config.len()]);
            } else {
                assert(y[k] == config[k]);
            }
        }
    }
    crate::text::lemma_join_lines_of_lines(y);
    assert(crate::text::is_ws('\n'));
    crate::text::lemma_trim_end_drops_ws(y, seq!['\n']);
}

// ---------------------------------------------------------------------------
// QR code and revocation report
// ---------------------------------------------------------------------------

/// The outcome of rendering a QR code, as `generate_qr_code` reports it.
pub open spec fn qr_outcome_spec(rendered: Result<Seq<char>, Seq<char>>) -> Result<Seq<char>, Seq<char>> {
    match rendered {
        Ok(p) => Ok(p),
        Err(e) => Err("Failed to generate QR code: "@ + e),
    }
}

/// Reports the outcome of rendering a QR code.
pub fn qr_outcome(rendered: Result<String, String>) -> (r: Result<String, String>)
    ensures
        text_result_eq(r, qr_outcome_spec(crate::text::text_result(rendered))),
{
    match rendered {
        Ok(p) => Ok(p),
        Err(e) => {
            let mut msg = chars_of("Failed to generate QR code: ");
            extend_str(&mut msg, e.as_str());
            Err(string_of(&msg))
        },
    }
}

/// The QR code of a client configuration, drawn in Unicode half blocks with
/// light and dark swapped for terminals with a dark background.
pub fn qr_code_text(config_content: &str) -> (r: Result<String, String>)
    ensures
        text_result_eq(r, qr_outcome_spec(crate::outside::qr_render(config_content@, true))),
{
    let rendered = crate::outside::render_qr(config_content, true);
    qr_outcome(rendered)
}

/// How a revocation went, from the number of steps that succeeded and failed.
#[derive(Clone, Copy, Debug, PartialEq, Eq, Structural)]
pub enum RevocationOutcome {
    /// Every step succeeded.
    Revoked,
    /// Some steps failed and some succeeded.
    PartiallyRevoked,
    /// Every step failed.
    Failed,
}

/// Classifies a revocation: revoked when nothing failed, failed when nothing
/// succeeded, partial otherwise.
pub fn revocation_outcome(successes: usize, errors: usize) -> (r: RevocationOutcome)
    ensures
        r == (if errors == 0 {
            RevocationOutcome::Revoked
        } else if successes == 0 {
            RevocationOutcome::Failed
        } else {
            RevocationOutcome::PartiallyRevoked
        }),
{
    if errors == 0 {
        RevocationOutcome::Revoked
    } else if successes == 0 {
        RevocationOutcome::Failed
    } else {
        RevocationOutcome::PartiallyRevoked
    }
}

} // verus!
