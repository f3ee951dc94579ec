//! The data the installer keeps: install answers, OS version numbers and the
//! multi-interface configuration with its table of interfaces.

use vstd::prelude::*;
use crate::ipv4::Ipv4;
use crate::numtext::{dec, dec_chars, lemma_dec_injective, parse_unsigned, parse_unsigned_chars};
use crate::text::{chars_eq, chars_of, extend, split_chars, split_on, string_of};

verus! {

/// The answers of the installation questions.
pub struct InstallAnswers {
    pub server_pub_ip: Ipv4,
    pub server_public_nic: String,
    pub server_pub_ipv6: Option<String>,
    pub server_wg_nic: String,
    pub server_wg_ip: Ipv4,
    pub server_wg_subnet: String,
    pub server_wg_port: u16,
    pub server_priv_key: String,
    pub server_pub_key: String,
    pub client_dns_1: Ipv4,
    pub client_dns_2: Ipv4,
    pub allowed_ips: String,
}

/// A version number such as `8.4`, as `/etc/os-release` gives it.
pub struct VersionInfo {
    pub major_version: u32,
    pub minor_version: Option<u32>,
    pub full_version: String,
}

/// The major version that `VersionInfo::new` reads: the first `.`-separated
/// part as a `u32`, or 0 when it is not one.
pub open spec fn spec_major(s: Seq<char>) -> u32 {
    match parse_unsigned(split_on(s, '.')[0], u32::MAX as int) {
        Some(v) => v as u32,
        None => 0,
    }
}

/// The minor version that `VersionInfo::new` reads: the second part as a
/// `u32`, if there is a second part and it is one.
pub open spec fn spec_minor(s: Seq<char>) -> Option<u32> {
    if split_on(s, '.').len() > 1 {
        match parse_unsigned(split_on(s, '.')[1], u32::MAX as int) {
            Some(v) => Some(v as u32),
            None => None,
        }
    } else {
        None
    }
}

impl VersionInfo {
    /// Reads a version string: major and minor number from its first two
    /// `.`-separated parts; the whole string is kept.
    pub fn new(version_string: &str) -> (r: VersionInfo)
        ensures
            r.major_version == spec_major(version_string@),
            r.minor_version == spec_minor(version_string@),
            r.full_version@ == version_string@,
    {
        let v = chars_of(version_string);
        let parts = split_chars(&v, '.');
        assert(parts@.len() == split_on(v@, '.').len());
        proof {
            crate::text::lemma_split_len(v@, '.');
        }
        assert(parts@[0]@ == split_on(v@, '.')[0]);
        let major_version = match parse_unsigned_chars(&parts[0], u32::MAX as u64) {
            Some(m) => m as u32,
            None => 0,
        };
        let minor_version = if parts.len() > 1 {
            assert(parts@[1]@ == split_on(v@, '.')[1]);
            match parse_unsigned_chars(&parts[1], u32::MAX as u64) {
                Some(m) => Some(m as u32),
                None => None,
            }
        } else {
            None
        };
        VersionInfo { major_version, minor_version, full_version: crate::text::owned(version_string) }
    }
}

/// One WireGuard interface of the multi-interface configuration.
pub struct InterfaceConfig {
    pub name: String,
    /// CIDR text, such as `10.19.23.0/24`.
    pub subnet: String,
    pub server_ip: Ipv4,
    pub port: u16,
    pub private_key: String,
    pub public_key: String,
    pub created_at: String,
    pub active: bool,
}

impl InterfaceConfig {
    /// A copy of the configuration.
    pub fn copy_of(&self) -> (r: InterfaceConfig)
        ensures
            r == *self,
    {
        InterfaceConfig {
            name: self.name.clone(),
            subnet: self.subnet.clone(),
            server_ip: self.server_ip,
            port: self.port,
            private_key: self.private_key.clone(),
            public_key: self.public_key.clone(),
            created_at: self.created_at.clone(),
            active: self.active,
        }
    }
}

/// Settings shared by all interfaces.
pub struct GlobalSettings {
    pub server_pub_ip: Ipv4,
    pub server_pub_nic: String,
    pub dns_servers: Vec<Ipv4>,
    pub allowed_ips: String,
}

/// The interfaces by name. Each name occurs once; entries keep the order in
/// which they were first inserted.
pub struct InterfaceTable {
    entries: Vec<(String, InterfaceConfig)>,
}

/// The character sequences of a sequence of strings.
pub open spec fn string_views(s: Seq<String>) -> Seq<Seq<char>> {
    s.map_values(|x: String| x@)
}

/// The names of a sequence of entries.
pub open spec fn entry_keys(e: Seq<(String, InterfaceConfig)>) -> Seq<Seq<char>> {
    e.map_values(|p: (String, InterfaceConfig)| p.0@)
}

impl View for InterfaceTable {
    type V = Seq<(Seq<char>, InterfaceConfig)>;

    closed spec fn view(&self) -> Seq<(Seq<char>, InterfaceConfig)> {
        self.entries@.map_values(|p: (String, InterfaceConfig)| (p.0@, p.1))
    }
}

/// The names in a table view.
pub open spec fn view_keys(v: Seq<(Seq<char>, InterfaceConfig)>) -> Seq<Seq<char>> {
    v.map_values(|p: (Seq<char>, InterfaceConfig)| p.0)
}

/// The ports of the interfaces in a table view.
pub open spec fn view_ports(v: Seq<(Seq<char>, InterfaceConfig)>) -> Seq<u16> {
    v.map_values(|p: (Seq<char>, InterfaceConfig)| p.1.port)
}

/// The configuration filed under the name `k`: that of the first entry
/// named `k`, if any.
pub open spec fn table_get(v: Seq<(Seq<char>, InterfaceConfig)>, k: Seq<char>) -> Option<InterfaceConfig>
    decreases v.len(),
{
    if v.len() == 0 {
        None
    } else if v[0].0 == k {
        Some(v[0].1)
    } else {
        table_get(v.drop_first(), k)
    }
}

/// The first entry named `k` is the one at `i`.
proof fn lemma_table_get_at(v: Seq<(Seq<char>, InterfaceConfig)>, k: Seq<char>, i: int)
    requires
        0 <= i < v.len(),
        v[i].0 == k,
        forall|j: int| 0 <= j < i ==> v[j].0 != k,
    ensures
        table_get(v, k) == Some(v[i].1),
    decreases i,
{
    if i > 0 {
        assert forall|j: int| 0 <= j < i - 1 implies v.drop_first()[j].0 != k by {
            assert(v.drop_first()[j] == v[j + 1]);
        }
        lemma_table_get_at(v.drop_first(), k, i - 1);
    }
}

/// Nothing is filed under a name no entry has.
proof fn lemma_table_get_absent(v: Seq<(Seq<char>, InterfaceConfig)>, k: Seq<char>)
    requires
        forall|j: int| 0 <= j < v.len() ==> v[j].0 != k,
    ensures
        table_get(v, k) is None,
    decreases v.len(),
{
    if v.len() > 0 {
        assert forall|j: int| 0 <= j < v.drop_first().len() implies v.drop_first()[j].0 != k by {
            assert(v.drop_first()[j] == v[j + 1]);
        }
        lemma_table_get_absent(v.drop_first(), k);
    }
}

/// Something is filed under a name exactly when some entry has it.
proof fn lemma_table_get_some(v: Seq<(Seq<char>, InterfaceConfig)>, k: Seq<char>)
    ensures
        table_get(v, k) is Some <==> view_keys(v).contains(k),
    decreases v.len(),
{
    if v.len() > 0 {
        lemma_table_get_some(v.drop_first(), k);
        if view_keys(v.drop_first()).contains(k) {
            let j = choose|j: int| 0 <= j < view_keys(v.drop_first()).len() && view_keys(v.drop_first())[j] == k;
            assert(view_keys(v)[j + 1] == k);
        }
        if view_keys(v).contains(k) && v[0].0 != k {
            let j = choose|j: int| 0 <= j < view_keys(v).len() && view_keys(v)[j] == k;
            assert(j != 0);
            assert(view_keys(v.drop_first())[j - 1] == k);
        }
        assert(view_keys(v)[0] == v[0].0);
    }
}

/// Replacing the entry at `i` changes only what is filed under its name.
proof fn lemma_table_get_update(
    v: Seq<(Seq<char>, InterfaceConfig)>,
    i: int,
    k: Seq<char>,
    c: InterfaceConfig,
    q: Seq<char>,
)
    requires
        0 <= i < v.len(),
        v[i].0 == k,
        forall|j: int| 0 <= j < i ==> v[j].0 != k,
    ensures
        table_get(v.update(i, (k, c)), q) == if q == k {
            Some(c)
        } else {
            table_get(v, q)
        },
    decreases v.len(),
{
    let w = v.update(i, (k, c));
    if q == k {
        assert forall|j: int| 0 <= j < i implies w[j].0 != k by {
            assert(w[j] == v[j]);
        }
        lemma_table_get_at(w, k, i);
    } else if i == 0 {
        assert(w.drop_first() =~= v.drop_first());
    } else {
        assert(w[0] == v[0]);
        assert(w.drop_first() =~= v.drop_first().update(i - 1, (k, c)));
        assert forall|j: int| 0 <= j < i - 1 implies v.drop_first()[j].0 != k by {
            assert(v.drop_first()[j] == v[j + 1]);
        }
        lemma_table_get_update(v.drop_first(), i - 1, k, c, q);
    }
}

/// Adding an entry under a new name files it under that name only.
proof fn lemma_table_get_push(v: Seq<(Seq<char>, InterfaceConfig)>, k: Seq<char>, c: InterfaceConfig, q: Seq<char>)
    requires
        forall|j: int| 0 <= j < v.len() ==> v[j].0 != k,
    ensures
        table_get(v.push((k, c)), q) == if q == k {
            Some(c)
        } else {
            table_get(v, q)
        },
    decreases v.len(),
{
    let w = v.push((k, c));
    if q == k {
        assert forall|j: int| 0 <= j < v.len() implies w[j].0 != k by {
            assert(w[j] == v[j]);
        }
        lemma_table_get_at(w, k, v.len() as int);
    } else if v.len() > 0 {
        assert(w[0] == v[0]);
        assert(w.drop_first() =~= v.drop_first().push((k, c)));
        assert forall|j: int| 0 <= j < v.drop_first().len() implies v.drop_first()[j].0 != k by {
            assert(v.drop_first()[j] == v[j + 1]);
        }
        lemma_table_get_push(v.drop_first(), k, c, q);
    } else {
        assert(w[0] == (k, c));
        assert(w.drop_first() =~= Seq::<(Seq<char>, InterfaceConfig)>::empty());
        assert(table_get(Seq::<(Seq<char>, InterfaceConfig)>::empty(), q) is None);
        assert(table_get(w, q) == table_get(w.drop_first(), q));
    }
}

/// Removing the only entry named `k` leaves nothing filed under `k` and
/// every other name as it was.
proof fn lemma_table_get_remove(v: Seq<(Seq<char>, InterfaceConfig)>, i: int, k: Seq<char>, q: Seq<char>)
    requires
        0 <= i < v.len(),
        v[i].0 == k,
        view_keys(v).no_duplicates(),
    ensures
        table_get(v.remove(i), q) == if q == k {
            None
        } else {
            table_get(v, q)
        },
    decreases v.len(),
{
    let w = v.remove(i);
    if q == k {
        assert forall|j: int| 0 <= j < w.len() implies w[j].0 != k by {
            let j2 = if j < i { j } else { j + 1 };
            assert(w[j] == v[j2]);
            assert(view_keys(v)[j2] == v[j2].0);
            assert(view_keys(v)[i] == v[i].0);
        }
        lemma_table_get_absent(w, k);
    } else if i == 0 {
        assert(w =~= v.drop_first());
    } else {
        assert(w[0] == v[0]);
        assert(w.drop_first() =~= v.drop_first().remove(i - 1));
        assert(view_keys(v.drop_first()).no_duplicates()) by {
            assert forall|a: int, b: int|
                0 <= a < view_keys(v.drop_first()).len() && 0 <= b < view_keys(v.drop_first()).len()
                    && a != b implies view_keys(v.drop_first())[a] != view_keys(v.drop_first())[b] by {
                assert(view_keys(v.drop_first())[a] == view_keys(v)[a + 1]);
                assert(view_keys(v.drop_first())[b] == view_keys(v)[b + 1]);
            }
        }
        lemma_table_get_remove(v.drop_first(), i - 1, k, q);
    }
}

impl InterfaceTable {
    #[verifier::type_invariant]
    closed spec fn names_unique(&self) -> bool {
        entry_keys(self.entries@).no_duplicates()
    }

    /// An empty table.
    pub fn new() -> (r: InterfaceTable)
        ensures
            r@ == Seq::<(Seq<char>, InterfaceConfig)>::empty(),
    {
        let r = InterfaceTable { entries: Vec::new() };
        assert(r@ =~= Seq::<(Seq<char>, InterfaceConfig)>::empty());
        r
    }

    /// Number of interfaces.
    pub fn len(&self) -> (r: usize)
        ensures
            r == self@.len(),
    {
        self.entries.len()
    }

    /// Whether there are no interfaces.
    pub fn is_empty(&self) -> (r: bool)
        ensures
            r == (self@.len() == 0),
    {
        self.entries.len() == 0
    }

    /// Position of the interface named `name`.
    fn find(&self, name: &Vec<char>) -> (r: Option<usize>)
        ensures
            r matches Some(i) ==> i < self@.len() && self@[i as int].0 == name@ && forall|j: int|
                0 <= j < i ==> self@[j].0 != name@,
            r is None ==> forall|i: int| 0 <= i < self@.len() ==> self@[i].0 != name@,
    {
        let mut i: usize = 0;
        while i < self.entries.len()
            invariant
                i <= self.entries.len(),
                self@.len() == self.entries@.len(),
                forall|k: int| 0 <= k < i ==> self@[k].0 != name@,
            decreases self.entries.len() - i,
        {
            let key = chars_of(self.entries[i].0.as_str());
            assert(self@[i as int].0 == self.entries@[i as int].0@);
            if chars_eq(&key, name) {
                return Some(i);
            }
            i += 1;
        }
        None
    }

    /// Whether an interface is named `name`.
    pub fn contains_key(&self, name: &str) -> (r: bool)
        ensures
            r == view_keys(self@).contains(name@),
            r == table_get(self@, name@) is Some,
    {
        let n = chars_of(name);
        let r = self.find(&n);
        proof {
            lemma_table_get_some(self@, name@);
            if r is Some {
                assert(view_keys(self@)[r->0 as int] == name@);
            } else {
                if view_keys(self@).contains(name@) {
                    let i = choose|i: int| 0 <= i < view_keys(self@).len() && view_keys(self@)[i] == name@;
                    assert(self@[i].0 == name@);
                }
            }
        }
        r.is_some()
    }

    /// The interface named `name`.
    pub fn get(&self, name: &str) -> (r: Option<&InterfaceConfig>)
        ensures
            r matches Some(c) ==> exists|i: int|
                0 <= i < self@.len() && self@[i].0 == name@ && self@[i].1 == *c,
            r is None ==> !view_keys(self@).contains(name@),
            r matches Some(c) ==> table_get(self@, name@) == Some(*c),
            r is None ==> table_get(self@, name@) is None,
    {
        let n = chars_of(name);
        match self.find(&n) {
            Some(i) => {
                assert(self@[i as int].1 == self.entries@[i as int].1);
                proof {
                    lemma_table_get_at(self@, name@, i as int);
                }
                Some(&self.entries[i].1)
            },
            None => {
                proof {
                    lemma_table_get_absent(self@, name@);
                    if view_keys(self@).contains(name@) {
                        let i = choose|i: int| 0 <= i < view_keys(self@).len() && view_keys(self@)[i] == name@;
                        assert(self@[i].0 == name@);
                    }
                }
                None
            },
        }
    }

    /// Inserts or replaces the interface named `name`; gives back the entry it replaced.
    pub fn insert(&mut self, name: String, config: InterfaceConfig) -> (r: Option<InterfaceConfig>)
        ensures
            r matches Some(old_c) ==> exists|i: int|
                0 <= i < old(self)@.len() && old(self)@[i].0 == name@ && old(self)@[i].1 == old_c
                    && final(self)@ == old(self)@.update(i, (name@, config)),
            r is None ==> !view_keys(old(self)@).contains(name@) && final(self)@ == old(self)@.push(
                (name@, config),
            ),
            forall|q: Seq<char>|
                #[trigger] table_get(final(self)@, q) == if q == name@ {
                    Some(config)
                } else {
                    table_get(old(self)@, q)
                },
    {
        proof {
            use_type_invariant(&*self);
        }
        let n = chars_of(name.as_str());
        let found = self.find(&n);
        let ghost old_view = self@;
        let mut entries: Vec<(String, InterfaceConfig)> = Vec::new();
        std::mem::swap(&mut entries, &mut self.entries);
        let ghost old_entries = entries@;
        assert(old_view =~= old_entries.map_values(|p: (String, InterfaceConfig)| (p.0@, p.1)));
        match found {
            Some(i) => {
                let old_entry = entries.remove(i);
                entries.insert(i, (name, config));
                proof {
                    assert(entries@ =~= old_entries.update(i as int, entries@[i as int]));
                    assert(entry_keys(entries@) =~= entry_keys(old_entries));
                }
                self.entries = entries;
                assert(self@ =~= old_view.update(i as int, (n@, config)));
                proof {
                    assert forall|q: Seq<char>| #[trigger] table_get(self@, q) == if q == n@ {
                        Some(config)
                    } else {
                        table_get(old_view, q)
                    } by {
                        lemma_table_get_update(old_view, i as int, n@, config, q);
                    }
                }
                Some(old_entry.1)
            },
            None => {
                proof {
                    if view_keys(old_view).contains(name@) {
                        let k = choose|k: int| 0 <= k < view_keys(old_view).len() && view_keys(old_view)[k] == name@;
                        assert(old_view[k].0 == name@);
                    }
                    assert forall|k: int| 0 <= k < old_entries.len() implies entry_keys(old_entries)[k] != name@ by {
                        assert(old_view[k].0 == entry_keys(old_entries)[k]);
                    }
                }
                entries.push((name, config));
                proof {
                    assert(entry_keys(entries@) =~= entry_keys(old_entries).push(n@));
                }
                self.entries = entries;
                assert(self@ =~= old_view.push((n@, config)));
                proof {
                    assert forall|j: int| 0 <= j < old_view.len() implies old_view[j].0 != n@ by {
                        assert(old_view[j].0 == entry_keys(old_entries)[j]);
                    }
                    assert forall|q: Seq<char>| #[trigger] table_get(self@, q) == if q == n@ {
                        Some(config)
                    } else {
                        table_get(old_view, q)
                    } by {
                        lemma_table_get_push(old_view, n@, config, q);
                    }
                }
                None
            },
        }
    }

    /// Removes the interface named `name`; gives back its configuration.
    pub fn remove(&mut self, name: &str) -> (r: Option<InterfaceConfig>)
        ensures
            r matches Some(old_c) ==> exists|i: int|
                0 <= i < old(self)@.len() && old(self)@[i].0 == name@ && old(self)@[i].1 == old_c
                    && final(self)@ == old(self)@.remove(i),
            r is None ==> !view_keys(old(self)@).contains(name@) && final(self)@ == old(self)@,
            r == table_get(old(self)@, name@),
            forall|q: Seq<char>|
                #[trigger] table_get(final(self)@, q) == if q == name@ {
                    None
                } else {
                    table_get(old(self)@, q)
                },
    {
        proof {
            use_type_invariant(&*self);
        }
        let n = chars_of(name);
        match self.find(&n) {
            Some(i) => {
                let ghost old_view = self@;
                let mut entries: Vec<(String, InterfaceConfig)> = Vec::new();
                std::mem::swap(&mut entries, &mut self.entries);
                let ghost old_entries = entries@;
                assert(old_view =~= old_entries.map_values(|p: (String, InterfaceConfig)| (p.0@, p.1)));
                proof {
                    assert(entry_keys(old_entries.remove(i as int)) =~= entry_keys(old_entries).remove(i as int));
                    let ks = entry_keys(old_entries);
                    let rs = ks.remove(i as int);
                    assert forall|a: int, b: int| 0 <= a < rs.len() && 0 <= b < rs.len() && a != b implies rs[a] != rs[b] by {
                        let a2 = if a < i { a } else { a + 1 };
                        let b2 = if b < i { b } else { b + 1 };
                        assert(rs[a] == ks[a2]);
                        assert(rs[b] == ks[b2]);
                    }
                }
                proof {
                    assert(view_keys(old_view) =~= entry_keys(old_entries));
                    lemma_table_get_at(old_view, name@, i as int);
                    assert forall|q: Seq<char>| #[trigger] table_get(old_view.remove(i as int), q) == if q == name@ {
                        None
                    } else {
                        table_get(old_view, q)
                    } by {
                        lemma_table_get_remove(old_view, i as int, name@, q);
                    }
                }
                let e = entries.remove(i);
                self.entries = entries;
                assert(self@ =~= old_view.remove(i as int));
                Some(e.1)
            },
            None => {
                proof {
                    if view_keys(self@).contains(name@) {
                        let k = choose|k: int| 0 <= k < view_keys(self@).len() && view_keys(self@)[k] == name@;
                        assert(self@[k].0 == name@);
                    }
                    lemma_table_get_absent(self@, name@);
                }
                None
            },
        }
    }

    /// The names, in table order.
    pub fn names(&self) -> (r: Vec<String>)
        ensures
            string_views(r@) == view_keys(self@),
    {
        let mut r: Vec<String> = Vec::new();
        let mut i: usize = 0;
        while i < self.entries.len()
            invariant
                i <= self.entries.len(),
                self@.len() == self.entries@.len(),
                string_views(r@) == view_keys(self@).take(i as int),
            decreases self.entries.len() - i,
        {
            assert(self@[i as int].0 == self.entries@[i as int].0@);
            let ghost before = r@;
            let k = self.entries[i].0.clone();
            assert(k@ == view_keys(self@)[i as int]);
            r.push(k);
            assert(r@ == before.push(k));
            assert(string_views(r@) =~= string_views(before).push(k@));
            assert(string_views(r@) =~= view_keys(self@).take(i + 1));
            i += 1;
        }
        assert(view_keys(self@).take(i as int) =~= view_keys(self@));
        r
    }

    /// The ports of the interfaces, in table order.
    pub fn ports(&self) -> (r: Vec<u16>)
        ensures
            r@ == view_ports(self@),
    {
        let mut r: Vec<u16> = Vec::new();
        let mut i: usize = 0;
        while i < self.entries.len()
            invariant
                i <= self.entries.len(),
                self@.len() == self.entries@.len(),
                r@ == view_ports(self@).take(i as int),
            decreases self.entries.len() - i,
        {
            r.push(self.entries[i].1.port);
            assert(r@ =~= view_ports(self@).take(i + 1));
            i += 1;
        }
        assert(view_ports(self@).take(i as int) =~= view_ports(self@));
        r
    }

    /// The entry at position `i`.
    pub fn entry(&self, i: usize) -> (r: (&String, &InterfaceConfig))
        requires
            i < self@.len(),
        ensures
            r.0@ == self@[i as int].0,
            *r.1 == self@[i as int].1,
    {
        (&self.entries[i].0, &self.entries[i].1)
    }
}

/// The configuration of all interfaces.
pub struct MultiInterfaceConfig {
    pub interfaces: InterfaceTable,
    pub global_settings: GlobalSettings,
    pub next_suggested_port: u16,
}

/// The interface name `wg<n>`.
pub open spec fn wg_name(n: int) -> Seq<char> {
    "wg"@ + dec(n as nat)
}

/// The `wg<n>` names are pairwise different.
pub proof fn lemma_wg_name_injective(a: int, b: int)
    requires
        0 <= a,
        0 <= b,
        wg_name(a) == wg_name(b),
    ensures
        a == b,
{
    reveal_strlit("wg");
    assert(wg_name(a).skip(2) =~= dec(a as nat));
    assert(wg_name(b).skip(2) =~= dec(b as nat));
    lemma_dec_injective(a as nat, b as nat);
}

/// A table of `len` names cannot hold `wg0` to `wg<n-1>` for `n > len`.
pub proof fn lemma_wg_names_bound(keys: Seq<Seq<char>>, n: int)
    requires
        0 <= n,
        forall|j: int| 0 <= j < n ==> keys.contains(#[trigger] wg_name(j)),
    ensures
        n <= keys.len(),
{
    let x = vstd::set_lib::set_int_range(0, n);
    let f = |j: int| wg_name(j);
    vstd::set_lib::lemma_int_range(0, n);
    let y = x.map(f);
    assert(vstd::relations::injective_on(f, x)) by {
        assert forall|a: int, b: int| x.contains(a) && x.contains(b) && #[trigger] f(a) == #[trigger] f(b) implies a == b by {
            lemma_wg_name_injective(a, b);
        }
    }
    vstd::set_lib::lemma_map_size(x, y, f);
    assert(y.subset_of(keys.to_set())) by {
        assert forall|s: Seq<char>| y.contains(s) implies keys.to_set().contains(s) by {
            let j = choose|j: int| x.contains(j) && f(j) == s;
            assert(keys.contains(wg_name(j)));
        }
    }
    keys.lemma_cardinality_of_set();
    vstd::set_lib::lemma_len_subset(y, keys.to_set());
}

impl MultiInterfaceConfig {
    /// An empty configuration: no interfaces, DNS 1.1.1.1 and 1.0.0.1, all
    /// traffic allowed, port suggestions from 51820.
    pub fn new() -> (r: MultiInterfaceConfig)
        ensures
            r.interfaces@.len() == 0,
            r.global_settings.server_pub_ip == Ipv4::new_spec(0, 0, 0, 0),
            r.global_settings.server_pub_nic@ == Seq::<char>::empty(),
            r.global_settings.dns_servers@ == seq![Ipv4::new_spec(1, 1, 1, 1), Ipv4::new_spec(1, 0, 0, 1)],
            r.global_settings.allowed_ips@ == "0.0.0.0/0"@,
            r.next_suggested_port == 51820,
    {
        let mut dns: Vec<Ipv4> = Vec::new();
        dns.push(Ipv4::new(1, 1, 1, 1));
        dns.push(Ipv4::new(1, 0, 0, 1));
        assert(dns@ =~= seq![Ipv4::new_spec(1, 1, 1, 1), Ipv4::new_spec(1, 0, 0, 1)]);
        MultiInterfaceConfig {
            interfaces: InterfaceTable::new(),
            global_settings: GlobalSettings {
                server_pub_ip: Ipv4::new(0, 0, 0, 0),
                server_pub_nic: String::new(),
                dns_servers: dns,
                allowed_ips: crate::text::owned("0.0.0.0/0"),
            },
            next_suggested_port: 51820,
        }
    }

    /// The first name `wg0`, `wg1`, … that no interface has yet.
    pub fn get_next_interface_name(&self) -> (r: String)
        ensures
            exists|n: int|
                0 <= n && r@ == wg_name(n) && !view_keys(self.interfaces@).contains(wg_name(n))
                    && forall|j: int| 0 <= j < n ==> view_keys(self.interfaces@).contains(#[trigger] wg_name(j)),
    {
        let ghost keys = view_keys(self.interfaces@);
        let total = self.interfaces.len();
        let mut counter: usize = 0;
        loop
            invariant
                keys == view_keys(self.interfaces@),
                keys.len() == total,
                forall|j: int| 0 <= j < counter ==> keys.contains(#[trigger] wg_name(j)),
                counter <= keys.len(),
            decreases keys.len() - counter,
        {
            let mut name = chars_of("wg");
            let d = dec_chars(counter as u64);
            extend(&mut name, &d);
            let suggested = string_of(&name);
            assert(suggested@ == wg_name(counter as int));
            if !self.interfaces.contains_key(suggested.as_str()) {
                return suggested;
            }
            proof {
                lemma_wg_names_bound(keys, counter + 1);
            }
            counter += 1;
        }
    }

    /// The first port from `next_suggested_port` on that no interface uses.
    /// The count runs upwards in a `u16`, so such a port must exist.
    pub fn get_next_suggested_port(&self) -> (r: u16)
        requires
            exists|p: u16| self.next_suggested_port <= p && !view_ports(self.interfaces@).contains(p),
        ensures
            self.next_suggested_port <= r,
            !view_ports(self.interfaces@).contains(r),
            forall|q: u16| self.next_suggested_port <= q < r ==> view_ports(self.interfaces@).contains(q),
    {
        let used = self.interfaces.ports();
        let mut port = self.next_suggested_port;
        loop
            invariant
                used@ == view_ports(self.interfaces@),
                self.next_suggested_port <= port,
                exists|p: u16| port <= p && !view_ports(self.interfaces@).contains(p),
                forall|q: u16| self.next_suggested_port <= q < port ==> view_ports(self.interfaces@).contains(q),
            decreases u16::MAX - port,
        {
            if !crate::network::slice_contains(used.as_slice(), port) {
                return port;
            }
            proof {
                let p = choose|p: u16| port <= p && !view_ports(self.interfaces@).contains(p);
                assert(p != port);
            }
            port = port + 1;
        }
    }
}

} // verus!
