//! Decisions of the developer command line: the environment handed to the
//! services it starts, the lines it prints in dry-run mode, the development
//! context and install ids, and where the public base URL comes from.
use vstd::prelude::*;
use crate::admin_api::pair_views;
use crate::json::{json_text, to_json_text, Json};
use crate::packs::opt_view;
use crate::platform::{platform_name, platform_named, Platform};
use crate::strmap::{
    find_entry, keys_distinct, lemma_ascending_distinct, lemma_find_entry_absent,
    lemma_find_entry_push, StrMap,
};
use crate::subscriptions::{object_lookup, same_install, InstallKey};
use crate::text::{
    concat2, decimal, decimal_string, join, join_strings, lemma_seq_le_antisym, lemma_seq_le_total,
    lemma_seq_le_trans, seq_lt, sort_strings,
    lower, lower_char, lower_char_exec, owned, push_char, push_str, seq_le, str_eq, str_le,
    str_trim, to_chars, to_lower, trim, views,
};

verus! {

/// The port the gateway listens on when none is configured.
pub const DEFAULT_GATEWAY_PORT: u16 = 8080;

/// Whether a flag value reads as "on": `1`, `true`, `yes` or `on`, trimmed
/// and in any ASCII case.
pub open spec fn truthy(v: Seq<char>) -> bool {
    let t = lower(trim(v));
    t == "1"@ || t == "true"@ || t == "yes"@ || t == "on"@
}

/// Reads a flag value.
pub fn parse_truthy(value: &str) -> (r: bool)
    ensures
        r == truthy(value@),
{
    let t = str_trim(value);
    let l = to_lower(t.as_str());
    let s = l.as_str();
    str_eq(s, "1") || str_eq(s, "true") || str_eq(s, "yes") || str_eq(s, "on")
}

/// The arguments after `--`, as a dry run shows them.
pub open spec fn dry_suffix_of(args: Seq<Seq<char>>) -> Seq<char> {
    if args.len() == 0 {
        Seq::empty()
    } else {
        " -- "@ + join(args, " "@)
    }
}

/// Shows extra arguments: nothing, or ` -- ` and the arguments.
pub fn dry_suffix(args: &Vec<String>) -> (r: String)
    ensures
        r@ == dry_suffix_of(views(args@)),
{
    if args.len() == 0 {
        return String::new();
    }
    let joined = join_strings(args, " ");
    concat2(" -- ", joined.as_str())
}

/// What a dry run prints instead of running a package:
/// `(dry-run) cargo run -p {package}`, then the extra arguments.
pub fn dry_run_package_line(package: &str, args: &Vec<String>) -> (r: String)
    ensures
        r@ == "(dry-run) cargo run -p "@ + package@ + dry_suffix_of(views(args@)),
{
    let mut m = concat2("(dry-run) cargo run -p ", package);
    push_str(&mut m, dry_suffix(args).as_str());
    m
}


/// `key=value` texts of environment pairs, in order.
pub open spec fn env_assignments(envs: Seq<(Seq<char>, Seq<char>)>) -> Seq<Seq<char>> {
    envs.map_values(|p: (Seq<char>, Seq<char>)| p.0 + "="@ + p.1)
}

/// The `env K=V ... ` prefix of a command; nothing without variables.
pub open spec fn env_prefix_of(envs: Seq<(Seq<char>, Seq<char>)>) -> Seq<char> {
    if envs.len() == 0 {
        Seq::empty()
    } else {
        "env "@ + join(env_assignments(envs), " "@) + " "@
    }
}

/// Shows environment variables as an `env` prefix.
pub fn format_env_prefix(envs: &Vec<(String, String)>) -> (r: String)
    ensures
        r@ == env_prefix_of(pair_views(envs@)),
{
    if envs.len() == 0 {
        return String::new();
    }
    let mut parts: Vec<String> = Vec::new();
    for i in 0..envs.len()
        invariant
            views(parts@) == env_assignments(pair_views(envs@)).take(i as int),
    {
        let ghost before = views(parts@);
        let mut p = concat2(envs[i].0.as_str(), "=");
        push_str(&mut p, envs[i].1.as_str());
        parts.push(p);
        proof {
            assert(views(parts@) =~= before.push(envs@[i as int].0@ + "="@ + envs@[i as int].1@));
            assert(env_assignments(pair_views(envs@)).take(i + 1) =~= env_assignments(
                pair_views(envs@),
            ).take(i as int).push(envs@[i as int].0@ + "="@ + envs@[i as int].1@));
        }
    }
    proof {
        assert(env_assignments(pair_views(envs@)).take(envs.len() as int) =~= env_assignments(
            pair_views(envs@),
        ));
    }
    let joined = join_strings(&parts, " ");
    let mut out = concat2("env ", joined.as_str());
    push_str(&mut out, " ");
    out
}

/// The line a dry run prints instead of starting a package.
pub open spec fn dry_run_cargo_text(
    envs: Seq<(Seq<char>, Seq<char>)>,
    package: Seq<char>,
    args: Seq<Seq<char>>,
) -> Seq<char> {
    "(dry-run) "@ + env_prefix_of(envs) + "cargo run -p "@ + package + dry_suffix_of(args)
}

/// The dry-run line of starting a package with an environment and
/// arguments.
pub fn dry_run_cargo_line(envs: &Vec<(String, String)>, package: &str, args: &Vec<String>) -> (r:
    String)
    ensures
        r@ == dry_run_cargo_text(pair_views(envs@), package@, views(args@)),
{
    let prefix = format_env_prefix(envs);
    let mut out = concat2("(dry-run) ", prefix.as_str());
    push_str(&mut out, "cargo run -p ");
    push_str(&mut out, package);
    let suffix = dry_suffix(args);
    push_str(&mut out, suffix.as_str());
    out
}

/// What the started services are told about their environment.
#[derive(Clone, Debug, PartialEq, Eq)]
pub struct ServeEnvConfig {
    pub env_scope: String,
    pub tenant: String,
    pub team: String,
    pub nats_url: String,
    pub packs_root: String,
    /// Extra adapter pack files.
    pub pack: Vec<String>,
    pub no_default_packs: bool,
    pub adapter_override: Option<String>,
}

/// The environment of the started services: scope, tenant, team, NATS and
/// packs root; the extra packs comma-separated when there are any; default
/// packs switched off when asked; and the egress adapter override.
pub open spec fn serve_envs_of(c: ServeEnvConfig) -> Seq<(Seq<char>, Seq<char>)> {
    let base = seq![
        ("GREENTIC_ENV"@, c.env_scope@),
        ("TENANT"@, c.tenant@),
        ("TEAM"@, c.team@),
        ("NATS_URL"@, c.nats_url@),
        ("MESSAGING_PACKS_ROOT"@, c.packs_root@),
    ];
    let packs = if c.pack@.len() > 0 {
        seq![("MESSAGING_ADAPTER_PACK_PATHS"@, join(views(c.pack@), ","@))]
    } else {
        Seq::empty()
    };
    let defaults = if c.no_default_packs {
        seq![
            ("MESSAGING_INSTALL_ALL_DEFAULT_ADAPTER_PACKS"@, "false"@),
            ("MESSAGING_DEFAULT_ADAPTER_PACKS"@, ""@),
        ]
    } else {
        Seq::empty()
    };
    let adapter = match c.adapter_override {
        Some(a) => seq![("MESSAGING_EGRESS_ADAPTER"@, a@)],
        None => Seq::empty(),
    };
    base + packs + defaults + adapter
}

fn push_pair(out: &mut Vec<(String, String)>, k: &str, v: &str)
    ensures
        pair_views(final(out)@) == pair_views(old(out)@).push((k@, v@)),
{
    let ghost before = out@;
    out.push((owned(k), owned(v)));
    proof {
        assert(pair_views(out@) =~= pair_views(before).push((k@, v@)));
    }
}

/// Builds the environment of the started services.
pub fn build_serve_envs(config: &ServeEnvConfig) -> (r: Vec<(String, String)>)
    ensures
        pair_views(r@) == serve_envs_of(*config),
{
    let mut envs: Vec<(String, String)> = Vec::new();
    push_pair(&mut envs, "GREENTIC_ENV", config.env_scope.as_str());
    push_pair(&mut envs, "TENANT", config.tenant.as_str());
    push_pair(&mut envs, "TEAM", config.team.as_str());
    push_pair(&mut envs, "NATS_URL", config.nats_url.as_str());
    push_pair(&mut envs, "MESSAGING_PACKS_ROOT", config.packs_root.as_str());
    let ghost base = pair_views(envs@);
    if config.pack.len() > 0 {
        let joined = join_strings(&config.pack, ",");
        push_pair(&mut envs, "MESSAGING_ADAPTER_PACK_PATHS", joined.as_str());
    }
    let ghost with_packs = pair_views(envs@);
    if config.no_default_packs {
        push_pair(&mut envs, "MESSAGING_INSTALL_ALL_DEFAULT_ADAPTER_PACKS", "false");
        push_pair(&mut envs, "MESSAGING_DEFAULT_ADAPTER_PACKS", "");
    }
    let ghost with_defaults = pair_views(envs@);
    if let Some(a) = &config.adapter_override {
        push_pair(&mut envs, "MESSAGING_EGRESS_ADAPTER", a.as_str());
    }
    proof {
        let c = *config;
        let packs = if c.pack@.len() > 0 {
            seq![("MESSAGING_ADAPTER_PACK_PATHS"@, join(views(c.pack@), ","@))]
        } else {
            Seq::empty()
        };
        let defaults = if c.no_default_packs {
            seq![
                ("MESSAGING_INSTALL_ALL_DEFAULT_ADAPTER_PACKS"@, "false"@),
                ("MESSAGING_DEFAULT_ADAPTER_PACKS"@, ""@),
            ]
        } else {
            Seq::empty()
        };
        let adapter = match c.adapter_override {
            Some(a) => seq![("MESSAGING_EGRESS_ADAPTER"@, a@)],
            None => Seq::empty(),
        };
        assert(with_packs =~= base + packs);
        assert(with_defaults =~= base + packs + defaults);
        assert(pair_views(envs@) =~= base + packs + defaults + adapter);
    }
    envs
}

/// The character an install id keeps for `c`: ASCII letters and digits
/// lower-cased, `.`, `_` and `-` as they are, anything else `-`.
pub open spec fn install_id_char(c: char) -> char {
    if ('a' <= c && c <= 'z') || ('A' <= c && c <= 'Z') || ('0' <= c && c <= '9') || c == '.'
        || c == '_' || c == '-' {
        lower_char(c)
    } else {
        '-'
    }
}

/// The default install id of a provider: `dev-` and the provider id made
/// safe character by character.
pub open spec fn default_install_id_of(provider: Seq<char>) -> Seq<char> {
    "dev-"@ + provider.map_values(|c: char| install_id_char(c))
}

/// The install id used when none is given.
pub fn default_install_id(provider: &str) -> (r: String)
    ensures
        r@ == default_install_id_of(provider@),
{
    let cs = to_chars(provider);
    let mut out = owned("dev-");
    let ghost head = out@;
    for i in 0..cs.len()
        invariant
            cs@ == provider@,
            head == "dev-"@,
            out@ == head + provider@.take(i as int).map_values(|c: char| install_id_char(c)),
    {
        let c = cs[i];
        let keep = ('a' <= c && c <= 'z') || ('A' <= c && c <= 'Z') || ('0' <= c && c <= '9')
            || c == '.' || c == '_' || c == '-';
        let d = if keep {
            lower_char_exec(c)
        } else {
            '-'
        };
        push_char(&mut out, d);
        proof {
            assert(provider@.take(i + 1).map_values(|c: char| install_id_char(c)) =~= provider@.take(
                i as int,
            ).map_values(|c: char| install_id_char(c)).push(install_id_char(c)));
        }
    }
    proof {
        assert(provider@.take(cs.len() as int) =~= provider@);
    }
    out
}

/// The value of decimal digits.
pub open spec fn digits_value(d: Seq<char>) -> nat
    decreases d.len(),
{
    if d.len() == 0 {
        0
    } else {
        digits_value(d.drop_last()) * 10 + ((d.last() as u32) - 48) as nat
    }
}

/// Every character is an ASCII digit.
pub open spec fn all_digits(d: Seq<char>) -> bool {
    forall|i: int| 0 <= i < d.len() ==> '0' <= #[trigger] d[i] && d[i] <= '9'
}

/// The digits of a port text: after one optional `+`.
pub open spec fn port_digits(s: Seq<char>) -> Seq<char> {
    if s.len() > 0 && s[0] == '+' {
        s.drop_first()
    } else {
        s
    }
}

/// What parsing text as a `u16` gives: an optional `+`, then at least one
/// ASCII digit, the value at most 65535.
pub open spec fn parsed_port(s: Seq<char>) -> Option<nat> {
    let d = port_digits(s);
    if d.len() > 0 && all_digits(d) && digits_value(d) <= 65535 {
        Some(digits_value(d))
    } else {
        None
    }
}

pub(crate) proof fn lemma_digits_value_grows(d: Seq<char>, j: int)
    requires
        0 <= j <= d.len(),
        all_digits(d),
    ensures
        digits_value(d.take(j)) <= digits_value(d),
    decreases d.len() - j,
{
    if j < d.len() {
        assert(d.take(d.len() as int) =~= d);
        let e = d.drop_last();
        assert(all_digits(e)) by {
            assert forall|i: int| 0 <= i < e.len() implies '0' <= #[trigger] e[i] && e[i] <= '9' by {
                assert(e[i] == d[i]);
            }
        }
        lemma_digits_value_grows(e, j);
        assert(e.take(j) =~= d.take(j));
        assert(digits_value(d) == digits_value(e) * 10 + ((d.last() as u32) - 48) as nat);
    } else {
        assert(d.take(j) =~= d);
    }
}

/// Parses a port number as `str::parse::<u16>` does.
pub fn parse_port(s: &str) -> (r: Option<u16>)
    ensures
        match parsed_port(s@) {
            Some(v) => r == Some(v as u16),
            None => r is None,
        },
{
    let cs = to_chars(s);
    let start: usize = if cs.len() > 0 && cs[0] == '+' { 1 } else { 0 };
    let ghost d = port_digits(s@);
    proof {
        assert(d =~= cs@.skip(start as int));
    }
    if start >= cs.len() {
        return None;
    }
    let mut acc: u32 = 0;
    let mut i: usize = start;
    while i < cs.len()
        invariant
            cs@ == s@,
            d == port_digits(s@),
            d == cs@.skip(start as int),
            start <= i <= cs.len(),
            forall|k: int| 0 <= k < i - start ==> '0' <= #[trigger] d[k] && d[k] <= '9',
            acc as nat == digits_value(d.take(i - start)),
            acc <= 65535,
        decreases cs.len() - i,
    {
        let c = cs[i];
        if !('0' <= c && c <= '9') {
            proof {
                assert(d[i - start] == c);
                assert(!all_digits(d));
            }
            return None;
        }
        let digit: u32 = (c as u32) - 48;
        proof {
            let t = d.take(i + 1 - start);
            assert(t.drop_last() =~= d.take(i - start));
            assert(t.last() == c);
        }
        let next: u32 = acc * 10 + digit;
        if next > 65535 {
            proof {
                let t = d.take(i + 1 - start);
                assert(t.drop_last() =~= d.take(i - start));
                assert(t.last() == c);
                assert(digits_value(t) == next);
                if all_digits(d) {
                    lemma_digits_value_grows(d, i + 1 - start);
                    assert(digits_value(d) > 65535);
                }
            }
            return None;
        }
        acc = next;
        i = i + 1;
    }
    proof {
        assert(d.take(i - start) =~= d);
    }
    Some(acc as u16)
}

/// The gateway port: a configured value that parses, else the default.
pub open spec fn gateway_port_of(raw: Option<Seq<char>>) -> nat {
    match raw {
        Some(s) => match parsed_port(s) {
            Some(v) => v,
            None => DEFAULT_GATEWAY_PORT as nat,
        },
        None => DEFAULT_GATEWAY_PORT as nat,
    }
}

/// The gateway port from the configured value, if any.
pub fn gateway_port(raw: Option<&str>) -> (r: u16)
    ensures
        r as nat == gateway_port_of(
            match raw {
                Some(s) => Some(s@),
                None => None,
            },
        ),
{
    match raw {
        Some(s) => match parse_port(s) {
            Some(v) => v,
            None => DEFAULT_GATEWAY_PORT,
        },
        None => DEFAULT_GATEWAY_PORT,
    }
}

/// The local address of the gateway.
pub fn local_base_url(port: u16) -> (r: String)
    ensures
        r@ == "http://localhost:"@ + decimal(port as nat),
{
    let p = decimal_string(port as usize);
    concat2("http://localhost:", p.as_str())
}

/// The public base URL of the development stack: the one recorded by the
/// running stack, else the configured one, else the local gateway address.
pub fn resolve_public_base_url(
    recorded: Option<String>,
    configured: Option<String>,
    port_raw: Option<&str>,
) -> (r: String)
    ensures
        r@ == match recorded {
            Some(u) => u@,
            None => match configured {
                Some(u) => u@,
                None => "http://localhost:"@ + decimal(
                    gateway_port_of(
                        match port_raw {
                            Some(s) => Some(s@),
                            None => None,
                        },
                    ),
                ),
            },
        },
{
    match recorded {
        Some(u) => u,
        None => match configured {
            Some(u) => u,
            None => local_base_url(gateway_port(port_raw)),
        },
    }
}

/// The position of the first record of an install.
pub open spec fn install_position<S>(s: Seq<(InstallKey, S)>, key: InstallKey) -> Option<int>
    decreases s.len(),
{
    if s.len() == 0 {
        None
    } else {
        match install_position(s.drop_last(), key) {
            Some(i) => Some(i),
            None => if same_install(s.last().0, key) {
                Some(s.len() - 1)
            } else {
                None
            },
        }
    }
}

/// The state recorded for an install: that of its first record.
pub open spec fn install_state<S>(s: Seq<(InstallKey, S)>, key: InstallKey) -> Option<S> {
    match install_position(s, key) {
        Some(i) => Some(s[i].1),
        None => None,
    }
}

/// The records that do not name the install, in order.
pub open spec fn without_install<S>(s: Seq<(InstallKey, S)>, key: InstallKey) -> Seq<(InstallKey, S)>
    decreases s.len(),
{
    if s.len() == 0 {
        Seq::empty()
    } else if same_install(s.last().0, key) {
        without_install(s.drop_last(), key)
    } else {
        without_install(s.drop_last(), key).push(s.last())
    }
}

/// The first record of an install is the first entry naming it.
pub proof fn lemma_install_position<S>(s: Seq<(InstallKey, S)>, key: InstallKey)
    ensures
        match install_position(s, key) {
            Some(i) => 0 <= i < s.len() && same_install(s[i].0, key) && forall|j: int|
                0 <= j < i ==> !same_install(#[trigger] s[j].0, key),
            None => forall|j: int| 0 <= j < s.len() ==> !same_install(#[trigger] s[j].0, key),
        },
    decreases s.len(),
{
    if s.len() > 0 {
        let t = s.drop_last();
        lemma_install_position(t, key);
        assert forall|j: int| 0 <= j < t.len() implies t[j] == s[j] by {}
    }
}

proof fn lemma_position_is<S>(s: Seq<(InstallKey, S)>, key: InstallKey, i: int)
    requires
        0 <= i < s.len(),
        same_install(s[i].0, key),
        forall|j: int| 0 <= j < i ==> !same_install(#[trigger] s[j].0, key),
    ensures
        install_position(s, key) == Some(i),
{
    lemma_install_position(s, key);
    match install_position(s, key) {
        Some(k) => {
            if k < i {
                assert(!same_install(s[k].0, key));
            } else if k > i {
                assert(!same_install(s[i].0, key));
            }
        },
        None => {
            assert(!same_install(s[i].0, key));
        },
    }
}

proof fn lemma_position_none<S>(s: Seq<(InstallKey, S)>, key: InstallKey)
    requires
        forall|j: int| 0 <= j < s.len() ==> !same_install(#[trigger] s[j].0, key),
    ensures
        install_position(s, key) is None,
{
    lemma_install_position(s, key);
    if let Some(k) = install_position(s, key) {
        assert(!same_install(s[k].0, key));
    }
}

/// Replacing the first record of an install gives the install the new
/// state and leaves every other install as it was.
pub proof fn lemma_replace_record<S>(s: Seq<(InstallKey, S)>, key: InstallKey, state: S, other: InstallKey)
    requires
        install_position(s, key) is Some,
    ensures
        install_state(s.update(install_position(s, key)->0, (key, state)), key) == Some(state),
        !same_install(other, key) ==> install_state(
            s.update(install_position(s, key)->0, (key, state)),
            other,
        ) == install_state(s, other),
{
    let i = install_position(s, key)->0;
    let u = s.update(i, (key, state));
    lemma_install_position(s, key);
    assert forall|j: int| 0 <= j < i implies !same_install(#[trigger] u[j].0, key) by {
        assert(u[j] == s[j]);
    }
    lemma_position_is(u, key, i);
    if !same_install(other, key) {
        lemma_install_position(s, other);
        match install_position(s, other) {
            Some(k) => {
                assert(k != i);
                assert forall|j: int| 0 <= j < k implies !same_install(#[trigger] u[j].0, other) by {
                    if j != i {
                        assert(u[j] == s[j]);
                    }
                }
                assert(u[k] == s[k]);
                lemma_position_is(u, other, k);
            },
            None => {
                assert forall|j: int| 0 <= j < u.len() implies !same_install(#[trigger] u[j].0, other) by {
                    if j != i {
                        assert(u[j] == s[j]);
                    }
                }
                lemma_position_none(u, other);
            },
        }
    }
}

/// Removing an install's records forgets it, keeps every other install's
/// state, and shortens the records exactly when the install was recorded.
pub proof fn lemma_without_install<S>(s: Seq<(InstallKey, S)>, key: InstallKey, other: InstallKey)
    ensures
        install_state(without_install(s, key), key) is None,
        !same_install(other, key) ==> install_state(without_install(s, key), other)
            == install_state(s, other),
        (without_install(s, key).len() < s.len()) == (install_state(s, key) is Some),
        without_install(s, key).len() <= s.len(),
    decreases s.len(),
{
    if s.len() > 0 {
        let t = s.drop_last();
        lemma_without_install(t, key, other);
        let w = without_install(t, key);
        if let Some(i) = install_position(t, other) {
            lemma_install_position(t, other);
            assert(s[i] == t[i]);
        }
        if !same_install(s.last().0, key) {
            let w2 = w.push(s.last());
            assert(w2.drop_last() =~= w);
            if let Some(i) = install_position(w, other) {
                lemma_install_position(w, other);
                assert(w2[i] == w[i]);
            }
            if let Some(i) = install_position(w, key) {
                lemma_install_position(w, key);
            }
        }
    }
}

/// The development install records, each with the state of its install.
pub struct DevInstallStore<S> {
    pub states: Vec<(InstallKey, S)>,
}

impl<S> DevInstallStore<S> {
    /// An empty store.
    pub fn new() -> (r: Self)
        ensures
            r.states@.len() == 0,
    {
        DevInstallStore { states: Vec::new() }
    }

    fn position(&self, key: &InstallKey) -> (r: Option<usize>)
        ensures
            match r {
                Some(i) => install_position(self.states@, *key) == Some(i as int) && i
                    < self.states@.len(),
                None => install_position(self.states@, *key) is None,
            },
    {
        for i in 0..self.states.len()
            invariant
                forall|j: int| 0 <= j < i ==> !same_install(#[trigger] self.states@[j].0, *key),
        {
            if self.states[i].0.same(key) {
                proof {
                    lemma_position_is(self.states@, *key, i as int);
                }
                return Some(i);
            }
        }
        proof {
            lemma_position_none(self.states@, *key);
        }
        None
    }

    /// The state recorded for an install.
    pub fn get(&self, key: &InstallKey) -> (r: Option<&S>)
        ensures
            match install_state(self.states@, *key) {
                Some(v) => r matches Some(x) && *x == v,
                None => r is None,
            },
    {
        match self.position(key) {
            Some(i) => Some(&self.states[i].1),
            None => None,
        }
    }

    /// Records an install's state. An install already recorded is replaced
    /// only when updates are allowed; otherwise the store is left as it
    /// was and the request refused.
    pub fn upsert_install_record(&mut self, key: InstallKey, state: S, allow_update: bool) -> (r:
        Result<(), String>)
        ensures
            match install_position(old(self).states@, key) {
                Some(i) => if allow_update {
                    r is Ok && final(self).states@ == old(self).states@.update(i, (key, state))
                } else {
                    (r matches Err(e) && e@ == "install record already exists (use --update to overwrite)"@)
                        && final(self).states@ == old(self).states@
                },
                None => r is Ok && final(self).states@ == old(self).states@.push((key, state)),
            },
            r is Ok ==> install_state(final(self).states@, key) == Some(state),
            forall|other: InstallKey|
                !same_install(other, key) ==> install_state(final(self).states@, other)
                    == install_state(old(self).states@, other),
    {
        match self.position(&key) {
            Some(i) => {
                if !allow_update {
                    return Err(owned("install record already exists (use --update to overwrite)"));
                }
                let ghost before = self.states@;
                let ghost k = key;
                let ghost st = state;
                let _ = self.states.remove(i);
                self.states.insert(i, (key, state));
                proof {
                    assert(self.states@ =~= before.update(i as int, (k, st)));
                    lemma_replace_record(before, k, st, k);
                    assert forall|other: InstallKey|
                        !same_install(other, k) implies install_state(self.states@, other)
                            == install_state(before, other) by {
                        lemma_replace_record(before, k, st, other);
                    }
                }
                Ok(())
            },
            None => {
                let ghost before = self.states@;
                let ghost k = key;
                self.states.push((key, state));
                proof {
                    assert(self.states@.drop_last() =~= before);
                    assert forall|other: InstallKey|
                        !same_install(other, k) implies install_state(self.states@, other)
                            == install_state(before, other) by {
                        lemma_install_position(before, other);
                        if let Some(j) = install_position(before, other) {
                            assert(self.states@[j] == before[j]);
                        }
                    }
                }
                Ok(())
            },
        }
    }

    /// Removes every record of an install; returns whether there was one.
    /// The install is then unknown and the others keep their states.
    pub fn delete_install_record(&mut self, key: &InstallKey) -> (r: bool)
        ensures
            final(self).states@ == without_install(old(self).states@, *key),
            r == (install_state(old(self).states@, *key) is Some),
            install_state(final(self).states@, *key) is None,
            forall|other: InstallKey|
                !same_install(other, *key) ==> install_state(final(self).states@, other)
                    == install_state(old(self).states@, other),
    {
        let ghost s = self.states@;
        let mut es: Vec<(InstallKey, S)> = Vec::new();
        std::mem::swap(&mut es, &mut self.states);
        let n = es.len();
        let mut out: Vec<(InstallKey, S)> = Vec::new();
        let mut k: usize = 0;
        while es.len() > 0
            invariant
                s.len() == n,
                k + es@.len() == n,
                es@ == s.skip(k as int),
                out@ == without_install(s.take(k as int), *key),
            decreases es.len(),
        {
            let e = es.remove(0);
            proof {
                assert(e == s[k as int]);
                assert(s.take(k + 1).drop_last() =~= s.take(k as int));
                assert(s.take(k + 1).last() == s[k as int]);
                assert(es@ =~= s.skip(k + 1));
            }
            if !e.0.same(key) {
                out.push(e);
            }
            k = k + 1;
        }
        proof {
            assert(s.take(n as int) =~= s);
            lemma_without_install(s, *key, *key);
            assert forall|other: InstallKey|
                !same_install(other, *key) implies install_state(out@, other) == install_state(
                    s,
                    other,
                ) by {
                lemma_without_install(s, *key, other);
            }
        }
        let removed = out.len() != n;
        self.states = out;
        removed
    }
}

/// The pack paths without repeats, each kept where it first appears.
pub open spec fn first_occurrences(s: Seq<Seq<char>>) -> Seq<Seq<char>>
    decreases s.len(),
{
    if s.len() == 0 {
        Seq::empty()
    } else if s.drop_last().contains(s.last()) {
        first_occurrences(s.drop_last())
    } else {
        first_occurrences(s.drop_last()).push(s.last())
    }
}

proof fn lemma_first_occurrences_contains(s: Seq<Seq<char>>, x: Seq<char>)
    ensures
        first_occurrences(s).contains(x) == s.contains(x),
    decreases s.len(),
{
    if s.len() > 0 {
        let t = s.drop_last();
        lemma_first_occurrences_contains(t, x);
        lemma_first_occurrences_contains(t, s.last());
        let f = first_occurrences(t);
        if s.contains(x) {
            let i = choose|i: int| 0 <= i < s.len() && s[i] == x;
            if i < s.len() - 1 {
                assert(t[i] == x);
            }
        }
        if t.contains(x) {
            let i = choose|i: int| 0 <= i < t.len() && t[i] == x;
            assert(s[i] == x);
        }
        if !t.contains(s.last()) {
            let g = f.push(s.last());
            assert(g[f.len() as int] == s.last());
            if g.contains(x) {
                let i = choose|i: int| 0 <= i < g.len() && g[i] == x;
                if i < f.len() {
                    assert(f[i] == x);
                }
            }
            if f.contains(x) {
                let i = choose|i: int| 0 <= i < f.len() && f[i] == x;
                assert(g[i] == x);
            }
        }
    }
}

/// Deduplicated pack paths name every given path and none twice.
pub proof fn lemma_first_occurrences(s: Seq<Seq<char>>)
    ensures
        forall|x: Seq<char>| #[trigger] first_occurrences(s).contains(x) == s.contains(x),
        forall|i: int, j: int|
            0 <= i < j < first_occurrences(s).len() ==> first_occurrences(s)[i] != first_occurrences(s)[j],
    decreases s.len(),
{
    assert forall|x: Seq<char>| #[trigger] first_occurrences(s).contains(x) == s.contains(x) by {
        lemma_first_occurrences_contains(s, x);
    }
    if s.len() > 0 {
        let t = s.drop_last();
        lemma_first_occurrences(t);
        lemma_first_occurrences_contains(t, s.last());
    }
}

pub(crate) fn contains_text(items: &Vec<String>, x: &str) -> (r: bool)
    ensures
        r == views(items@).contains(x@),
{
    for i in 0..items.len()
        invariant
            forall|j: int| 0 <= j < i ==> items@[j]@ != x@,
    {
        if str_eq(items[i].as_str(), x) {
            proof {
                assert(views(items@)[i as int] == x@);
            }
            return true;
        }
    }
    proof {
        if views(items@).contains(x@) {
            let j = choose|j: int| 0 <= j < views(items@).len() && views(items@)[j] == x@;
            assert(items@[j]@ == x@);
        }
    }
    false
}

/// Drops repeated pack paths, keeping the first of each.
pub fn dedupe_pack_paths(paths: Vec<String>) -> (r: Vec<String>)
    ensures
        views(r@) == first_occurrences(views(paths@)),
{
    let mut out: Vec<String> = Vec::new();
    for i in 0..paths.len()
        invariant
            views(out@) == first_occurrences(views(paths@).take(i as int)),
    {
        let ghost t = views(paths@).take(i + 1);
        proof {
            assert(t.drop_last() =~= views(paths@).take(i as int));
            assert(t.last() == paths@[i as int]@);
            lemma_first_occurrences_contains(views(paths@).take(i as int), paths@[i as int]@);
        }
        if !contains_text(&out, paths[i].as_str()) {
            let ghost before = out@;
            out.push(paths[i].clone());
            proof {
                assert(views(out@) =~= views(before).push(paths@[i as int]@));
            }
        }
    }
    proof {
        assert(views(paths@).take(paths.len() as int) =~= views(paths@));
    }
    out
}

/// The development context: environment, tenant and team.
#[derive(Clone, Debug, PartialEq, Eq)]
pub struct DevContext {
    pub env: String,
    pub tenant: String,
    pub team: String,
}

/// The configured development defaults.
#[derive(Clone, Debug, PartialEq, Eq)]
pub struct DevDefaults {
    pub default_env: String,
    pub default_tenant: String,
    pub default_team: Option<String>,
}

/// The defaults used when no configuration provides them: environment
/// `dev`, tenant `example`, no team.
pub fn default_dev_config() -> (r: DevDefaults)
    ensures
        r.default_env@ == "dev"@,
        r.default_tenant@ == "example"@,
        r.default_team is None,
{
    DevDefaults { default_env: owned("dev"), default_tenant: owned("example"), default_team: None }
}

/// The development context: each value given wins over the configured
/// default; a team defaults to `default`.
pub fn resolve_dev_context(
    env: Option<String>,
    tenant: Option<String>,
    team: Option<String>,
    defaults: DevDefaults,
) -> (r: DevContext)
    ensures
        r.env == match env {
            Some(e) => e,
            None => defaults.default_env,
        },
        r.tenant == match tenant {
            Some(t) => t,
            None => defaults.default_tenant,
        },
        r.team@ == match team {
            Some(t) => t@,
            None => match defaults.default_team {
                Some(t) => t@,
                None => "default"@,
            },
        },
{
    let env = match env {
        Some(e) => e,
        None => defaults.default_env,
    };
    let tenant = match tenant {
        Some(t) => t,
        None => defaults.default_tenant,
    };
    let team = match team {
        Some(t) => t,
        None => match defaults.default_team {
            Some(t) => t,
            None => owned("default"),
        },
    };
    DevContext { env, tenant, team }
}

fn push_text(out: &mut Vec<String>, t: &str)
    ensures
        views(final(out)@) == views(old(out)@).push(t@),
{
    let ghost before = out@;
    out.push(owned(t));
    proof {
        assert(views(out@) =~= views(before).push(t@));
    }
}

/// Checks a setup request before anything runs: deleting and updating
/// together is refused, then a setup needs some pack.
pub fn dev_setup_preflight(delete: bool, update: bool, pack_count: usize) -> (r: Result<(), String>)
    ensures
        if delete && update {
            r matches Err(e) && e@ == "--delete cannot be combined with --update"@
        } else if pack_count == 0 {
            r matches Err(e) && e@ == "no packs available; add --pack or configure default packs"@
        } else {
            r is Ok
        },
{
    if delete && update {
        return Err(owned("--delete cannot be combined with --update"));
    }
    if pack_count == 0 {
        return Err(owned("no packs available; add --pack or configure default packs"));
    }
    Ok(())
}

/// The arguments that seed a pack's secrets for a context.
pub fn secrets_init_args(pack_path: &str, ctx: &DevContext) -> (r: Vec<String>)
    ensures
        views(r@) == seq![
            "init"@,
            "--pack"@,
            pack_path@,
            "--env"@,
            ctx.env@,
            "--tenant"@,
            ctx.tenant@,
            "--team"@,
            ctx.team@,
        ],
{
    let mut v: Vec<String> = Vec::new();
    push_text(&mut v, "init");
    push_text(&mut v, "--pack");
    push_text(&mut v, pack_path);
    push_text(&mut v, "--env");
    push_text(&mut v, ctx.env.as_str());
    push_text(&mut v, "--tenant");
    push_text(&mut v, ctx.tenant.as_str());
    push_text(&mut v, "--team");
    push_text(&mut v, ctx.team.as_str());
    v
}

/// The arguments that start a provider's OAuth consent for a tenant.
pub fn oauth_start_args(provider: &str, tenant: &str) -> (r: Vec<String>)
    ensures
        views(r@) == seq!["start"@, provider@, "--tenant"@, tenant@],
{
    let mut v: Vec<String> = Vec::new();
    push_text(&mut v, "start");
    push_text(&mut v, provider);
    push_text(&mut v, "--tenant");
    push_text(&mut v, tenant);
    v
}

/// The arguments of the provisioning dry run that plans a setup.
pub fn provision_setup_args(pack_path: &str, provider: &str, install_id: &str, public_base_url: &str) -> (r:
    Vec<String>)
    ensures
        views(r@) == seq![
            "dry-run"@,
            "setup"@,
            "--pack"@,
            pack_path@,
            "--provider-id"@,
            provider@,
            "--install-id"@,
            install_id@,
            "--public-base-url"@,
            public_base_url@,
            "--json"@,
        ],
{
    let mut v: Vec<String> = Vec::new();
    push_text(&mut v, "dry-run");
    push_text(&mut v, "setup");
    push_text(&mut v, "--pack");
    push_text(&mut v, pack_path);
    push_text(&mut v, "--provider-id");
    push_text(&mut v, provider);
    push_text(&mut v, "--install-id");
    push_text(&mut v, install_id);
    push_text(&mut v, "--public-base-url");
    push_text(&mut v, public_base_url);
    push_text(&mut v, "--json");
    v
}

/// The arguments of the setup-only conformance run of the test tool.
pub fn setup_conformance_args(public_base_url: &str, pack_path: &str, ctx: &DevContext) -> (r: Vec<
    String,
>)
    ensures
        views(r@) == seq![
            "packs"@,
            "conformance"@,
            "--setup-only"@,
            "--public-base-url"@,
            public_base_url@,
            "--pack-path"@,
            pack_path@,
            "--env"@,
            ctx.env@,
            "--tenant"@,
            ctx.tenant@,
            "--team"@,
            ctx.team@,
        ],
{
    let mut v: Vec<String> = Vec::new();
    push_text(&mut v, "packs");
    push_text(&mut v, "conformance");
    push_text(&mut v, "--setup-only");
    push_text(&mut v, "--public-base-url");
    push_text(&mut v, public_base_url);
    push_text(&mut v, "--pack-path");
    push_text(&mut v, pack_path);
    push_text(&mut v, "--env");
    push_text(&mut v, ctx.env.as_str());
    push_text(&mut v, "--tenant");
    push_text(&mut v, ctx.tenant.as_str());
    push_text(&mut v, "--team");
    push_text(&mut v, ctx.team.as_str());
    v
}

/// What deleting an install record reports.
pub fn delete_outcome_message(removed: bool, provider: &str, install_id: &str) -> (r: String)
    ensures
        r@ == (if removed {
            "Deleted install record for "@
        } else {
            "No install record found for "@
        }) + provider@ + " ("@ + install_id@ + ")"@,
{
    let mut m = if removed {
        owned("Deleted install record for ")
    } else {
        owned("No install record found for ")
    };
    push_str(&mut m, provider);
    push_str(&mut m, " (");
    push_str(&mut m, install_id);
    push_str(&mut m, ")");
    m
}

/// What a completed setup reports.
pub fn setup_complete_message(provider: &str, install_id: &str, ctx: &DevContext) -> (r: String)
    ensures
        r@ == "Setup complete for "@ + provider@ + " (install_id="@ + install_id@ + ", env="@
            + ctx.env@ + ", tenant="@ + ctx.tenant@ + ", team="@ + ctx.team@ + ")"@,
{
    let mut m = concat2("Setup complete for ", provider);
    push_str(&mut m, " (install_id=");
    push_str(&mut m, install_id);
    push_str(&mut m, ", env=");
    push_str(&mut m, ctx.env.as_str());
    push_str(&mut m, ", tenant=");
    push_str(&mut m, ctx.tenant.as_str());
    push_str(&mut m, ", team=");
    push_str(&mut m, ctx.team.as_str());
    push_str(&mut m, ")");
    m
}

/// The services the development stack starts: gateway, runner and
/// egress, and the Teams subscriptions worker when asked for.
pub open spec fn dev_services_of(subscriptions: bool) -> Seq<Seq<char>> {
    let base = seq!["gsm-gateway"@, "gsm-runner"@, "gsm-egress"@];
    if subscriptions {
        base.push("gsm-subscriptions-teams"@)
    } else {
        base
    }
}

/// The packages `dev up` starts, in order.
pub fn dev_services(subscriptions: bool) -> (r: Vec<String>)
    ensures
        views(r@) == dev_services_of(subscriptions),
{
    let mut v: Vec<String> = Vec::new();
    push_text(&mut v, "gsm-gateway");
    push_text(&mut v, "gsm-runner");
    push_text(&mut v, "gsm-egress");
    if subscriptions {
        push_text(&mut v, "gsm-subscriptions-teams");
    }
    v
}

/// The environment of the development stack: the serve environment and
/// the public base URL.
pub fn dev_up_envs(config: &ServeEnvConfig, public_base_url: &str) -> (r: Vec<(String, String)>)
    ensures
        pair_views(r@) == serve_envs_of(*config).push(("PUBLIC_BASE_URL"@, public_base_url@)),
{
    let mut envs = build_serve_envs(config);
    push_pair(&mut envs, "PUBLIC_BASE_URL", public_base_url);
    envs
}

/// The lines a dry run of `dev up` prints: one per started package.
pub fn dev_up_dry_run_lines(envs: &Vec<(String, String)>, subscriptions: bool) -> (r: Vec<String>)
    ensures
        views(r@) == dev_services_of(subscriptions).map_values(
            |p: Seq<char>| dry_run_cargo_text(pair_views(envs@), p, Seq::empty()),
        ),
{
    let services = dev_services(subscriptions);
    let no_args: Vec<String> = Vec::new();
    let mut out: Vec<String> = Vec::new();
    for i in 0..services.len()
        invariant
            views(services@) == dev_services_of(subscriptions),
            no_args@.len() == 0,
            views(out@) == views(services@).take(i as int).map_values(
                |p: Seq<char>| dry_run_cargo_text(pair_views(envs@), p, Seq::empty()),
            ),
    {
        let ghost before = views(out@);
        let line = dry_run_cargo_line(envs, services[i].as_str(), &no_args);
        out.push(line);
        proof {
            assert(views(no_args@) =~= Seq::<Seq<char>>::empty());
            assert(views(out@) =~= before.push(
                dry_run_cargo_text(pair_views(envs@), services@[i as int]@, Seq::empty()),
            ));
            assert(views(services@).take(i + 1).map_values(
                |p: Seq<char>| dry_run_cargo_text(pair_views(envs@), p, Seq::empty()),
            ) =~= views(out@));
        }
    }
    proof {
        assert(views(services@).take(services.len() as int) =~= views(services@));
    }
    out
}

/// What `serve` starts.
#[derive(Clone, Copy, Debug, PartialEq, Eq)]
pub enum ServeKind {
    Ingress,
    Egress,
    Subscriptions,
    Pack,
}

/// The name of a serve kind as the start line shows it.
pub open spec fn serve_kind_name(k: ServeKind) -> Seq<char> {
    match k {
        ServeKind::Ingress => "Ingress"@,
        ServeKind::Egress => "Egress"@,
        ServeKind::Subscriptions => "Subscriptions"@,
        ServeKind::Pack => "Pack"@,
    }
}

impl ServeKind {
    /// The kind's name.
    pub fn name(self) -> (r: &'static str)
        ensures
            r@ == serve_kind_name(self),
    {
        match self {
            ServeKind::Ingress => "Ingress",
            ServeKind::Egress => "Egress",
            ServeKind::Subscriptions => "Subscriptions",
            ServeKind::Pack => "Pack",
        }
    }
}

/// The platform a serve request names: none for packs, which derive their
/// platforms; the others require one.
pub fn serve_platform(kind: ServeKind, platform: Option<String>) -> (r: Result<Option<String>, String>)
    ensures
        match kind {
            ServeKind::Pack => r == Ok::<Option<String>, String>(None),
            _ => match platform {
                Some(p) => r == Ok::<Option<String>, String>(Some(p)),
                None => r matches Err(e) && e@ == "missing platform (e.g. slack, teams)"@,
            },
        },
{
    match kind {
        ServeKind::Pack => Ok(None),
        _ => match platform {
            Some(p) => Ok(Some(p)),
            None => Err(owned("missing platform (e.g. slack, teams)")),
        },
    }
}

/// The package a single-service serve starts; packs choose theirs from
/// their adapters.
pub fn serve_package(kind: ServeKind) -> (r: Option<&'static str>)
    ensures
        match kind {
            ServeKind::Ingress => r matches Some(p) && p@ == "gsm-gateway"@,
            ServeKind::Egress => r matches Some(p) && p@ == "gsm-egress"@,
            ServeKind::Subscriptions => r matches Some(p) && p@ == "gsm-subscriptions-teams"@,
            ServeKind::Pack => r is None,
        },
{
    match kind {
        ServeKind::Ingress => Some("gsm-gateway"),
        ServeKind::Egress => Some("gsm-egress"),
        ServeKind::Subscriptions => Some("gsm-subscriptions-teams"),
        ServeKind::Pack => None,
    }
}

/// The context part of a start line.
pub open spec fn serve_context_text(c: ServeEnvConfig) -> Seq<char> {
    "env="@ + c.env_scope@ + ", tenant="@ + c.tenant@ + ", team="@ + c.team@ + ", nats="@
        + c.nats_url@ + ", packs_root="@ + c.packs_root@
}

fn serve_context(c: &ServeEnvConfig) -> (r: String)
    ensures
        r@ == serve_context_text(*c),
{
    let mut m = concat2("env=", c.env_scope.as_str());
    push_str(&mut m, ", tenant=");
    push_str(&mut m, c.tenant.as_str());
    push_str(&mut m, ", team=");
    push_str(&mut m, c.team.as_str());
    push_str(&mut m, ", nats=");
    push_str(&mut m, c.nats_url.as_str());
    push_str(&mut m, ", packs_root=");
    push_str(&mut m, c.packs_root.as_str());
    m
}

/// The line printed when a single service starts.
pub fn serve_start_line(kind: ServeKind, platform: &str, config: &ServeEnvConfig) -> (r: String)
    ensures
        r@ == "Starting "@ + serve_kind_name(kind) + " "@ + platform@ + " ("@ + serve_context_text(
            *config,
        ) + ")"@,
{
    let mut m = concat2("Starting ", kind.name());
    push_str(&mut m, " ");
    push_str(&mut m, platform);
    push_str(&mut m, " (");
    let ctx = serve_context(config);
    push_str(&mut m, ctx.as_str());
    push_str(&mut m, ")");
    m
}

/// The direction of a messaging adapter.
#[derive(Clone, Copy, Debug, PartialEq, Eq, Structural)]
pub enum AdapterKind {
    Ingress,
    Egress,
    IngressEgress,
}

/// Whether some adapter receives, and whether some adapter sends.
pub fn adapter_directions(kinds: &Vec<AdapterKind>) -> (r: (bool, bool))
    ensures
        r.0 == exists|i: int| 0 <= i < kinds@.len() && !(#[trigger] kinds@[i] is Egress),
        r.1 == exists|i: int| 0 <= i < kinds@.len() && !(#[trigger] kinds@[i] is Ingress),
{
    let mut ingress = false;
    let mut egress = false;
    for i in 0..kinds.len()
        invariant
            ingress == exists|j: int| 0 <= j < i && !(#[trigger] kinds@[j] is Egress),
            egress == exists|j: int| 0 <= j < i && !(#[trigger] kinds@[j] is Ingress),
    {
        match kinds[i] {
            AdapterKind::Ingress => {
                ingress = true;
            },
            AdapterKind::Egress => {
                egress = true;
            },
            AdapterKind::IngressEgress => {
                ingress = true;
                egress = true;
            },
        }
    }
    (ingress, egress)
}

/// The packages a pack serve starts: the gateway for receiving adapters,
/// egress for sending ones, and the Teams subscriptions worker when Teams
/// is among the platforms.
pub open spec fn pack_packages_of(has_ingress: bool, has_egress: bool, platforms: Seq<Seq<char>>) -> Seq<
    Seq<char>,
> {
    (if has_ingress {
        seq!["gsm-gateway"@]
    } else {
        Seq::empty()
    }) + (if has_egress {
        seq!["gsm-egress"@]
    } else {
        Seq::empty()
    }) + (if platforms.contains("teams"@) {
        seq!["gsm-subscriptions-teams"@]
    } else {
        Seq::empty()
    })
}

/// Chooses the packages of a pack serve; choosing none is refused.
pub fn pack_service_packages(has_ingress: bool, has_egress: bool, platforms: &Vec<String>) -> (r:
    Result<Vec<String>, String>)
    ensures
        if pack_packages_of(has_ingress, has_egress, views(platforms@)).len() == 0 {
            r matches Err(e) && e@ == "no services selected from pack adapters"@
        } else {
            r matches Ok(v) && views(v@) == pack_packages_of(has_ingress, has_egress, views(platforms@))
        },
{
    let mut v: Vec<String> = Vec::new();
    if has_ingress {
        push_text(&mut v, "gsm-gateway");
    }
    let ghost a = views(v@);
    if has_egress {
        push_text(&mut v, "gsm-egress");
    }
    let ghost b = views(v@);
    if contains_text(platforms, "teams") {
        push_text(&mut v, "gsm-subscriptions-teams");
    }
    proof {
        let x = if has_ingress {
            seq!["gsm-gateway"@]
        } else {
            Seq::empty()
        };
        let y = if has_egress {
            seq!["gsm-egress"@]
        } else {
            Seq::empty()
        };
        assert(a =~= x);
        assert(b =~= x + y);
        assert(views(v@) =~= pack_packages_of(has_ingress, has_egress, views(platforms@)));
    }
    if v.len() == 0 {
        return Err(owned("no services selected from pack adapters"));
    }
    Ok(v)
}

/// The platforms of a pack serve as shown: comma-separated, or
/// `(unknown)` when none could be inferred.
pub fn platform_list(platforms: &Vec<String>) -> (r: String)
    ensures
        r@ == if platforms@.len() == 0 {
            "(unknown)"@
        } else {
            join(views(platforms@), ", "@)
        },
{
    if platforms.len() == 0 {
        owned("(unknown)")
    } else {
        join_strings(platforms, ", ")
    }
}

/// The line printed when a pack serve starts its packages.
pub fn pack_services_line(packages: &Vec<String>, platforms: &Vec<String>, config: &ServeEnvConfig) -> (r:
    String)
    ensures
        r@ == "Starting pack services ["@ + join(views(packages@), ", "@) + "] (platforms="@
            + (if platforms@.len() == 0 {
            "(unknown)"@
        } else {
            join(views(platforms@), ", "@)
        }) + ", "@ + serve_context_text(*config) + ")"@,
{
    let joined = join_strings(packages, ", ");
    let mut m = concat2("Starting pack services [", joined.as_str());
    push_str(&mut m, "] (platforms=");
    let pl = platform_list(platforms);
    push_str(&mut m, pl.as_str());
    push_str(&mut m, ", ");
    let ctx = serve_context(config);
    push_str(&mut m, ctx.as_str());
    push_str(&mut m, ")");
    m
}

/// The commands that run the test tool.
#[derive(Clone, Debug, PartialEq, Eq)]
pub enum TestCommand {
    Fixtures,
    Adapters,
    Run { fixture: String, dry_run: bool },
    All { dry_run: bool },
    GenGolden,
}

/// The test tool's arguments for a command; running all fixtures for real
/// is refused.
pub fn test_command_args(cmd: &TestCommand) -> (r: Result<Vec<String>, String>)
    ensures
        match *cmd {
            TestCommand::Fixtures => r matches Ok(v) && views(v@) == seq!["fixtures"@],
            TestCommand::Adapters => r matches Ok(v) && views(v@) == seq!["adapters"@],
            TestCommand::Run { fixture, dry_run } => r matches Ok(v) && views(v@) == if dry_run {
                seq!["run"@, fixture@, "--dry-run"@]
            } else {
                seq!["run"@, fixture@]
            },
            TestCommand::All { dry_run } => if dry_run {
                r matches Ok(v) && views(v@) == seq!["all"@, "--dry-run"@]
            } else {
                r matches Err(e) && e@ == "`greentic-messaging test all` requires --dry-run for safety"@
            },
            TestCommand::GenGolden => r matches Ok(v) && views(v@) == seq!["gen-golden"@],
        },
{
    let mut v: Vec<String> = Vec::new();
    match cmd {
        TestCommand::Fixtures => push_text(&mut v, "fixtures"),
        TestCommand::Adapters => push_text(&mut v, "adapters"),
        TestCommand::Run { fixture, dry_run } => {
            push_text(&mut v, "run");
            push_text(&mut v, fixture.as_str());
            if *dry_run {
                push_text(&mut v, "--dry-run");
            }
        },
        TestCommand::All { dry_run } => {
            if !*dry_run {
                return Err(owned("`greentic-messaging test all` requires --dry-run for safety"));
            }
            push_text(&mut v, "all");
            push_text(&mut v, "--dry-run");
        },
        TestCommand::GenGolden => push_text(&mut v, "gen-golden"),
    }
    Ok(v)
}

/// Why the retired messaging commands fail.
pub fn legacy_disabled_message() -> (r: String)
    ensures
        r@ == "Legacy messaging is disabled. Use `messaging dev up`."@,
{
    owned("Legacy messaging is disabled. Use `messaging dev up`.")
}

/// `n` spaces.
pub open spec fn spaces(n: int) -> Seq<char> {
    Seq::new(if n > 0 { n as nat } else { 0 }, |i: int| ' ')
}

/// The text left-aligned in a field of `width` characters.
pub open spec fn pad_right(s: Seq<char>, width: int) -> Seq<char> {
    s + spaces(width - s.len())
}

/// The text right-aligned in a field of `width` characters.
pub open spec fn pad_left(s: Seq<char>, width: int) -> Seq<char> {
    spaces(width - s.len()) + s
}

fn space_run(n: usize) -> (r: String)
    ensures
        r@ == spaces(n as int),
{
    let mut s = String::new();
    for i in 0..n
        invariant
            s@ == spaces(i as int),
    {
        push_char(&mut s, ' ');
        proof {
            assert(s@ =~= spaces(i + 1));
        }
    }
    s
}

/// Left-aligns text in a field, as `{:<width}` does.
pub fn padded_right(s: &str, width: usize) -> (r: String)
    ensures
        r@ == pad_right(s@, width as int),
{
    let n = to_chars(s).len();
    let pad = if n < width { width - n } else { 0 };
    let sp = space_run(pad);
    proof {
        assert(spaces(pad as int) =~= spaces(width - s@.len()));
    }
    concat2(s, sp.as_str())
}

/// Right-aligns text in a field, as `{:>width}` does.
pub fn padded_left(s: &str, width: usize) -> (r: String)
    ensures
        r@ == pad_left(s@, width as int),
{
    let n = to_chars(s).len();
    let pad = if n < width { width - n } else { 0 };
    let sp = space_run(pad);
    proof {
        assert(spaces(pad as int) =~= spaces(width - s@.len()));
    }
    concat2(sp.as_str(), s)
}

/// One guard rail line: the name in a field of sixteen, the status
/// right-aligned in eight, then the detail.
pub open spec fn guard_line_text(name: Seq<char>, enabled: bool, detail: Seq<char>) -> Seq<char> {
    "- "@ + pad_right(name, 16) + " "@ + pad_left(
        if enabled {
            "ENABLED"@
        } else {
            "disabled"@
        },
        8,
    ) + " – "@ + detail
}

/// Formats one guard rail line.
pub fn guard_line(name: &str, enabled: bool, detail: &str) -> (r: String)
    ensures
        r@ == guard_line_text(name@, enabled, detail@),
{
    let n = padded_right(name, 16);
    let st = padded_left(if enabled { "ENABLED" } else { "disabled" }, 8);
    let mut m = concat2("- ", n.as_str());
    push_str(&mut m, " ");
    push_str(&mut m, st.as_str());
    push_str(&mut m, " – ");
    push_str(&mut m, detail);
    m
}

/// What the guard rails read from the environment.
#[derive(Clone, Debug, PartialEq, Eq)]
pub struct GuardRailSettings {
    pub bearer_set: bool,
    pub hmac_secret_set: bool,
    pub hmac_header: Option<String>,
    pub jwt_secret_set: bool,
    pub action_base_url: Option<String>,
    pub jwt_alg: Option<String>,
}

/// The HMAC header in use: the configured one, else `x-signature`.
pub open spec fn hmac_header_of(g: GuardRailSettings) -> Seq<char> {
    match g.hmac_header {
        Some(h) => h@,
        None => "x-signature"@,
    }
}

/// Action links need a signing secret and a base URL that is not blank.
pub open spec fn action_links_enabled(g: GuardRailSettings) -> bool {
    g.jwt_secret_set && (g.action_base_url matches Some(b) && trim(b@).len() > 0)
}

/// The lines that show the ingress guard rails.
pub open spec fn guard_rails_text(g: GuardRailSettings) -> Seq<Seq<char>> {
    let header = hmac_header_of(g);
    let bearer = if g.bearer_set {
        "Authorization header must include the configured bearer token"@
    } else {
        "unset (export INGRESS_BEARER to enforce Authorization: Bearer <token>)"@
    };
    let hmac = if g.hmac_secret_set {
        "enabled (expects base64(HMAC_SHA256(body)) in "@ + header + ")"@
    } else {
        "unset (export INGRESS_HMAC_SECRET and optional INGRESS_HMAC_HEADER, default "@ + header
            + ")"@
    };
    let alg = match g.jwt_alg {
        Some(a) => a@,
        None => "HS256"@,
    };
    let action = if action_links_enabled(g) {
        "signed action links enabled (alg="@ + alg + ", base="@ + g.action_base_url->0@ + ")"@
    } else {
        "unset (export JWT_SECRET, ACTION_BASE_URL, and optional JWT_ALG to enable signed action links)"@
    };
    seq![
        "Ingress guard rails:"@,
        guard_line_text("Bearer auth"@, g.bearer_set, bearer),
        guard_line_text("HMAC signature"@, g.hmac_secret_set, hmac),
        guard_line_text("Action links"@, action_links_enabled(g), action),
        ""@,
        "See README.md#admin--security-helpers for full details."@,
    ]
}

/// Shows the ingress guard rails.
pub fn guard_rails_lines(g: &GuardRailSettings) -> (r: Vec<String>)
    ensures
        views(r@) == guard_rails_text(*g),
{
    let header: &str = match &g.hmac_header {
        Some(h) => h.as_str(),
        None => "x-signature",
    };
    let bearer: &str = if g.bearer_set {
        "Authorization header must include the configured bearer token"
    } else {
        "unset (export INGRESS_BEARER to enforce Authorization: Bearer <token>)"
    };
    let hmac = if g.hmac_secret_set {
        let mut m = concat2("enabled (expects base64(HMAC_SHA256(body)) in ", header);
        push_str(&mut m, ")");
        m
    } else {
        let mut m = concat2(
            "unset (export INGRESS_HMAC_SECRET and optional INGRESS_HMAC_HEADER, default ",
            header,
        );
        push_str(&mut m, ")");
        m
    };
    let alg: &str = match &g.jwt_alg {
        Some(a) => a.as_str(),
        None => "HS256",
    };
    let enabled = g.jwt_secret_set && match &g.action_base_url {
        Some(b) => !crate::text::is_blank(b.as_str()),
        None => false,
    };
    let action = if enabled {
        let base: &str = match &g.action_base_url {
            Some(b) => b.as_str(),
            None => "",
        };
        let mut m = concat2("signed action links enabled (alg=", alg);
        push_str(&mut m, ", base=");
        push_str(&mut m, base);
        push_str(&mut m, ")");
        m
    } else {
        owned(
            "unset (export JWT_SECRET, ACTION_BASE_URL, and optional JWT_ALG to enable signed action links)",
        )
    };
    let mut v: Vec<String> = Vec::new();
    push_text(&mut v, "Ingress guard rails:");
    let l1 = guard_line("Bearer auth", g.bearer_set, bearer);
    push_text(&mut v, l1.as_str());
    let l2 = guard_line("HMAC signature", g.hmac_secret_set, hmac.as_str());
    push_text(&mut v, l2.as_str());
    let l3 = guard_line("Action links", enabled, action.as_str());
    push_text(&mut v, l3.as_str());
    push_text(&mut v, "");
    push_text(&mut v, "See README.md#admin--security-helpers for full details.");
    v
}

/// Values listed in the order of a text key.
pub trait Keyed {
    /// The key the value is listed by.
    spec fn sort_key(&self) -> Seq<char>;

    /// The key as text.
    fn key_text(&self) -> (r: &str)
        ensures
            r@ == self.sort_key(),
    ;
}

/// Values in ascending key order.
pub open spec fn keys_sorted<T: Keyed>(s: Seq<T>) -> bool {
    forall|i: int, j: int| 0 <= i < j < s.len() ==> seq_le(s[i].sort_key(), s[j].sort_key())
}

/// The values in ascending key order, equal keys in their given order; the
/// same values as given.
pub fn sort_by_key<T: Keyed>(items: Vec<T>) -> (r: Vec<T>)
    ensures
        keys_sorted(r@),
        r@.to_multiset() == items@.to_multiset(),
{
    let mut rest = items;
    let mut out: Vec<T> = Vec::new();
    let ghost orig = rest@;
    proof {
        broadcast use vstd::seq_lib::group_to_multiset_ensures;

        assert(out@.to_multiset() =~= vstd::multiset::Multiset::empty());
        assert(rest@.to_multiset().add(out@.to_multiset()) =~= orig.to_multiset());
    }
    while rest.len() > 0
        invariant
            keys_sorted(out@),
            rest@.to_multiset().add(out@.to_multiset()) == orig.to_multiset(),
        decreases rest.len(),
    {
        let ghost r0 = rest@;
        let x = rest.remove(0);
        proof {
            assert(r0 =~= rest@.insert(0, x));
            vstd::seq_lib::to_multiset_insert(rest@, 0, x);
        }
        let mut j: usize = 0;
        while j < out.len() && str_le(out[j].key_text(), x.key_text())
            invariant
                j <= out.len(),
                forall|t: int| 0 <= t < j ==> seq_le((#[trigger] out@[t]).sort_key(), x.sort_key()),
            decreases out.len() - j,
        {
            j = j + 1;
        }
        let ghost before = out@;
        proof {
            if j < out.len() {
                lemma_seq_le_total(out@[j as int].sort_key(), x.sort_key());
                assert forall|t: int| j <= t < out@.len() implies seq_le(
                    x.sort_key(),
                    (#[trigger] out@[t]).sort_key(),
                ) by {
                    if t > j {
                        assert(seq_le(before[j as int].sort_key(), before[t].sort_key()));
                        lemma_seq_le_trans(x.sort_key(), out@[j as int].sort_key(), out@[t].sort_key());
                    }
                }
            }
        }
        out.insert(j, x);
        proof {
            vstd::seq_lib::to_multiset_insert(before, j as int, x);
            assert(r0.to_multiset() == rest@.to_multiset().insert(x));
            assert(rest@.to_multiset().add(out@.to_multiset()) =~= orig.to_multiset());
            assert forall|a: int, b: int| 0 <= a < b < out@.len() implies seq_le(
                out@[a].sort_key(),
                out@[b].sort_key(),
            ) by {
                if b == j {
                } else if a == j {
                } else {
                    let a0 = if a < j { a } else { a - 1 };
                    let b0 = if b < j { b } else { b - 1 };
                    assert(seq_le(before[a0].sort_key(), before[b0].sort_key()));
                }
            }
        }
    }
    proof {
        assert(rest@.to_multiset() =~= vstd::multiset::Multiset::empty());
        assert(out@.to_multiset() =~= orig.to_multiset());
    }
    out
}

/// A flow of a loaded pack, as `info` lists it.
#[derive(Clone, Debug, PartialEq, Eq)]
pub struct FlowSummary {
    pub id: String,
    pub kind: String,
    pub title: Option<String>,
}

impl Keyed for FlowSummary {
    open spec fn sort_key(&self) -> Seq<char> {
        self.id@
    }

    fn key_text(&self) -> (r: &str) {
        self.id.as_str()
    }
}

/// The flows of one loaded pack.
#[derive(Clone, Debug, PartialEq, Eq)]
pub struct PackFlowsSummary {
    pub label: String,
    pub flows: Vec<FlowSummary>,
}

impl Keyed for PackFlowsSummary {
    open spec fn sort_key(&self) -> Seq<char> {
        self.label@
    }

    fn key_text(&self) -> (r: &str) {
        self.label.as_str()
    }
}

/// One provider flow a pack hints at, and whether the pack lacks it.
#[derive(Clone, Debug, PartialEq, Eq)]
pub struct HintLine {
    pub key: String,
    pub flow_id: String,
    pub missing: bool,
}

/// The provider flows one pack hints at for a provider.
#[derive(Clone, Debug, PartialEq, Eq)]
pub struct ProviderFlowHints {
    pub pack_label: String,
    pub hints: Vec<HintLine>,
}

impl Keyed for ProviderFlowHints {
    open spec fn sort_key(&self) -> Seq<char> {
        self.pack_label@
    }

    fn key_text(&self) -> (r: &str) {
        self.pack_label.as_str()
    }
}

/// The provider flows a pack names for one provider, by purpose.
#[derive(Clone, Debug, PartialEq, Eq)]
pub struct HintSet {
    pub setup_default: Option<String>,
    pub setup_custom: Option<String>,
    pub reconfigure: Option<String>,
    pub diagnostics: Option<String>,
    pub verify_webhooks: Option<String>,
    pub rotate_credentials: Option<String>,
}

/// The hint of one purpose, if the pack names a flow for it.
pub open spec fn hint_of(key: Seq<char>, value: Option<String>, flow_ids: Seq<Seq<char>>) -> Seq<
    (Seq<char>, Seq<char>, bool),
> {
    match value {
        Some(f) => seq![(key, f@, !flow_ids.contains(f@))],
        None => Seq::empty(),
    }
}

/// The hints of a set, in purpose order, each marked missing when the pack
/// has no flow of that id.
pub open spec fn hints_of(h: HintSet, flow_ids: Seq<Seq<char>>) -> Seq<(Seq<char>, Seq<char>, bool)> {
    hint_of("setup_default"@, h.setup_default, flow_ids) + hint_of(
        "setup_custom"@,
        h.setup_custom,
        flow_ids,
    ) + hint_of("reconfigure"@, h.reconfigure, flow_ids) + hint_of(
        "diagnostics"@,
        h.diagnostics,
        flow_ids,
    ) + hint_of("verify_webhooks"@, h.verify_webhooks, flow_ids) + hint_of(
        "rotate_credentials"@,
        h.rotate_credentials,
        flow_ids,
    )
}

/// The plain values of hint lines.
pub open spec fn hint_views(s: Seq<HintLine>) -> Seq<(Seq<char>, Seq<char>, bool)> {
    s.map_values(|h: HintLine| (h.key@, h.flow_id@, h.missing))
}

fn push_hint(out: &mut Vec<HintLine>, key: &str, value: &Option<String>, flow_ids: &Vec<String>)
    ensures
        hint_views(final(out)@) == hint_views(old(out)@) + hint_of(key@, *value, views(flow_ids@)),
{
    let ghost before = out@;
    match value {
        Some(f) => {
            let missing = !contains_text(flow_ids, f.as_str());
            out.push(HintLine { key: owned(key), flow_id: f.clone(), missing });
            proof {
                assert(hint_views(out@) =~= hint_views(before) + hint_of(
                    key@,
                    *value,
                    views(flow_ids@),
                ));
            }
        },
        None => {
            proof {
                assert(hint_views(out@) =~= hint_views(before) + hint_of(
                    key@,
                    *value,
                    views(flow_ids@),
                ));
            }
        },
    }
}

/// The hint lines of a provider's hint set against the pack's flow ids.
pub fn provider_hint_lines(set: &HintSet, flow_ids: &Vec<String>) -> (r: Vec<HintLine>)
    ensures
        hint_views(r@) == hints_of(*set, views(flow_ids@)),
{
    let mut out: Vec<HintLine> = Vec::new();
    proof {
        assert(hint_views(out@) =~= Seq::empty());
    }
    push_hint(&mut out, "setup_default", &set.setup_default, flow_ids);
    push_hint(&mut out, "setup_custom", &set.setup_custom, flow_ids);
    push_hint(&mut out, "reconfigure", &set.reconfigure, flow_ids);
    push_hint(&mut out, "diagnostics", &set.diagnostics, flow_ids);
    push_hint(&mut out, "verify_webhooks", &set.verify_webhooks, flow_ids);
    push_hint(&mut out, "rotate_credentials", &set.rotate_credentials, flow_ids);
    proof {
        assert(Seq::<(Seq<char>, Seq<char>, bool)>::empty() + hints_of(*set, views(flow_ids@))
            =~= hints_of(*set, views(flow_ids@)));
    }
    out
}

/// An adapter of the loaded packs.
#[derive(Clone, Debug, PartialEq, Eq)]
pub struct AdapterSummary {
    pub name: String,
    pub kind: AdapterKind,
    pub component: String,
    pub flow: Option<String>,
    pub direction: Vec<String>,
    pub features: Vec<String>,
}

/// The details of an adapter: its component, flow, directions and
/// features, the lists `|`-separated and left out when empty.
pub open spec fn adapter_parts(a: AdapterSummary) -> Seq<Seq<char>> {
    seq!["component="@ + a.component@] + flow_part(a.flow) + list_part("direction="@, a.direction@)
        + list_part("features="@, a.features@)
}

/// The flow detail of an adapter, if it has a flow.
pub open spec fn flow_part(flow: Option<String>) -> Seq<Seq<char>> {
    match flow {
        Some(f) => seq!["flow="@ + f@],
        None => Seq::empty(),
    }
}

/// A `|`-separated list detail, left out when the list is empty.
pub open spec fn list_part(name: Seq<char>, items: Seq<String>) -> Seq<Seq<char>> {
    if items.len() > 0 {
        seq![name + join(views(items), "|"@)]
    } else {
        Seq::empty()
    }
}

/// An adapter as listed: its name and its details in brackets.
pub open spec fn adapter_text(a: AdapterSummary) -> Seq<char> {
    a.name@ + " ("@ + join(adapter_parts(a), ", "@) + ")"@
}

/// Formats an adapter for a listing.
pub fn format_adapter(a: &AdapterSummary) -> (r: String)
    ensures
        r@ == adapter_text(*a),
{
    let mut parts: Vec<String> = Vec::new();
    push_text(&mut parts, concat2("component=", a.component.as_str()).as_str());
    let ghost p1 = views(parts@);
    if let Some(f) = &a.flow {
        push_text(&mut parts, concat2("flow=", f.as_str()).as_str());
    }
    let ghost p2 = views(parts@);
    if a.direction.len() > 0 {
        let d = join_strings(&a.direction, "|");
        push_text(&mut parts, concat2("direction=", d.as_str()).as_str());
    }
    let ghost p3 = views(parts@);
    if a.features.len() > 0 {
        let f = join_strings(&a.features, "|");
        push_text(&mut parts, concat2("features=", f.as_str()).as_str());
    }
    proof {
        let x = seq!["component="@ + a.component@];
        assert(p1 =~= x);
        assert(p2 =~= x + flow_part(a.flow));
        assert(p3 =~= x + flow_part(a.flow) + list_part("direction="@, a.direction@));
        assert(views(parts@) =~= adapter_parts(*a));
    }
    let joined = join_strings(&parts, ", ");
    let mut out = concat2(a.name.as_str(), " (");
    push_str(&mut out, joined.as_str());
    push_str(&mut out, ")");
    out
}

/// The line of one hinted provider flow.
pub open spec fn hint_line_text(h: HintLine) -> Seq<char> {
    "        "@ + pad_right(h.key@, 18) + ": "@ + h.flow_id@ + if h.missing {
        " (missing)"@
    } else {
        Seq::empty()
    }
}

/// The lines of one pack's hints: a header, then each hint.
pub open spec fn hint_group_text(g: ProviderFlowHints) -> Seq<Seq<char>> {
    seq!["      provider flows (from pack "@ + g.pack_label@ + "):"@] + g.hints@.map_values(
        |h: HintLine| hint_line_text(h),
    )
}

/// The lines of several packs' hints, in order.
pub open spec fn hint_groups_text(gs: Seq<ProviderFlowHints>) -> Seq<Seq<char>>
    decreases gs.len(),
{
    if gs.len() == 0 {
        Seq::empty()
    } else {
        hint_groups_text(gs.drop_last()) + hint_group_text(gs.last())
    }
}

/// The lines of one adapter: the adapter, then the provider flows hinted
/// for it.
pub open spec fn adapter_block_text(a: AdapterSummary, hints: StrMap<Vec<ProviderFlowHints>>) -> Seq<
    Seq<char>,
> {
    seq!["    - "@ + adapter_text(a)] + match hints.lookup(a.name@) {
        Some(gs) => hint_groups_text(gs@),
        None => Seq::empty(),
    }
}

/// The lines of the adapters of one kind, in order.
pub open spec fn kind_blocks_text(
    adapters: Seq<AdapterSummary>,
    kind: AdapterKind,
    hints: StrMap<Vec<ProviderFlowHints>>,
) -> Seq<Seq<char>>
    decreases adapters.len(),
{
    if adapters.len() == 0 {
        Seq::empty()
    } else {
        kind_blocks_text(adapters.drop_last(), kind, hints) + if adapters.last().kind == kind {
            adapter_block_text(adapters.last(), hints)
        } else {
            Seq::empty()
        }
    }
}

/// The section of one adapter kind: `(none)` without adapters of that
/// kind, else a heading and each adapter's lines.
pub open spec fn adapter_section_text(
    adapters: Seq<AdapterSummary>,
    kind: AdapterKind,
    label: Seq<char>,
    hints: StrMap<Vec<ProviderFlowHints>>,
) -> Seq<Seq<char>> {
    let head = "  "@ + pad_right(label, 14) + ":"@;
    if exists|i: int| 0 <= i < adapters.len() && (#[trigger] adapters[i]).kind == kind {
        seq![head] + kind_blocks_text(adapters, kind, hints)
    } else {
        seq![head + " (none)"@]
    }
}

fn hint_line_exec(h: &HintLine) -> (r: String)
    ensures
        r@ == hint_line_text(*h),
{
    let k = padded_right(h.key.as_str(), 18);
    let mut m = concat2("        ", k.as_str());
    push_str(&mut m, ": ");
    push_str(&mut m, h.flow_id.as_str());
    if h.missing {
        push_str(&mut m, " (missing)");
    } else {
        proof {
            assert(m@ + Seq::<char>::empty() =~= m@);
        }
    }
    m
}

fn push_hint_groups(out: &mut Vec<String>, gs: &Vec<ProviderFlowHints>)
    ensures
        views(final(out)@) == views(old(out)@) + hint_groups_text(gs@),
{
    let ghost start = views(out@);
    for i in 0..gs.len()
        invariant
            views(out@) == start + hint_groups_text(gs@.take(i as int)),
    {
        proof {
            assert(gs@.take(i + 1).drop_last() =~= gs@.take(i as int));
        }
        let g = &gs[i];
        let mut head = concat2("      provider flows (from pack ", g.pack_label.as_str());
        push_str(&mut head, "):");
        let ghost before = views(out@);
        out.push(head);
        for j in 0..g.hints.len()
            invariant
                views(out@) == before + seq!["      provider flows (from pack "@ + g.pack_label@ + "):"@]
                    + g.hints@.take(j as int).map_values(|h: HintLine| hint_line_text(h)),
        {
            let ghost b2 = views(out@);
            out.push(hint_line_exec(&g.hints[j]));
            proof {
                assert(g.hints@.take(j + 1).map_values(|h: HintLine| hint_line_text(h))
                    =~= g.hints@.take(j as int).map_values(|h: HintLine| hint_line_text(h)).push(
                    hint_line_text(g.hints@[j as int]),
                ));
                assert(views(out@) =~= b2.push(hint_line_text(g.hints@[j as int])));
            }
        }
        proof {
            assert(g.hints@.take(g.hints.len() as int) =~= g.hints@);
            assert(views(out@) =~= start + hint_groups_text(gs@.take(i + 1)));
        }
    }
    proof {
        assert(gs@.take(gs.len() as int) =~= gs@);
    }
}

/// The lines of one adapter kind, for `info`.
pub fn adapter_section_lines(
    adapters: &Vec<AdapterSummary>,
    kind: AdapterKind,
    label: &str,
    hints: &StrMap<Vec<ProviderFlowHints>>,
) -> (r: Vec<String>)
    ensures
        views(r@) == adapter_section_text(adapters@, kind, label@, *hints),
{
    let l = padded_right(label, 14);
    let head = concat3_text("  ", l.as_str(), ":");
    let mut out: Vec<String> = Vec::new();
    let mut any = false;
    for i in 0..adapters.len()
        invariant
            any == exists|j: int| 0 <= j < i && (#[trigger] adapters@[j]).kind == kind,
    {
        if adapters[i].kind == kind {
            any = true;
        }
    }
    if !any {
        push_text(&mut out, concat2(head.as_str(), " (none)").as_str());
        proof {
            assert(views(out@) =~= adapter_section_text(adapters@, kind, label@, *hints));
        }
        return out;
    }
    push_text(&mut out, head.as_str());
    let ghost top = views(out@);
    for i in 0..adapters.len()
        invariant
            views(out@) == top + kind_blocks_text(adapters@.take(i as int), kind, *hints),
    {
        proof {
            assert(adapters@.take(i + 1).drop_last() =~= adapters@.take(i as int));
        }
        let a = &adapters[i];
        if a.kind == kind {
            let line = concat2("    - ", format_adapter(a).as_str());
            let ghost before = views(out@);
            out.push(line);
            match hints.get(a.name.as_str()) {
                Some(gs) => push_hint_groups(&mut out, gs),
                None => {},
            }
            proof {
                assert(views(out@) =~= before + adapter_block_text(*a, *hints));
            }
        }
        proof {
            assert(views(out@) =~= top + kind_blocks_text(adapters@.take(i + 1), kind, *hints));
        }
    }
    proof {
        assert(adapters@.take(adapters.len() as int) =~= adapters@);
    }
    out
}

fn concat3_text(a: &str, b: &str, c: &str) -> (r: String)
    ensures
        r@ == a@ + b@ + c@,
{
    let mut m = concat2(a, b);
    push_str(&mut m, c);
    m
}

/// The line of one flow of a loaded pack.
pub open spec fn flow_summary_text(f: FlowSummary) -> Seq<char> {
    "    - "@ + f.id@ + "  kind="@ + f.kind@ + match f.title {
        Some(t) => "  "@ + t@,
        None => Seq::empty(),
    }
}

/// The lines of one loaded pack's flows.
pub open spec fn pack_flows_text(p: PackFlowsSummary) -> Seq<Seq<char>> {
    if p.flows@.len() == 0 {
        seq!["  "@ + p.label@ + ": (none)"@]
    } else {
        seq!["  "@ + p.label@ + ":"@] + p.flows@.map_values(|f: FlowSummary| flow_summary_text(f))
    }
}

/// The lines of several packs' flows, in order.
pub open spec fn packs_flows_text(ps: Seq<PackFlowsSummary>) -> Seq<Seq<char>>
    decreases ps.len(),
{
    if ps.len() == 0 {
        Seq::empty()
    } else {
        packs_flows_text(ps.drop_last()) + pack_flows_text(ps.last())
    }
}

/// The flows section of `info`: a blank line, a heading, then each pack's
/// flows, or `(none)`.
pub open spec fn flows_section_text(ps: Seq<PackFlowsSummary>) -> Seq<Seq<char>> {
    seq![""@, "Flows in loaded packs:"@] + if ps.len() == 0 {
        seq!["  (none)"@]
    } else {
        packs_flows_text(ps)
    }
}

fn flow_summary_line(f: &FlowSummary) -> (r: String)
    ensures
        r@ == flow_summary_text(*f),
{
    let mut m = concat2("    - ", f.id.as_str());
    push_str(&mut m, "  kind=");
    push_str(&mut m, f.kind.as_str());
    match &f.title {
        Some(t) => {
            push_str(&mut m, "  ");
            push_str(&mut m, t.as_str());
        },
        None => {
            proof {
                assert(m@ + Seq::<char>::empty() =~= m@);
            }
        },
    }
    m
}

/// The flows section of `info` for the given packs.
pub fn flows_section_lines(packs: &Vec<PackFlowsSummary>) -> (r: Vec<String>)
    ensures
        views(r@) == flows_section_text(packs@),
{
    let mut out: Vec<String> = Vec::new();
    push_text(&mut out, "");
    push_text(&mut out, "Flows in loaded packs:");
    if packs.len() == 0 {
        push_text(&mut out, "  (none)");
        proof {
            assert(views(out@) =~= flows_section_text(packs@));
        }
        return out;
    }
    let ghost top = views(out@);
    for i in 0..packs.len()
        invariant
            views(out@) == top + packs_flows_text(packs@.take(i as int)),
    {
        proof {
            assert(packs@.take(i + 1).drop_last() =~= packs@.take(i as int));
        }
        let p = &packs[i];
        let ghost before = views(out@);
        if p.flows.len() == 0 {
            push_text(&mut out, concat3_text("  ", p.label.as_str(), ": (none)").as_str());
        } else {
            push_text(&mut out, concat3_text("  ", p.label.as_str(), ":").as_str());
            let ghost mid = views(out@);
            for j in 0..p.flows.len()
                invariant
                    views(out@) == mid + p.flows@.take(j as int).map_values(
                        |f: FlowSummary| flow_summary_text(f),
                    ),
            {
                let ghost b2 = views(out@);
                out.push(flow_summary_line(&p.flows[j]));
                proof {
                    assert(p.flows@.take(j + 1).map_values(|f: FlowSummary| flow_summary_text(f))
                        =~= p.flows@.take(j as int).map_values(
                        |f: FlowSummary| flow_summary_text(f),
                    ).push(flow_summary_text(p.flows@[j as int])));
                    assert(views(out@) =~= b2.push(flow_summary_text(p.flows@[j as int])));
                }
            }
            proof {
                assert(p.flows@.take(p.flows.len() as int) =~= p.flows@);
            }
        }
        proof {
            assert(views(out@) =~= before + pack_flows_text(*p));
        }
    }
    proof {
        assert(packs@.take(packs.len() as int) =~= packs@);
        assert(views(out@) =~= flows_section_text(packs@));
    }
    out
}

/// What separates the tokens of a text.
#[derive(Clone, Copy, Debug, PartialEq, Eq)]
pub enum Separator {
    /// White space, as `split_whitespace` splits.
    Whitespace,
    /// Anything but an ASCII letter or digit.
    NonAlphanumeric,
}

/// Whether a character separates tokens.
pub open spec fn separates(k: Separator, c: char) -> bool {
    match k {
        Separator::Whitespace => crate::text::is_ws(c),
        Separator::NonAlphanumeric => !(('a' <= c && c <= 'z') || ('A' <= c && c <= 'Z') || ('0'
            <= c && c <= '9')),
    }
}

/// The non-empty runs of non-separating characters, in order.
pub open spec fn tokens(s: Seq<char>, k: Separator) -> Seq<Seq<char>>
    decreases s.len(),
{
    if s.len() == 0 {
        Seq::empty()
    } else {
        let t = tokens(s.drop_last(), k);
        let c = s.last();
        if separates(k, c) {
            t
        } else if s.len() > 1 && !separates(k, s[s.len() - 2]) && t.len() > 0 {
            t.drop_last().push(t.last().push(c))
        } else {
            t.push(seq![c])
        }
    }
}

fn separates_exec(k: Separator, c: char) -> (r: bool)
    ensures
        r == separates(k, c),
{
    match k {
        Separator::Whitespace => crate::text::is_ws_exec(c),
        Separator::NonAlphanumeric => !(('a' <= c && c <= 'z') || ('A' <= c && c <= 'Z') || ('0'
            <= c && c <= '9')),
    }
}

/// Splits a text into its tokens.
pub fn split_tokens(s: &str, k: Separator) -> (r: Vec<String>)
    ensures
        views(r@) == tokens(s@, k),
{
    let cs = to_chars(s);
    let mut out: Vec<String> = Vec::new();
    for i in 0..cs.len()
        invariant
            cs@ == s@,
            views(out@) == tokens(s@.take(i as int), k),
    {
        let c = cs[i];
        let ghost t = tokens(s@.take(i as int), k);
        proof {
            let u = s@.take(i + 1);
            assert(u.drop_last() =~= s@.take(i as int));
            assert(u.last() == c);
            if i > 0 {
                assert(u[u.len() - 2] == cs@[i - 1]);
            }
        }
        if separates_exec(k, c) {
        } else if i > 0 && !separates_exec(k, cs[i - 1]) && out.len() > 0 {
            let ghost before = out@;
            let mut last = match out.pop() {
                Some(l) => l,
                None => String::new(),
            };
            push_char(&mut last, c);
            out.push(last);
            proof {
                assert(views(out@) =~= t.drop_last().push(t.last().push(c)));
            }
        } else {
            let mut single = String::new();
            push_char(&mut single, c);
            out.push(single);
            proof {
                assert(single@ =~= seq![c]);
                assert(views(out@) =~= t.push(seq![c]));
            }
        }
    }
    proof {
        assert(s@.take(cs.len() as int) =~= s@);
    }
    out
}

/// The first token that names a platform, if any.
pub open spec fn first_platform_token(ts: Seq<Seq<char>>) -> Option<Platform>
    decreases ts.len(),
{
    if ts.len() == 0 {
        None
    } else if platform_named(ts[0]) is Some {
        platform_named(ts[0])
    } else {
        first_platform_token(ts.drop_first())
    }
}

/// The platform a provider type names: the first of its alphanumeric
/// tokens that is a platform name.
pub fn infer_platform_from_provider_type(provider_type: &str) -> (r: Option<String>)
    ensures
        match first_platform_token(tokens(provider_type@, Separator::NonAlphanumeric)) {
            Some(p) => r matches Some(x) && x@ == platform_name(p),
            None => r is None,
        },
{
    let ts = split_tokens(provider_type, Separator::NonAlphanumeric);
    let ghost all = views(ts@);
    proof {
        assert(all.skip(0) =~= all);
    }
    for i in 0..ts.len()
        invariant
            all == views(ts@),
            all == tokens(provider_type@, Separator::NonAlphanumeric),
            first_platform_token(all) == first_platform_token(all.skip(i as int)),
    {
        proof {
            assert(all.skip(i as int).drop_first() =~= all.skip(i + 1));
            assert(all.skip(i as int)[0] == ts@[i as int]@);
        }
        if let Some(p) = Platform::from_name(ts[i].as_str()) {
            return Some(owned(p.as_str()));
        }
    }
    proof {
        assert(all.skip(ts.len() as int).len() == 0);
    }
    None
}

/// A character trimmed off a tunnel URL token.
pub open spec fn url_trim_char(c: char) -> bool {
    c == '"' || c == '\'' || c == ',' || c == ';'
}

/// The token without leading and trailing quote, comma and semicolon
/// characters.
pub open spec fn url_trimmed(s: Seq<char>) -> Seq<char>
    decreases s.len(),
{
    if s.len() > 0 && url_trim_char(s[0]) {
        url_trimmed(s.drop_first())
    } else if s.len() > 0 && url_trim_char(s.last()) {
        url_trimmed(s.drop_last())
    } else {
        s
    }
}

/// A token that announces the tunnel: an `https://` address, once
/// trimmed, on a Cloudflare domain.
pub open spec fn tunnel_url_token(t: Seq<char>) -> bool {
    crate::text::has_prefix(t, "https://"@) && (crate::text::contains_seq(
        url_trimmed(t),
        "trycloudflare.com"@,
    ) || crate::text::contains_seq(url_trimmed(t), "cloudflare.com"@))
}

/// The first token of a line that announces the tunnel, trimmed.
pub open spec fn first_tunnel_url(ts: Seq<Seq<char>>) -> Option<Seq<char>>
    decreases ts.len(),
{
    if ts.len() == 0 {
        None
    } else if tunnel_url_token(ts[0]) {
        Some(url_trimmed(ts[0]))
    } else {
        first_tunnel_url(ts.drop_first())
    }
}

fn url_trim_exec(cs: &Vec<char>) -> (r: String)
    ensures
        r@ == url_trimmed(cs@),
{
    let mut a: usize = 0;
    let mut b: usize = cs.len();
    proof {
        assert(cs@.subrange(0, cs@.len() as int) =~= cs@);
    }
    while a < b && (cs[a] == '"' || cs[a] == '\'' || cs[a] == ',' || cs[a] == ';')
        invariant
            a <= b <= cs.len(),
            b == cs.len(),
            url_trimmed(cs@) == url_trimmed(cs@.subrange(a as int, b as int)),
        decreases b - a,
    {
        proof {
            assert(cs@.subrange(a as int, b as int).drop_first() =~= cs@.subrange(a + 1, b as int));
        }
        a = a + 1;
    }
    while a < b && (cs[b - 1] == '"' || cs[b - 1] == '\'' || cs[b - 1] == ',' || cs[b - 1] == ';')
        invariant
            a <= b <= cs.len(),
            url_trimmed(cs@) == url_trimmed(cs@.subrange(a as int, b as int)),
            a < b ==> !url_trim_char(cs@[a as int]),
        decreases b - a,
    {
        proof {
            let t = cs@.subrange(a as int, b as int);
            assert(t[0] == cs@[a as int]);
            assert(t.drop_last() =~= cs@.subrange(a as int, b - 1));
        }
        b = b - 1;
    }
    proof {
        let t = cs@.subrange(a as int, b as int);
        if t.len() > 0 {
            assert(t[0] == cs@[a as int]);
            assert(t.last() == cs@[b - 1]);
        }
    }
    crate::text::substring(cs, a, b)
}

/// The public URL a tunnel announces on a line of its output, if any.
pub fn extract_public_url(line: &str) -> (r: Option<String>)
    ensures
        match first_tunnel_url(tokens(line@, Separator::Whitespace)) {
            Some(u) => r matches Some(x) && x@ == u,
            None => r is None,
        },
{
    let ts = split_tokens(line, Separator::Whitespace);
    let ghost all = views(ts@);
    proof {
        assert(all.skip(0) =~= all);
    }
    for i in 0..ts.len()
        invariant
            all == views(ts@),
            all == tokens(line@, Separator::Whitespace),
            first_tunnel_url(all) == first_tunnel_url(all.skip(i as int)),
    {
        proof {
            assert(all.skip(i as int).drop_first() =~= all.skip(i + 1));
            assert(all.skip(i as int)[0] == ts@[i as int]@);
        }
        let t = ts[i].as_str();
        if crate::text::str_starts_with(t, "https://") {
            let cs = to_chars(t);
            let cleaned = url_trim_exec(&cs);
            if crate::text::str_contains(cleaned.as_str(), "trycloudflare.com")
                || crate::text::str_contains(cleaned.as_str(), "cloudflare.com") {
                return Some(cleaned);
            }
        }
    }
    proof {
        assert(all.skip(ts.len() as int).len() == 0);
    }
    None
}

/// What `info` shows of the secrets context: nothing when the secrets
/// tool failed, else its trimmed output, or a note when that is empty.
pub fn secrets_ctx_text(succeeded: bool, stdout: &str) -> (r: Option<String>)
    ensures
        if !succeeded {
            r is None
        } else if trim(stdout@).len() == 0 {
            r matches Some(x) && x@ == "(ctx configured, empty output)"@
        } else {
            r matches Some(x) && x@ == trim(stdout@)
        },
{
    if !succeeded {
        return None;
    }
    let body = str_trim(stdout);
    if to_chars(body.as_str()).len() == 0 {
        Some(owned("(ctx configured, empty output)"))
    } else {
        Some(body)
    }
}

/// The opening lines of `info`: environment, secrets context and how to
/// seed secrets.
pub fn info_header_lines(env: &str, secrets_ctx: Option<&str>) -> (r: Vec<String>)
    ensures
        views(r@) == seq![
            "Environment : "@ + env@,
            match secrets_ctx {
                Some(c) => "Secrets ctx  : "@ + c@,
                None => "Secrets ctx  : (use `greentic-secrets ctx set --env <env> --tenant <tenant> [--team <team>]`)"@,
            },
            "Seed/apply : greentic-secrets init --pack messaging-<name>.gtpack --env "@ + env@
                + " --tenant <tenant> --team <team> --non-interactive"@,
        ],
{
    let mut v: Vec<String> = Vec::new();
    push_text(&mut v, concat2("Environment : ", env).as_str());
    match secrets_ctx {
        Some(c) => push_text(&mut v, concat2("Secrets ctx  : ", c).as_str()),
        None => push_text(
            &mut v,
            "Secrets ctx  : (use `greentic-secrets ctx set --env <env> --tenant <tenant> [--team <team>]`)",
        ),
    }
    push_text(
        &mut v,
        concat3_text(
            "Seed/apply : greentic-secrets init --pack messaging-<name>.gtpack --env ",
            env,
            " --tenant <tenant> --team <team> --non-interactive",
        ).as_str(),
    );
    v
}

/// The adapter pack lines of `info`: the packs root (`packs` by default)
/// and the extra packs.
pub fn adapter_packs_lines(packs_root: Option<&str>, extra: &Vec<String>) -> (r: Vec<String>)
    ensures
        views(r@) == seq![
            ""@,
            "Adapter packs:"@,
            "  packs_root     : "@ + match packs_root {
                Some(p) => p@,
                None => "packs"@,
            },
            if extra@.len() == 0 {
                "  extra packs    : (none)"@
            } else {
                "  extra packs    : "@ + join(views(extra@), ", "@)
            },
        ],
{
    let mut v: Vec<String> = Vec::new();
    push_text(&mut v, "");
    push_text(&mut v, "Adapter packs:");
    let root: &str = match packs_root {
        Some(p) => p,
        None => "packs",
    };
    push_text(&mut v, concat2("  packs_root     : ", root).as_str());
    if extra.len() == 0 {
        push_text(&mut v, "  extra packs    : (none)");
    } else {
        let joined = join_strings(extra, ", ");
        push_text(&mut v, concat2("  extra packs    : ", joined.as_str()).as_str());
    }
    v
}

/// The adapters line of `info` when no adapter loaded.
pub fn no_adapters_line() -> (r: String)
    ensures
        r@ == "  adapters       : (none loaded; add --pack or configure env; packs must declare provider extension "@
            + crate::validator::PROVIDER_EXTENSION_ID@ + ")"@,
{
    concat3_text(
        "  adapters       : (none loaded; add --pack or configure env; packs must declare provider extension ",
        crate::validator::PROVIDER_EXTENSION_ID,
        ")",
    )
}

/// The closing lines of `info`.
pub fn services_lines() -> (r: Vec<String>)
    ensures
        views(r@) == seq![
            ""@,
            "Available services:"@,
            "  runner/flows  : gsm-runner (pack-driven; uses MESSAGING_PACKS_ROOT + pack envs)"@,
            ""@,
            "For more commands, run `greentic-messaging --help`."@,
        ],
{
    let mut v: Vec<String> = Vec::new();
    push_text(&mut v, "");
    push_text(&mut v, "Available services:");
    push_text(&mut v, "  runner/flows  : gsm-runner (pack-driven; uses MESSAGING_PACKS_ROOT + pack envs)");
    push_text(&mut v, "");
    push_text(&mut v, "For more commands, run `greentic-messaging --help`.");
    v
}

/// The texts ascending and without repeats, as a `BTreeSet` lists them;
/// a text is among them exactly when it is among the given ones.
pub fn sorted_unique(items: Vec<String>) -> (r: Vec<String>)
    ensures
        crate::strmap::sorted_strict(views(r@)),
        forall|x: Seq<char>| #[trigger] views(r@).contains(x) <==> views(items@).contains(x),
{
    let ghost given = views(items@);
    let sorted = sort_strings(items);
    let ghost sv = views(sorted@);
    proof {
        assert forall|x: Seq<char>| #[trigger] sv.contains(x) <==> given.contains(x) by {
            vstd::seq_lib::to_multiset_contains(sv, x);
            vstd::seq_lib::to_multiset_contains(given, x);
        }
    }
    let mut out: Vec<String> = Vec::new();
    for i in 0..sorted.len()
        invariant
            sv == views(sorted@),
            crate::text::sorted_views(sv),
            crate::strmap::sorted_strict(views(out@)),
            forall|x: Seq<char>| #[trigger] views(out@).contains(x) <==> sv.take(i as int).contains(x),
            out@.len() > 0 ==> i > 0 && views(out@).last() == sv[i - 1],
            i > 0 ==> out@.len() > 0,
    {
        let ghost before = views(out@);
        let x = &sorted[i];
        let fresh = out.len() == 0 || !str_eq(out[out.len() - 1].as_str(), x.as_str());
        if fresh {
            out.push(x.clone());
        }
        proof {
            let t = sv.take(i + 1);
            assert(t =~= sv.take(i as int).push(sv[i as int]));
            if fresh {
                assert(views(out@) =~= before.push(sv[i as int]));
                if before.len() > 0 {
                    assert(seq_le(sv[i - 1], sv[i as int]));
                    assert forall|a: int, b: int| 0 <= a < b < views(out@).len() implies seq_lt(
                        views(out@)[a],
                        views(out@)[b],
                    ) by {
                        if b == before.len() {
                            if a < before.len() - 1 {
                                assert(seq_lt(before[a], before.last()));
                                lemma_seq_le_trans(before[a], before.last(), sv[i as int]);
                                if before[a] == sv[i as int] {
                                    lemma_seq_le_antisym(before[a], before.last());
                                }
                            }
                        } else {
                            assert(views(out@)[a] == before[a] && views(out@)[b] == before[b]);
                        }
                    }
                }
                assert forall|y: Seq<char>| #[trigger] views(out@).contains(y) <==> t.contains(y) by {
                    if views(out@).contains(y) {
                        let k = choose|k: int| 0 <= k < views(out@).len() && views(out@)[k] == y;
                        if k < before.len() {
                            assert(before[k] == y);
                            assert(before.contains(y));
                            let m = choose|m: int| 0 <= m < sv.take(i as int).len() && sv.take(i as int)[m] == y;
                            assert(t[m] == y);
                        } else {
                            assert(t[i as int] == y);
                        }
                    }
                    if t.contains(y) {
                        let m = choose|m: int| 0 <= m < t.len() && t[m] == y;
                        if m < i {
                            assert(sv.take(i as int)[m] == y);
                            assert(sv.take(i as int).contains(y));
                            assert(before.contains(y));
                            let k = choose|k: int| 0 <= k < before.len() && before[k] == y;
                            assert(views(out@)[k] == y);
                        } else {
                            assert(views(out@)[before.len() as int] == y);
                        }
                    }
                }
            } else {
                assert(views(out@) == before);
                assert(before.last() == sv[i as int]);
                assert forall|y: Seq<char>| #[trigger] views(out@).contains(y) <==> t.contains(y) by {
                    if t.contains(y) {
                        let m = choose|m: int| 0 <= m < t.len() && t[m] == y;
                        if m < i {
                            assert(sv.take(i as int)[m] == y);
                            assert(sv.take(i as int).contains(y));
                        } else {
                            assert(before[before.len() - 1] == y);
                        }
                    }
                    if views(out@).contains(y) {
                        let m = choose|m: int| 0 <= m < sv.take(i as int).len() && sv.take(i as int)[m] == y;
                        assert(t[m] == y);
                    }
                }
            }
        }
    }
    proof {
        assert(sv.take(sorted.len() as int) =~= sv);
    }
    out
}

/// The paths of the packs that declare the provider, in order.
pub open spec fn matching_paths(c: Seq<(String, bool)>) -> Seq<Seq<char>>
    decreases c.len(),
{
    if c.len() == 0 {
        Seq::empty()
    } else if c.last().1 {
        matching_paths(c.drop_last()).push(c.last().0@)
    } else {
        matching_paths(c.drop_last())
    }
}

proof fn lemma_single_match(c: Seq<(String, bool)>)
    requires
        matching_paths(c).len() == 1,
    ensures
        exists|i: int|
            0 <= i < c.len() && c[i].1 && c[i].0@ == matching_paths(c)[0] && forall|j: int|
                0 <= j < c.len() && j != i ==> !(#[trigger] c[j]).1,
    decreases c.len(),
{
    let t = c.drop_last();
    if c.last().1 {
        assert(matching_paths(t).len() == 0);
        lemma_no_match(t);
        assert forall|j: int| 0 <= j < c.len() && j != c.len() - 1 implies !(#[trigger] c[j]).1 by {
            assert(c[j] == t[j]);
        }
        assert(c[c.len() - 1].0@ == matching_paths(c)[0]);
    } else {
        lemma_single_match(t);
        let i = choose|i: int|
            0 <= i < t.len() && t[i].1 && t[i].0@ == matching_paths(t)[0] && forall|j: int|
                0 <= j < t.len() && j != i ==> !(#[trigger] t[j]).1;
        assert(c[i] == t[i]);
        assert forall|j: int| 0 <= j < c.len() && j != i implies !(#[trigger] c[j]).1 by {
            if j < t.len() {
                assert(c[j] == t[j]);
            }
        }
    }
}

proof fn lemma_no_match(c: Seq<(String, bool)>)
    requires
        matching_paths(c).len() == 0,
    ensures
        forall|j: int| 0 <= j < c.len() ==> !(#[trigger] c[j]).1,
    decreases c.len(),
{
    if c.len() > 0 {
        let t = c.drop_last();
        lemma_no_match(t);
        assert forall|j: int| 0 <= j < c.len() implies !(#[trigger] c[j]).1 by {
            if j < t.len() {
                assert(c[j] == t[j]);
            }
        }
    }
}

/// Chooses the one pack, among `(path, declares the provider)` candidates,
/// that declares a provider: none is refused with the available
/// providers, several with their paths.
pub fn select_provider_pack(provider: &str, candidates: &Vec<(String, bool)>, available: Vec<String>) -> (r:
    Result<usize, String>)
    ensures
        if matching_paths(candidates@).len() == 0 {
            r matches Err(e) && exists|names: Seq<Seq<char>>|
                crate::strmap::sorted_strict(names) && (forall|x: Seq<char>|
                    #[trigger] names.contains(x) <==> views(available@).contains(x)) && e@
                    == "provider "@ + provider@ + " not found in packs (available: "@ + join(
                    names,
                    ", "@,
                ) + ")"@
        } else if matching_paths(candidates@).len() == 1 {
            r matches Ok(i) && i < candidates@.len() && candidates@[i as int].1 && forall|j: int|
                0 <= j < candidates@.len() && j != i ==> !(#[trigger] candidates@[j]).1
        } else {
            r matches Err(e) && e@ == "provider "@ + provider@ + " found in multiple packs: "@
                + join(matching_paths(candidates@), ", "@)
        },
{
    let mut found: Vec<String> = Vec::new();
    let mut first: usize = 0;
    for i in 0..candidates.len()
        invariant
            views(found@) == matching_paths(candidates@.take(i as int)),
            found@.len() > 0 ==> first < i && candidates@[first as int].1,
    {
        proof {
            assert(candidates@.take(i + 1).drop_last() =~= candidates@.take(i as int));
        }
        if candidates[i].1 {
            if found.len() == 0 {
                first = i;
            }
            let ghost before = views(found@);
            found.push(candidates[i].0.clone());
            proof {
                assert(views(found@) =~= before.push(candidates@[i as int].0@));
            }
        }
    }
    proof {
        assert(candidates@.take(candidates.len() as int) =~= candidates@);
    }
    if found.len() == 0 {
        let names = sorted_unique(available);
        let joined = join_strings(&names, ", ");
        let mut m = concat2("provider ", provider);
        push_str(&mut m, " not found in packs (available: ");
        push_str(&mut m, joined.as_str());
        push_str(&mut m, ")");
        return Err(m);
    }
    if found.len() == 1 {
        proof {
            lemma_single_match(candidates@);
            let i = choose|i: int|
                0 <= i < candidates@.len() && candidates@[i].1 && candidates@[i].0@ == matching_paths(
                    candidates@,
                )[0] && forall|j: int|
                    0 <= j < candidates@.len() && j != i ==> !(#[trigger] candidates@[j]).1;
            if i != first {
                assert(!candidates@[first as int].1);
            }
        }
        return Ok(first);
    }
    let joined = join_strings(&found, ", ");
    let mut m = concat2("provider ", provider);
    push_str(&mut m, " found in multiple packs: ");
    push_str(&mut m, joined.as_str());
    Err(m)
}

/// What a development install keeps: its configuration and secrets,
/// their references, and the provider's webhook, subscriptions and
/// metadata state.
#[derive(Debug, PartialEq, Eq)]
pub struct ProviderInstallState {
    pub config: StrMap<Json>,
    pub secrets: StrMap<String>,
    pub config_refs: StrMap<String>,
    pub secret_refs: StrMap<String>,
    pub webhook_state: Json,
    pub subscriptions_state: Json,
    pub metadata: Json,
}

/// A member of a plan that is an object.
pub open spec fn member_object(plan: Json, name: Seq<char>) -> Option<StrMap<Json>> {
    match object_lookup(plan, name) {
        Some(Json::Object(m)) => Some(m),
        _ => None,
    }
}

/// An entry of an optional object.
pub open spec fn entry_of(o: Option<StrMap<Json>>, key: Seq<char>) -> Option<Json> {
    match o {
        Some(m) => m.lookup(key),
        None => None,
    }
}

/// A secret as stored: a string as it is, any other value as JSON text.
pub open spec fn secret_text(v: Json) -> Seq<char> {
    match v {
        Json::Str(s) => s@,
        _ => json_text(v),
    }
}

/// The member under the first name, else under the second.
pub open spec fn member_or(plan: Json, first: Seq<char>, second: Seq<char>) -> Option<Json> {
    match object_lookup(plan, first) {
        Some(v) => Some(v),
        None => object_lookup(plan, second),
    }
}

/// A reference after a plan: the plan's text reference if it gives one,
/// else the earlier reference, else a default for a newly planned key.
pub open spec fn planned_ref(
    plan: Json,
    refs_name: Seq<char>,
    values_name: Seq<char>,
    prefix: Seq<char>,
    before: Option<Seq<char>>,
    key: Seq<char>,
) -> Option<Seq<char>> {
    match entry_of(member_object(plan, refs_name), key) {
        Some(Json::Str(s)) => Some(s@),
        _ => match before {
            Some(r) => Some(r),
            None => if entry_of(member_object(plan, values_name), key) is Some {
                Some(prefix + key)
            } else {
                None
            },
        },
    }
}

fn default_refs(refs: &mut StrMap<String>, src: &Vec<(String, Json)>, prefix: &str)
    ensures
        forall|x: Seq<char>|
            #[trigger] opt_view(final(refs).lookup(x)) == match opt_view(old(refs).lookup(x)) {
                Some(r) => Some(r),
                None => if find_entry(src@, x) is Some {
                    Some(prefix@ + x)
                } else {
                    None
                },
            },
{
    let ghost start = *refs;
    for i in 0..src.len()
        invariant
            forall|x: Seq<char>|
                #[trigger] opt_view(refs.lookup(x)) == match opt_view(start.lookup(x)) {
                    Some(r) => Some(r),
                    None => if find_entry(src@.take(i as int), x) is Some {
                        Some(prefix@ + x)
                    } else {
                        None
                    },
                },
    {
        let key = &src[i].0;
        let ghost before = *refs;
        proof {
            assert(src@.take(i + 1) =~= src@.take(i as int).push(src@[i as int]));
            assert forall|x: Seq<char>| #[trigger]
                find_entry(src@.take(i + 1), x) is Some <==> (find_entry(src@.take(i as int), x) is Some
                    || x == key@) by {
                lemma_find_entry_push(src@.take(i as int), src@[i as int], x);
            }
        }
        if !refs.contains_key(key.as_str()) {
            refs.insert(key.clone(), concat2(prefix, key.as_str()));
            proof {
                assert forall|x: Seq<char>|
                    #[trigger] opt_view(refs.lookup(x)) == match opt_view(start.lookup(x)) {
                        Some(r) => Some(r),
                        None => if find_entry(src@.take(i + 1), x) is Some {
                            Some(prefix@ + x)
                        } else {
                            None
                        },
                    } by {
                    assert(opt_view(before.lookup(x)) == match opt_view(start.lookup(x)) {
                        Some(r) => Some(r),
                        None => if find_entry(src@.take(i as int), x) is Some {
                            Some(prefix@ + x)
                        } else {
                            None
                        },
                    });
                    if x != key@ {
                        assert(refs.lookup(x) == before.lookup(x));
                    }
                }
            }
        }
    }
    proof {
        assert(src@.take(src.len() as int) =~= src@);
    }
}

pub(crate) fn merge_values(target: &mut StrMap<Json>, src: Vec<(String, Json)>)
    requires
        keys_distinct(src@),
    ensures
        forall|x: Seq<char>|
            #[trigger] final(target).lookup(x) == match find_entry(src@, x) {
                Some(v) => Some(v),
                None => old(target).lookup(x),
            },
{
    let ghost s0 = src@;
    let ghost start = *target;
    let n = src.len();
    let mut rest = src;
    let mut k: usize = 0;
    while rest.len() > 0
        invariant
            keys_distinct(s0),
            s0.len() == n,
            k <= s0.len(),
            s0.len() == k + rest@.len(),
            rest@ == s0.skip(k as int),
            forall|x: Seq<char>|
                #[trigger] target.lookup(x) == match find_entry(s0.take(k as int), x) {
                    Some(v) => Some(v),
                    None => start.lookup(x),
                },
        decreases rest.len(),
    {
        let e = rest.remove(0);
        let ghost before = *target;
        proof {
            assert(e == s0[k as int]);
            assert(rest@ =~= s0.skip(k + 1));
            assert(s0.take(k + 1) =~= s0.take(k as int).push(s0[k as int]));
            assert forall|j: int| 0 <= j < s0.take(k as int).len() implies s0.take(k as int)[j].0@
                != e.0@ by {
                assert(s0.take(k as int)[j] == s0[j]);
            }
            lemma_find_entry_absent(s0.take(k as int), e.0@);
        }
        let (key, value) = e;
        target.insert(key, value);
        proof {
            assert forall|x: Seq<char>|
                #[trigger] target.lookup(x) == match find_entry(s0.take(k + 1), x) {
                    Some(v) => Some(v),
                    None => start.lookup(x),
                } by {
                lemma_find_entry_push(s0.take(k as int), s0[k as int], x);
                if x != s0[k as int].0@ {
                    assert(target.lookup(x) == before.lookup(x));
                }
            }
        }
        k = k + 1;
    }
    proof {
        assert(s0.take(k as int) =~= s0);
    }
}

fn merge_secret_values(target: &mut StrMap<String>, src: Vec<(String, Json)>)
    requires
        keys_distinct(src@),
    ensures
        forall|x: Seq<char>|
            #[trigger] opt_view(final(target).lookup(x)) == match find_entry(src@, x) {
                Some(v) => Some(secret_text(v)),
                None => opt_view(old(target).lookup(x)),
            },
{
    let ghost s0 = src@;
    let ghost start = *target;
    let n = src.len();
    let mut rest = src;
    let mut k: usize = 0;
    while rest.len() > 0
        invariant
            keys_distinct(s0),
            s0.len() == n,
            k <= s0.len(),
            s0.len() == k + rest@.len(),
            rest@ == s0.skip(k as int),
            forall|x: Seq<char>|
                #[trigger] opt_view(target.lookup(x)) == match find_entry(s0.take(k as int), x) {
                    Some(v) => Some(secret_text(v)),
                    None => opt_view(start.lookup(x)),
                },
        decreases rest.len(),
    {
        let e = rest.remove(0);
        let ghost before = *target;
        proof {
            assert(e == s0[k as int]);
            assert(rest@ =~= s0.skip(k + 1));
            assert(s0.take(k + 1) =~= s0.take(k as int).push(s0[k as int]));
            assert forall|j: int| 0 <= j < s0.take(k as int).len() implies s0.take(k as int)[j].0@
                != e.0@ by {
                assert(s0.take(k as int)[j] == s0[j]);
            }
            lemma_find_entry_absent(s0.take(k as int), e.0@);
        }
        let (key, value) = e;
        let ghost v0 = value;
        let text = match value {
            Json::Str(t) => t,
            other => to_json_text(&other),
        };
        proof {
            assert(text@ == secret_text(v0));
        }
        target.insert(key, text);
        proof {
            assert forall|x: Seq<char>|
                #[trigger] opt_view(target.lookup(x)) == match find_entry(s0.take(k + 1), x) {
                    Some(v) => Some(secret_text(v)),
                    None => opt_view(start.lookup(x)),
                } by {
                lemma_find_entry_push(s0.take(k as int), s0[k as int], x);
                if x != s0[k as int].0@ {
                    assert(target.lookup(x) == before.lookup(x));
                }
            }
        }
        k = k + 1;
    }
    proof {
        assert(s0.take(k as int) =~= s0);
    }
}

fn merge_ref_values(target: &mut StrMap<String>, src: Vec<(String, Json)>)
    requires
        keys_distinct(src@),
    ensures
        forall|x: Seq<char>|
            #[trigger] opt_view(final(target).lookup(x)) == match find_entry(src@, x) {
                Some(Json::Str(s)) => Some(s@),
                _ => opt_view(old(target).lookup(x)),
            },
{
    let ghost s0 = src@;
    let ghost start = *target;
    let n = src.len();
    let mut rest = src;
    let mut k: usize = 0;
    while rest.len() > 0
        invariant
            keys_distinct(s0),
            s0.len() == n,
            k <= s0.len(),
            s0.len() == k + rest@.len(),
            rest@ == s0.skip(k as int),
            forall|x: Seq<char>|
                #[trigger] opt_view(target.lookup(x)) == match find_entry(s0.take(k as int), x) {
                    Some(Json::Str(s)) => Some(s@),
                    _ => opt_view(start.lookup(x)),
                },
        decreases rest.len(),
    {
        let e = rest.remove(0);
        let ghost before = *target;
        proof {
            assert(e == s0[k as int]);
            assert(rest@ =~= s0.skip(k + 1));
            assert(s0.take(k + 1) =~= s0.take(k as int).push(s0[k as int]));
            assert forall|j: int| 0 <= j < s0.take(k as int).len() implies s0.take(k as int)[j].0@
                != e.0@ by {
                assert(s0.take(k as int)[j] == s0[j]);
            }
            lemma_find_entry_absent(s0.take(k as int), e.0@);
        }
        let (key, value) = e;
        let ghost kv = key@;
        match value {
            Json::Str(t) => {
                target.insert(key, t);
            },
            _ => {},
        }
        proof {
            assert forall|x: Seq<char>|
                #[trigger] opt_view(target.lookup(x)) == match find_entry(s0.take(k + 1), x) {
                    Some(Json::Str(s)) => Some(s@),
                    _ => opt_view(start.lookup(x)),
                } by {
                lemma_find_entry_push(s0.take(k as int), s0[k as int], x);
                if x != kv {
                    assert(target.lookup(x) == before.lookup(x));
                }
            }
        }
        k = k + 1;
    }
    proof {
        assert(s0.take(k as int) =~= s0);
    }
}

proof fn lemma_plan_names_distinct()
    ensures
        "config"@ != "secrets"@,
        "config"@ != "config_refs"@,
        "config"@ != "secret_refs"@,
        "config"@ != "webhook_state"@,
        "config"@ != "webhook"@,
        "config"@ != "subscriptions_state"@,
        "config"@ != "subscriptions"@,
        "config"@ != "metadata"@,
        "secrets"@ != "config_refs"@,
        "secrets"@ != "secret_refs"@,
        "secrets"@ != "webhook_state"@,
        "secrets"@ != "webhook"@,
        "secrets"@ != "subscriptions_state"@,
        "secrets"@ != "subscriptions"@,
        "secrets"@ != "metadata"@,
        "config_refs"@ != "secret_refs"@,
        "config_refs"@ != "webhook_state"@,
        "config_refs"@ != "webhook"@,
        "config_refs"@ != "subscriptions_state"@,
        "config_refs"@ != "subscriptions"@,
        "config_refs"@ != "metadata"@,
        "secret_refs"@ != "webhook_state"@,
        "secret_refs"@ != "webhook"@,
        "secret_refs"@ != "subscriptions_state"@,
        "secret_refs"@ != "subscriptions"@,
        "secret_refs"@ != "metadata"@,
        "webhook_state"@ != "webhook"@,
        "webhook_state"@ != "subscriptions_state"@,
        "webhook_state"@ != "subscriptions"@,
        "webhook_state"@ != "metadata"@,
        "webhook"@ != "subscriptions_state"@,
        "webhook"@ != "subscriptions"@,
        "webhook"@ != "metadata"@,
        "subscriptions_state"@ != "subscriptions"@,
        "subscriptions_state"@ != "metadata"@,
        "subscriptions"@ != "metadata"@,
{
    reveal_strlit("config");
    reveal_strlit("secrets");
    reveal_strlit("config_refs");
    reveal_strlit("secret_refs");
    reveal_strlit("webhook_state");
    reveal_strlit("webhook");
    reveal_strlit("subscriptions_state");
    reveal_strlit("subscriptions");
    reveal_strlit("metadata");
    assert("config"@.len() == 6 && "config_refs"@.len() == 11 && "secrets"@.len() == 7);
    assert("secret_refs"@.len() == 11);
    assert("webhook_state"@.len() == 13 && "webhook"@.len() == 7);
    assert("subscriptions_state"@.len() == 19 && "subscriptions"@.len() == 13);
    assert("config"@[0] != "secrets"@[0]);
    assert("config_refs"@[0] != "secret_refs"@[0]);
    assert("config"@[0] != "webhook"@[0] && "secrets"@[0] != "webhook"@[0]);
    assert("config_refs"@[0] != "webhook_state"@[0] && "secret_refs"@[0] != "webhook_state"@[0]);
    assert("webhook_state"@[0] != "subscriptions"@[0]);
    assert("secrets"@[1] != "subscriptions"@[1]);
    assert("config"@[0] != "metadata"@[0] && "secrets"@[0] != "metadata"@[0]);
    assert("webhook"@[0] != "metadata"@[0] && "webhook_state"@[0] != "metadata"@[0]);
    assert("subscriptions"@[0] != "metadata"@[0] && "subscriptions_state"@[0] != "metadata"@[0]);
    assert("config_refs"@[0] != "metadata"@[0] && "secret_refs"@[0] != "metadata"@[0]);
    assert("webhook"@[0] != "subscriptions_state"@[0] && "config"@[0] != "subscriptions"@[0]);
    assert("config"@[0] != "subscriptions_state"@[0] && "config_refs"@[0] != "subscriptions"@[0]);
    assert("config_refs"@[0] != "subscriptions_state"@[0]);
    assert("secret_refs"@[1] != "subscriptions"@[1] && "secret_refs"@[1] != "subscriptions_state"@[1]);
    assert("secrets"@[1] != "subscriptions_state"@[1]);
    assert("config"@[0] != "webhook_state"@[0] && "secrets"@[0] != "webhook_state"@[0]);
    assert("config_refs"@[0] != "webhook"@[0] && "secret_refs"@[0] != "webhook"@[0]);
}

/// The entries of an object member, if the member is an object.
fn take_object(m: &mut StrMap<Json>, name: &str) -> (r: Option<Vec<(String, Json)>>)
    ensures
        match old(m).lookup(name@) {
            Some(Json::Object(o)) => r matches Some(es) && es@ == o.items() && keys_distinct(es@),
            _ => r is None,
        },
        final(m).lookup(name@) is None,
        forall|k: Seq<char>| k != name@ ==> final(m).lookup(k) == old(m).lookup(k),
{
    match m.remove(name) {
        Some(Json::Object(o)) => {
            let es = o.into_entries();
            proof {
                lemma_ascending_distinct(es@);
            }
            Some(es)
        },
        _ => None,
    }
}

/// Applies a provisioning plan to an install's state: planned
/// configuration values and secrets are stored (a secret that is not a
/// string as its JSON text) and get a default reference when they have
/// none; planned text references replace earlier ones; planned webhook and
/// subscriptions objects replace the earlier state; planned metadata
/// members are merged into the metadata, which becomes an object. A plan
/// that is not an object changes nothing.
pub fn apply_provision_plan(plan: Json, state: &mut ProviderInstallState)
    ensures
        forall|x: Seq<char>|
            #[trigger] final(state).config.lookup(x) == match entry_of(member_object(plan, "config"@), x) {
                Some(v) => Some(v),
                None => old(state).config.lookup(x),
            },
        forall|x: Seq<char>|
            #[trigger] opt_view(final(state).secrets.lookup(x)) == match entry_of(
                member_object(plan, "secrets"@),
                x,
            ) {
                Some(v) => Some(secret_text(v)),
                None => opt_view(old(state).secrets.lookup(x)),
            },
        forall|x: Seq<char>|
            #[trigger] opt_view(final(state).config_refs.lookup(x)) == planned_ref(
                plan,
                "config_refs"@,
                "config"@,
                "state:"@,
                opt_view(old(state).config_refs.lookup(x)),
                x,
            ),
        forall|x: Seq<char>|
            #[trigger] opt_view(final(state).secret_refs.lookup(x)) == planned_ref(
                plan,
                "secret_refs"@,
                "secrets"@,
                "secrets:"@,
                opt_view(old(state).secret_refs.lookup(x)),
                x,
            ),
        final(state).webhook_state == match member_or(plan, "webhook_state"@, "webhook"@) {
            Some(Json::Object(o)) => Json::Object(o),
            _ => old(state).webhook_state,
        },
        final(state).subscriptions_state == match member_or(
            plan,
            "subscriptions_state"@,
            "subscriptions"@,
        ) {
            Some(Json::Object(o)) => Json::Object(o),
            _ => old(state).subscriptions_state,
        },
        match member_object(plan, "metadata"@) {
            Some(meta) => final(state).metadata is Object && forall|x: Seq<char>|
                #[trigger] object_lookup(final(state).metadata, x) == match meta.lookup(x) {
                    Some(v) => Some(v),
                    None => object_lookup(old(state).metadata, x),
                },
            None => final(state).metadata == old(state).metadata,
        },
{
    let mut m = match plan {
        Json::Object(m) => m,
        _ => {
            return;
        },
    };
    let ghost m0 = m;
    proof {
        lemma_plan_names_distinct();
    }
    let cfg = take_object(&mut m, "config");
    match cfg {
        Some(es) => {
            default_refs(&mut state.config_refs, &es, "state:");
            merge_values(&mut state.config, es);
        },
        None => {},
    }
    let secrets = take_object(&mut m, "secrets");
    match secrets {
        Some(es) => {
            default_refs(&mut state.secret_refs, &es, "secrets:");
            merge_secret_values(&mut state.secrets, es);
        },
        None => {},
    }
    let crefs = take_object(&mut m, "config_refs");
    match crefs {
        Some(es) => merge_ref_values(&mut state.config_refs, es),
        None => {},
    }
    let srefs = take_object(&mut m, "secret_refs");
    match srefs {
        Some(es) => merge_ref_values(&mut state.secret_refs, es),
        None => {},
    }
    let ghost m1 = m;
    let webhook = match m.remove("webhook_state") {
        Some(v) => Some(v),
        None => m.remove("webhook"),
    };
    match webhook {
        Some(Json::Object(o)) => {
            state.webhook_state = Json::Object(o);
        },
        _ => {},
    }
    let ghost m2 = m;
    let subs = match m.remove("subscriptions_state") {
        Some(v) => Some(v),
        None => m.remove("subscriptions"),
    };
    match subs {
        Some(Json::Object(o)) => {
            state.subscriptions_state = Json::Object(o);
        },
        _ => {},
    }
    let ghost m3 = m;
    let meta = take_object(&mut m, "metadata");
    match meta {
        Some(es) => {
            let mut target = match &state.metadata {
                Json::Object(_) => {
                    let mut tmp = Json::Null;
                    std::mem::swap(&mut tmp, &mut state.metadata);
                    match tmp {
                        Json::Object(t) => t,
                        _ => StrMap::new(),
                    }
                },
                _ => StrMap::new(),
            };
            proof {
                assert forall|x: Seq<char>| #[trigger] target.lookup(x) == object_lookup(
                    old(state).metadata,
                    x,
                ) by {}
            }
            merge_values(&mut target, es);
            state.metadata = Json::Object(target);
        },
        None => {},
    }
    proof {
        assert(m1.lookup("webhook_state"@) == m0.lookup("webhook_state"@));
        assert(m1.lookup("webhook"@) == m0.lookup("webhook"@));
        assert(m2.lookup("subscriptions_state"@) == m0.lookup("subscriptions_state"@));
        assert(m2.lookup("subscriptions"@) == m0.lookup("subscriptions"@));
        assert(m3.lookup("metadata"@) == m0.lookup("metadata"@));
    }
}

/// Whether `dev up` opens a public tunnel to the gateway.
#[derive(Clone, Copy, Debug, PartialEq, Eq)]
pub enum DevTunnel {
    Cloudflared,
    Disabled,
}

/// Whether a tunnel process is started: only a Cloudflare tunnel outside
/// dry-run mode.
pub fn tunnel_starts(tunnel: DevTunnel, dry_run: bool) -> (r: bool)
    ensures
        r == (tunnel is Cloudflared && !dry_run),
{
    match tunnel {
        DevTunnel::Cloudflared => !dry_run,
        DevTunnel::Disabled => false,
    }
}

/// The public base URL of the stack: the address a started tunnel
/// announced, else the local gateway address.
pub fn dev_public_base_url(tunnel: DevTunnel, dry_run: bool, announced: Option<String>, local: String) -> (r:
    String)
    ensures
        r == if tunnel is Cloudflared && !dry_run {
            match announced {
                Some(u) => u,
                None => local,
            }
        } else {
            local
        },
{
    if tunnel_starts(tunnel, dry_run) {
        match announced {
            Some(u) => u,
            None => local,
        }
    } else {
        local
    }
}

/// The line a dry run prints instead of opening the tunnel.
pub fn dry_run_tunnel_line(local: &str) -> (r: String)
    ensures
        r@ == "(dry-run) cloudflared tunnel --url "@ + local@,
{
    concat2("(dry-run) cloudflared tunnel --url ", local)
}

/// The line printed once the stack runs.
pub fn dev_started_message(public_base_url: &str) -> (r: String)
    ensures
        r@ == "Dev stack started. PUBLIC_BASE_URL="@ + public_base_url@ + " (logs in .greentic/dev)"@,
{
    concat3_text("Dev stack started. PUBLIC_BASE_URL=", public_base_url, " (logs in .greentic/dev)")
}

/// The non-blank comma-separated entries of a setting, trimmed, in order.
pub open spec fn comma_entries(raw: Seq<char>) -> Seq<Seq<char>> {
    crate::text::split(raw, ',').map_values(|p: Seq<char>| trim(p)).filter(|t: Seq<char>| t.len() > 0)
}

/// Reads a comma-separated setting, as the pack path and default pack
/// settings are read.
pub fn comma_list(raw: &str) -> (r: Vec<String>)
    ensures
        views(r@) == comma_entries(raw@),
{
    let parts = crate::text::str_split(raw, ',');
    let ghost ps = crate::text::split(raw@, ',');
    let ghost tr = ps.map_values(|p: Seq<char>| trim(p));
    let mut out: Vec<String> = Vec::new();
    for i in 0..parts.len()
        invariant
            views(parts@) == ps,
            ps == crate::text::split(raw@, ','),
            tr == ps.map_values(|p: Seq<char>| trim(p)),
            views(out@) == tr.take(i as int).filter(|t: Seq<char>| t.len() > 0),
    {
        let t = str_trim(parts[i].as_str());
        let ghost before = views(out@);
        proof {
            assert(tr.take(i + 1).drop_last() =~= tr.take(i as int));
            assert(tr.take(i + 1).last() == trim(parts@[i as int]@));
            reveal(Seq::filter);
        }
        let n = to_chars(t.as_str()).len();
        if n > 0 {
            out.push(t);
            proof {
                assert(views(out@) =~= before.push(trim(parts@[i as int]@)));
            }
        }
    }
    proof {
        assert(tr.take(parts@.len() as int) =~= tr);
    }
    out
}

/// Whether the install-all setting is on: `true` in any case.
pub fn install_all_setting(raw: Option<&str>) -> (r: bool)
    ensures
        r == match raw {
            Some(v) => lower(v@) == "true"@,
            None => false,
        },
{
    match raw {
        Some(v) => {
            let l = to_lower(v);
            str_eq(l.as_str(), "true")
        },
        None => false,
    }
}

/// The platform name a provider type is for, if any.
pub open spec fn provider_platform(provider_type: Seq<char>) -> Option<Seq<char>> {
    match first_platform_token(tokens(provider_type, Separator::NonAlphanumeric)) {
        Some(p) => Some(platform_name(p)),
        None => None,
    }
}

/// Some of the first `n` provider types is for the platform `x`.
pub open spec fn some_for(types: Seq<String>, n: int, x: Seq<char>) -> bool {
    exists|j: int| 0 <= j < n && #[trigger] provider_platform(types[j]@) == Some(x)
}

/// Some of the first `n` provider types is `x` and names no platform.
pub open spec fn some_unknown(types: Seq<String>, n: int, x: Seq<char>) -> bool {
    exists|j: int| 0 <= j < n && types[j]@ == x && #[trigger] provider_platform(types[j]@) is None
}

/// The platforms the providers of some packs are for, and the provider
/// types that name no platform: each ascending and without repeats.
pub fn platforms_of_provider_types(types: &Vec<String>) -> (r: (Vec<String>, Vec<String>))
    ensures
        crate::strmap::sorted_strict(views(r.0@)),
        crate::strmap::sorted_strict(views(r.1@)),
        forall|x: Seq<char>| #[trigger] views(r.0@).contains(x) <==> some_for(types@, types@.len() as int, x),
        forall|x: Seq<char>| #[trigger] views(r.1@).contains(x) <==> some_unknown(types@, types@.len() as int, x),
{
    let mut found: Vec<String> = Vec::new();
    let mut unknown: Vec<String> = Vec::new();
    for i in 0..types.len()
        invariant
            forall|x: Seq<char>| #[trigger] views(found@).contains(x) <==> some_for(types@, i as int, x),
            forall|x: Seq<char>| #[trigger] views(unknown@).contains(x) <==> some_unknown(types@, i as int, x),
    {
        let ghost f0 = views(found@);
        let ghost u0 = views(unknown@);
        let ghost t = types@[i as int]@;
        match infer_platform_from_provider_type(types[i].as_str()) {
            Some(p) => {
                proof {
                    assert(provider_platform(t) == Some(p@));
                }
                found.push(p);
                proof {
                    assert(views(found@) =~= f0.push(provider_platform(t)->0));
                    assert forall|x: Seq<char>| #[trigger] views(found@).contains(x) <==> some_for(types@, i + 1, x) by {
                        if views(found@).contains(x) {
                            let k = choose|k: int| 0 <= k < views(found@).len() && views(found@)[k] == x;
                            if k < f0.len() {
                                assert(f0[k] == x);
                                assert(f0.contains(x));
                            } else {
                                assert(provider_platform(types@[i as int]@) == Some(x));
                            }
                        }
                        if some_for(types@, i + 1, x) {
                            let j = choose|j: int| 0 <= j < i + 1 && #[trigger] provider_platform(types@[j]@) == Some(x);
                            if j < i {
                                assert(some_for(types@, i as int, x));
                                assert(f0.contains(x));
                                let k = choose|k: int| 0 <= k < f0.len() && f0[k] == x;
                                assert(views(found@)[k] == x);
                            } else {
                                assert(views(found@)[f0.len() as int] == x);
                            }
                        }
                    }
                    assert forall|x: Seq<char>| #[trigger] views(unknown@).contains(x) <==> some_unknown(types@, i + 1, x) by {
                        if some_unknown(types@, i + 1, x) {
                            let j = choose|j: int| 0 <= j < i + 1 && types@[j]@ == x && #[trigger] provider_platform(types@[j]@) is None;
                            assert(j < i);
                            assert(some_unknown(types@, i as int, x));
                        }
                    }
                }
            },
            None => {
                proof {
                    assert(provider_platform(t) is None);
                }
                let c = types[i].clone();
                unknown.push(c);
                proof {
                    assert(views(unknown@) =~= u0.push(t));
                    assert forall|x: Seq<char>| #[trigger] views(unknown@).contains(x) <==> some_unknown(types@, i + 1, x) by {
                        if views(unknown@).contains(x) {
                            let k = choose|k: int| 0 <= k < views(unknown@).len() && views(unknown@)[k] == x;
                            if k < u0.len() {
                                assert(u0[k] == x);
                                assert(u0.contains(x));
                            } else {
                                assert(types@[i as int]@ == x && provider_platform(types@[i as int]@) is None);
                            }
                        }
                        if some_unknown(types@, i + 1, x) {
                            let j = choose|j: int| 0 <= j < i + 1 && types@[j]@ == x && #[trigger] provider_platform(types@[j]@) is None;
                            if j < i {
                                assert(some_unknown(types@, i as int, x));
                                assert(u0.contains(x));
                                let k = choose|k: int| 0 <= k < u0.len() && u0[k] == x;
                                assert(views(unknown@)[k] == x);
                            } else {
                                assert(views(unknown@)[u0.len() as int] == x);
                            }
                        }
                    }
                    assert forall|x: Seq<char>| #[trigger] views(found@).contains(x) <==> some_for(types@, i + 1, x) by {
                        if some_for(types@, i + 1, x) {
                            let j = choose|j: int| 0 <= j < i + 1 && #[trigger] provider_platform(types@[j]@) == Some(x);
                            assert(j < i);
                            assert(some_for(types@, i as int, x));
                        }
                    }
                }
            },
        }
    }
    (sorted_unique(found), sorted_unique(unknown))
}

/// Whether `greentic_types::EnvId::new` accepts the text: non-empty ASCII
/// letters, digits, `.`, `_` and `-`, the rule of every identifier type of
/// that crate.
#[verifier::external_body]
fn env_id_accepted(s: &str) -> (r: bool)
    ensures
        r == crate::packs::valid_identifier(s@),
{
    greentic_types::EnvId::new(s).is_ok()
}

/// Whether `greentic_types::TenantId::new` accepts the text, by the same
/// identifier rule.
#[verifier::external_body]
fn tenant_id_accepted(s: &str) -> (r: bool)
    ensures
        r == crate::packs::valid_identifier(s@),
{
    greentic_types::TenantId::new(s).is_ok()
}

/// Whether `greentic_types::TeamId::new` accepts the text, by the same
/// identifier rule.
#[verifier::external_body]
fn team_id_accepted(s: &str) -> (r: bool)
    ensures
        r == crate::packs::valid_identifier(s@),
{
    greentic_types::TeamId::new(s).is_ok()
}

/// Whether `greentic_types::ProviderInstallId::new` accepts the text, by
/// the same identifier rule.
#[verifier::external_body]
fn install_id_accepted(s: &str) -> (r: bool)
    ensures
        r == crate::packs::valid_identifier(s@),
{
    greentic_types::ProviderInstallId::new(s).is_ok()
}

/// An object with no members.
pub open spec fn empty_object(v: Json) -> bool {
    v matches Json::Object(m) && forall|k: Seq<char>| #[trigger] m.lookup(k) is None
}

/// An object whose only member `key` is the text `text`.
pub open spec fn single_text_object(v: Json, key: Seq<char>, text: Seq<char>) -> bool {
    v matches Json::Object(m) && (m.lookup(key) matches Some(Json::Str(t)) && t@ == text) && forall|k: Seq<char>|
        k != key ==> #[trigger] m.lookup(k) is None
}

/// A state with nothing configured, recorded or set up yet.
pub open spec fn blank_state(s: ProviderInstallState) -> bool {
    &&& forall|k: Seq<char>| #[trigger] s.config.lookup(k) is None
    &&& forall|k: Seq<char>| #[trigger] s.config_refs.lookup(k) is None
    &&& forall|k: Seq<char>| #[trigger] s.secret_refs.lookup(k) is None
    &&& empty_object(s.subscriptions_state)
}

fn empty_json_object() -> (r: Json)
    ensures
        empty_object(r),
{
    Json::Object(StrMap::new())
}

fn text_object(key: &str, text: &str) -> (r: Json)
    ensures
        single_text_object(r, key@, text@),
{
    let mut m: StrMap<Json> = StrMap::new();
    m.insert(owned(key), Json::Str(owned(text)));
    Json::Object(m)
}

/// The install state `dev setup` starts from: nothing configured, the
/// public base URL in its metadata. The environment, tenant, team and
/// install id must be valid identifiers; the first that is not is named.
pub fn new_dev_install_state(ctx: &DevContext, install_id: &str, public_base_url: &str) -> (r: Result<
    ProviderInstallState,
    String,
>)
    ensures
        match r {
            Ok(s) => crate::packs::valid_identifier(ctx.env@) && crate::packs::valid_identifier(ctx.tenant@)
                && crate::packs::valid_identifier(ctx.team@) && crate::packs::valid_identifier(install_id@)
                && blank_state(s) && (forall|k: Seq<char>| #[trigger] s.secrets.lookup(k) is None)
                && empty_object(s.webhook_state) && single_text_object(
                s.metadata,
                "public_base_url"@,
                public_base_url@,
            ),
            Err(e) => e@ == if !crate::packs::valid_identifier(ctx.env@) {
                "invalid env id"@
            } else if !crate::packs::valid_identifier(ctx.tenant@) {
                "invalid tenant id"@
            } else if !crate::packs::valid_identifier(ctx.team@) {
                "invalid team id"@
            } else {
                "invalid install id"@
            } && !(crate::packs::valid_identifier(ctx.env@) && crate::packs::valid_identifier(ctx.tenant@)
                && crate::packs::valid_identifier(ctx.team@) && crate::packs::valid_identifier(install_id@)),
        },
{
    if !env_id_accepted(ctx.env.as_str()) {
        return Err(owned("invalid env id"));
    }
    if !tenant_id_accepted(ctx.tenant.as_str()) {
        return Err(owned("invalid tenant id"));
    }
    if !team_id_accepted(ctx.team.as_str()) {
        return Err(owned("invalid team id"));
    }
    if !install_id_accepted(install_id) {
        return Err(owned("invalid install id"));
    }
    Ok(ProviderInstallState {
        config: StrMap::new(),
        secrets: StrMap::new(),
        config_refs: StrMap::new(),
        secret_refs: StrMap::new(),
        webhook_state: empty_json_object(),
        subscriptions_state: empty_json_object(),
        metadata: text_object("public_base_url", public_base_url),
    })
}

/// The install state an end-to-end run starts from: nothing configured;
/// its metadata routes it to the platform and channel; when the provider
/// validates webhooks, the webhook state names the `x-signature` header and
/// the `webhook_secret` secret, which is set to `secret`.
pub fn e2e_install_state(routing_platform: &str, channel_id: &str, webhook_validation: bool) -> (r:
    ProviderInstallState)
    ensures
        blank_state(r),
        r.metadata matches Json::Object(m) && (forall|k: Seq<char>| k != "routing"@ ==> #[trigger] m.lookup(k) is None)
            && (m.lookup("routing"@) matches Some(Json::Object(routing)) && (routing.lookup("platform"@) matches Some(
            Json::Str(p),
        ) && p@ == routing_platform@) && (routing.lookup("channel_id"@) matches Some(Json::Str(c)) && c@
            == channel_id@) && forall|k: Seq<char>|
            k != "platform"@ && k != "channel_id"@ ==> #[trigger] routing.lookup(k) is None),
        webhook_validation ==> (r.webhook_state matches Json::Object(w) && (w.lookup("signature_header"@) matches Some(
            Json::Str(h),
        ) && h@ == "x-signature"@) && (w.lookup("secret_key"@) matches Some(Json::Str(k)) && k@
            == "webhook_secret"@) && forall|k: Seq<char>|
            k != "signature_header"@ && k != "secret_key"@ ==> #[trigger] w.lookup(k) is None),
        webhook_validation ==> single_secret(r.secrets),
        !webhook_validation ==> empty_object(r.webhook_state) && forall|k: Seq<char>| #[trigger] r.secrets.lookup(k) is None,
{
    proof {
        reveal_strlit("platform");
        reveal_strlit("channel_id");
        reveal_strlit("signature_header");
        reveal_strlit("secret_key");
        assert("platform"@.len() != "channel_id"@.len());
        assert("signature_header"@.len() != "secret_key"@.len());
    }
    let mut routing: StrMap<Json> = StrMap::new();
    routing.insert(owned("platform"), Json::Str(owned(routing_platform)));
    routing.insert(owned("channel_id"), Json::Str(owned(channel_id)));
    let mut meta: StrMap<Json> = StrMap::new();
    meta.insert(owned("routing"), Json::Object(routing));
    let mut secrets: StrMap<String> = StrMap::new();
    let webhook_state = if webhook_validation {
        let mut w: StrMap<Json> = StrMap::new();
        w.insert(owned("signature_header"), Json::Str(owned("x-signature")));
        w.insert(owned("secret_key"), Json::Str(owned("webhook_secret")));
        secrets.insert(owned("webhook_secret"), owned("secret"));
        Json::Object(w)
    } else {
        empty_json_object()
    };
    ProviderInstallState {
        config: StrMap::new(),
        secrets,
        config_refs: StrMap::new(),
        secret_refs: StrMap::new(),
        webhook_state,
        subscriptions_state: empty_json_object(),
        metadata: Json::Object(meta),
    }
}

/// The secrets hold `webhook_secret`, set to `secret`, and nothing else.
pub open spec fn single_secret(s: StrMap<String>) -> bool {
    (s.lookup("webhook_secret"@) matches Some(v) && v@ == "secret"@) && forall|k: Seq<char>|
        k != "webhook_secret"@ ==> #[trigger] s.lookup(k) is None
}

/// The sample environment for the ingress guard rails, every setting
/// commented out.
pub open spec fn guard_rails_sample_text() -> Seq<Seq<char>> {
    seq![
        "# Guard rail sample env"@,
        "# Uncomment the blocks you need and replace placeholder values."@,
        "# Require Authorization: Bearer header on ingress:"@,
        "#INGRESS_BEARER=replace-with-shared-token"@,
        "# HMAC validation for webhook/admin calls:"@,
        "#INGRESS_HMAC_SECRET=replace-with-strong-secret"@,
        "#INGRESS_HMAC_HEADER=x-signature"@,
        "# Signed action links for MessageCard buttons:"@,
        "#JWT_SECRET=change-me"@,
        "#JWT_ALG=HS256"@,
        "#ACTION_BASE_URL=https://actions.example.dev/a"@,
    ]
}

/// The lines of the guard rails sample environment.
pub fn guard_rails_sample_lines() -> (r: Vec<String>)
    ensures
        views(r@) == guard_rails_sample_text(),
{
    let mut v: Vec<String> = Vec::new();
    push_text(&mut v, "# Guard rail sample env");
    push_text(&mut v, "# Uncomment the blocks you need and replace placeholder values.");
    push_text(&mut v, "# Require Authorization: Bearer header on ingress:");
    push_text(&mut v, "#INGRESS_BEARER=replace-with-shared-token");
    push_text(&mut v, "# HMAC validation for webhook/admin calls:");
    push_text(&mut v, "#INGRESS_HMAC_SECRET=replace-with-strong-secret");
    push_text(&mut v, "#INGRESS_HMAC_HEADER=x-signature");
    push_text(&mut v, "# Signed action links for MessageCard buttons:");
    push_text(&mut v, "#JWT_SECRET=change-me");
    push_text(&mut v, "#JWT_ALG=HS256");
    push_text(&mut v, "#ACTION_BASE_URL=https://actions.example.dev/a");
    proof {
        assert(views(v@) =~= guard_rails_sample_text());
    }
    v
}

} // verus!
