//! The subscriptions worker: which installs it syncs, how failures back
//! off, the provisioning command it runs and the state it records.
use vstd::prelude::*;
use crate::json::Json;
use crate::packs::{join_path, joined_path, opt_view};
use crate::strmap::StrMap;
use crate::text::{decimal, decimal_string, owned, str_eq, views};

verus! {

/// Seconds between sync cycles.
pub const SYNC_INTERVAL_SECS: u64 = 900;

/// The first retry delay, in seconds.
pub const BACKOFF_BASE_SECS: u64 = 30;

/// The longest retry delay, in seconds.
pub const BACKOFF_MAX_SECS: u64 = 1800;

/// How many consecutive failures mark an install degraded.
pub const DEGRADED_AFTER: u32 = 3;

/// Settings of the worker.
#[derive(Clone, Debug, PartialEq, Eq)]
pub struct WorkerConfig {
    pub env: String,
    pub packs_root: String,
    pub install_store_path: Option<String>,
    pub sync_interval_secs: u64,
    pub provision_bin: String,
    pub dry_run: bool,
}

impl WorkerConfig {
    /// The settings for an environment under a Greentic root: packs under
    /// `{root}/packs`, a sync every fifteen minutes with `greentic-provision`.
    pub fn from_config(greentic_root: &str, env: &str, install_store_path: Option<String>) -> (r:
        Self)
        ensures
            r.env@ == env@,
            r.packs_root@ == joined_path(greentic_root@, "packs"@),
            r.install_store_path == install_store_path,
            r.sync_interval_secs == SYNC_INTERVAL_SECS,
            r.provision_bin@ == "greentic-provision"@,
            !r.dry_run,
    {
        WorkerConfig {
            env: owned(env),
            packs_root: join_path(greentic_root, "packs"),
            install_store_path,
            sync_interval_secs: SYNC_INTERVAL_SECS,
            provision_bin: owned("greentic-provision"),
            dry_run: false,
        }
    }
}

/// The install store of a development setup, when it exists.
pub fn default_install_store_path(greentic_root: &str, exists: bool) -> (r: Option<String>)
    ensures
        match r {
            Some(p) => exists && p@ == joined_path(greentic_root@, ".greentic/dev/installs.json"@),
            None => !exists,
        },
{
    if exists {
        Some(join_path(greentic_root, ".greentic/dev/installs.json"))
    } else {
        None
    }
}

/// Identifies one provider install of a tenant.
#[derive(Clone, Debug, PartialEq, Eq, Hash)]
pub struct InstallKey {
    pub env: String,
    pub tenant: String,
    pub team: Option<String>,
    pub provider_id: String,
    pub install_id: String,
}

/// Two keys name the same install.
pub open spec fn same_install(a: InstallKey, b: InstallKey) -> bool {
    a.env@ == b.env@ && a.tenant@ == b.tenant@ && opt_view(a.team) == opt_view(b.team)
        && a.provider_id@ == b.provider_id@ && a.install_id@ == b.install_id@
}

impl InstallKey {
    /// A copy of the key.
    pub fn copy_key(&self) -> (r: InstallKey)
        ensures
            r == *self,
    {
        InstallKey {
            env: self.env.clone(),
            tenant: self.tenant.clone(),
            team: match &self.team {
                Some(t) => Some(t.clone()),
                None => None,
            },
            provider_id: self.provider_id.clone(),
            install_id: self.install_id.clone(),
        }
    }

    /// Whether both keys name the same install.
    pub fn same(&self, other: &InstallKey) -> (r: bool)
        ensures
            r == same_install(*self, *other),
    {
        let team_eq = match (&self.team, &other.team) {
            (Some(a), Some(b)) => str_eq(a.as_str(), b.as_str()),
            (None, None) => true,
            _ => false,
        };
        str_eq(self.env.as_str(), other.env.as_str()) && str_eq(
            self.tenant.as_str(),
            other.tenant.as_str(),
        ) && team_eq && str_eq(self.provider_id.as_str(), other.provider_id.as_str()) && str_eq(
            self.install_id.as_str(),
            other.install_id.as_str(),
        )
    }
}

/// The retry delay after `count` consecutive failures, in seconds:
/// thirty seconds doubled per failure after the first, at most ten times,
/// and never more than thirty minutes.
pub open spec fn backoff_secs(count: u32) -> nat {
    let exp: nat = if count == 0 {
        0
    } else if count - 1 > 10 {
        10
    } else {
        (count - 1) as nat
    };
    let d: nat = (BACKOFF_BASE_SECS as nat) * vstd::arithmetic::power2::pow2(exp);
    if d > BACKOFF_MAX_SECS {
        BACKOFF_MAX_SECS as nat
    } else {
        d
    }
}

/// The retry delay after `count` failures.
pub fn backoff_delay_secs(count: u32) -> (r: u64)
    ensures
        r == backoff_secs(count),
{
    let exp: u32 = if count == 0 {
        0
    } else if count - 1 > 10 {
        10
    } else {
        count - 1
    };
    let mut factor: u64 = 1;
    let mut i: u32 = 0;
    proof {
        vstd::arithmetic::power2::lemma2_to64();
    }
    while i < exp
        invariant
            i <= exp <= 10,
            factor == vstd::arithmetic::power2::pow2(i as nat),
            factor <= 1024,
        decreases exp - i,
    {
        proof {
            vstd::arithmetic::power2::lemma2_to64();
            vstd::arithmetic::power2::lemma_pow2_unfold((i + 1) as nat);
            if i + 1 < 10 {
                vstd::arithmetic::power2::lemma_pow2_strictly_increases((i + 1) as nat, 10);
            }
        }
        factor = factor * 2;
        i = i + 1;
    }
    let d = BACKOFF_BASE_SECS * factor;
    if d > BACKOFF_MAX_SECS {
        BACKOFF_MAX_SECS
    } else {
        d
    }
}

/// The delay never exceeds thirty minutes and never falls with more
/// failures.
pub proof fn lemma_backoff_bounded_monotone(a: u32, b: u32)
    requires
        a <= b,
    ensures
        backoff_secs(a) <= BACKOFF_MAX_SECS,
        backoff_secs(a) <= backoff_secs(b),
{
    let ea: nat = if a == 0 {
        0
    } else if a - 1 > 10 {
        10
    } else {
        (a - 1) as nat
    };
    let eb: nat = if b == 0 {
        0
    } else if b - 1 > 10 {
        10
    } else {
        (b - 1) as nat
    };
    assert(ea <= eb);
    if ea < eb {
        vstd::arithmetic::power2::lemma_pow2_strictly_increases(ea, eb);
    }
}

/// Consecutive failures of an install and when it may be tried again, in
/// milliseconds on the worker's clock.
#[derive(Debug, PartialEq, Eq)]
pub struct FailureState {
    pub count: u32,
    pub next_attempt_ms: u64,
}

impl FailureState {
    /// No failure yet; retry at once.
    pub fn new(now_ms: u64) -> (r: Self)
        ensures
            r.count == 0,
            r.next_attempt_ms == now_ms,
    {
        FailureState { count: 0, next_attempt_ms: now_ms }
    }

    /// Schedules the next attempt after the delay of the current count,
    /// the time saturating at its largest value.
    pub fn bump_backoff(&mut self, now_ms: u64)
        ensures
            final(self).count == old(self).count,
            final(self).next_attempt_ms == if now_ms + backoff_secs(old(self).count) * 1000
                > u64::MAX {
                u64::MAX as int
            } else {
                now_ms + backoff_secs(old(self).count) * 1000
            },
    {
        let delay_ms = backoff_delay_secs(self.count) * 1000;
        self.next_attempt_ms = now_ms.saturating_add(delay_ms);
    }

    /// Records one more failure at `now_ms` and schedules the retry.
    pub fn record_failure(&mut self, now_ms: u64)
        requires
            old(self).count < u32::MAX,
        ensures
            final(self).count == old(self).count + 1,
            final(self).next_attempt_ms == if now_ms + backoff_secs(final(self).count) * 1000
                > u64::MAX {
                u64::MAX as int
            } else {
                now_ms + backoff_secs(final(self).count) * 1000
            },
    {
        self.count = self.count + 1;
        self.bump_backoff(now_ms);
    }
}

/// The failure state recorded for an install, the first entry naming it.
pub open spec fn failure_of(entries: Seq<(InstallKey, FailureState)>, key: InstallKey) -> Option<
    FailureState,
>
    decreases entries.len(),
{
    if entries.len() == 0 {
        None
    } else if same_install(entries[0].0, key) {
        Some(entries[0].1)
    } else {
        failure_of(entries.drop_first(), key)
    }
}

/// Failure states by install.
pub struct FailureTable {
    pub entries: Vec<(InstallKey, FailureState)>,
}

impl FailureTable {
    /// No failures.
    pub fn new() -> (r: Self)
        ensures
            r.entries@.len() == 0,
    {
        FailureTable { entries: Vec::new() }
    }

    fn index_of(&self, key: &InstallKey) -> (r: Option<usize>)
        ensures
            match r {
                Some(i) => i < self.entries@.len() && same_install(self.entries@[i as int].0, *key)
                    && failure_of(self.entries@, *key) == Some(self.entries@[i as int].1)
                    && forall|j: int| 0 <= j < i ==> !same_install(self.entries@[j].0, *key),
                None => failure_of(self.entries@, *key) is None && forall|j: int|
                    0 <= j < self.entries@.len() ==> !same_install(self.entries@[j].0, *key),
            },
    {
        let ghost s = self.entries@;
        proof {
            assert(s.skip(0) =~= s);
        }
        for i in 0..self.entries.len()
            invariant
                s == self.entries@,
                failure_of(s, *key) == failure_of(s.skip(i as int), *key),
                forall|j: int| 0 <= j < i ==> !same_install(s[j].0, *key),
        {
            proof {
                assert(s.skip(i as int).drop_first() =~= s.skip(i + 1));
                assert(s.skip(i as int)[0] == s[i as int]);
            }
            if self.entries[i].0.same(key) {
                return Some(i);
            }
        }
        proof {
            assert(s.skip(s.len() as int).len() == 0);
        }
        None
    }

    /// The failure state of an install.
    pub fn get(&self, key: &InstallKey) -> (r: Option<&FailureState>)
        ensures
            match failure_of(self.entries@, *key) {
                Some(f) => r matches Some(x) && *x == f,
                None => r is None,
            },
    {
        match self.index_of(key) {
            Some(i) => Some(&self.entries[i].1),
            None => None,
        }
    }

    /// Records a failure of an install at `now_ms`: its count grows by one
    /// (from nothing, one) and its retry is pushed back; returns the count.
    pub fn record_failure(&mut self, key: &InstallKey, now_ms: u64) -> (count: u32)
        requires
            match failure_of(old(self).entries@, *key) {
                Some(f) => f.count < u32::MAX,
                None => true,
            },
        ensures
            count == match failure_of(old(self).entries@, *key) {
                Some(f) => f.count + 1,
                None => 1,
            },
            failure_of(final(self).entries@, *key) matches Some(f) && f.count == count
                && f.next_attempt_ms == if now_ms + backoff_secs(count) * 1000 > u64::MAX {
                u64::MAX as int
            } else {
                now_ms + backoff_secs(count) * 1000
            },
    {
        match self.index_of(key) {
            Some(i) => {
                let (k, old_f) = self.entries.remove(i);
                let mut f = FailureState { count: old_f.count, next_attempt_ms: old_f.next_attempt_ms };
                f.record_failure(now_ms);
                let count = f.count;
                self.entries.insert(i, (k, f));
                proof {
                    lemma_failure_at(self.entries@, i as int, *key);
                }
                count
            },
            None => {
                let mut f = FailureState::new(now_ms);
                f.record_failure(now_ms);
                let count = f.count;
                let k = key.copy_key();
                self.entries.push((k, f));
                proof {
                    lemma_failure_at(self.entries@, self.entries@.len() - 1, *key);
                }
                count
            },
        }
    }

    /// Forgets the failures of an install after a successful sync.
    pub fn clear(&mut self, key: &InstallKey)
        ensures
            failure_of(final(self).entries@, *key) is None,
    {
        let mut out: Vec<(InstallKey, FailureState)> = Vec::new();
        let mut es: Vec<(InstallKey, FailureState)> = Vec::new();
        std::mem::swap(&mut es, &mut self.entries);
        while es.len() > 0
            invariant
                forall|j: int| 0 <= j < out@.len() ==> !same_install(#[trigger] out@[j].0, *key),
            decreases es.len(),
        {
            let e = es.remove(0);
            if !e.0.same(key) {
                out.push(e);
            }
        }
        proof {
            lemma_failure_absent(out@, *key);
        }
        self.entries = out;
    }
}

/// The entry at `i` is the one found for its install when no earlier entry
/// names it.
pub proof fn lemma_failure_at(s: Seq<(InstallKey, FailureState)>, i: int, key: InstallKey)
    requires
        0 <= i < s.len(),
        same_install(s[i].0, key),
        forall|j: int| 0 <= j < i ==> !same_install(s[j].0, key),
    ensures
        failure_of(s, key) == Some(s[i].1),
    decreases i,
{
    if i > 0 {
        let t = s.drop_first();
        assert forall|j: int| 0 <= j < i - 1 implies !same_install(t[j].0, key) by {
            assert(t[j] == s[j + 1]);
        }
        lemma_failure_at(t, i - 1, key);
    }
}

/// No entry naming an install means no failure for it.
pub proof fn lemma_failure_absent(s: Seq<(InstallKey, FailureState)>, key: InstallKey)
    requires
        forall|j: int| 0 <= j < s.len() ==> !same_install(#[trigger] s[j].0, key),
    ensures
        failure_of(s, key) is None,
    decreases s.len(),
{
    if s.len() > 0 {
        let t = s.drop_first();
        assert forall|j: int| 0 <= j < t.len() implies !same_install(#[trigger] t[j].0, key) by {
            assert(t[j] == s[j + 1]);
        }
        lemma_failure_absent(t, key);
    }
}


/// What the worker does with one install in a cycle.
#[derive(Debug, PartialEq, Eq)]
pub enum SyncDecision {
    /// Its provider has no subscriptions extension.
    SkipNoSubscriptions,
    /// Its pack is not known.
    SkipMissingPack,
    /// It failed recently and its retry time has not come.
    SkipBackoff,
    /// Sync it now.
    Run,
}

/// Decides whether an install is synced now: only providers with
/// subscriptions, with a known pack, and not waiting out a failure (a dry
/// run does not wait).
pub fn sync_decision(
    has_subscriptions: bool,
    pack_known: bool,
    failure: Option<&FailureState>,
    now_ms: u64,
    dry_run: bool,
) -> (r: SyncDecision)
    ensures
        r == if !has_subscriptions {
            SyncDecision::SkipNoSubscriptions
        } else if !pack_known {
            SyncDecision::SkipMissingPack
        } else if (failure matches Some(f) && f.next_attempt_ms > now_ms) && !dry_run {
            SyncDecision::SkipBackoff
        } else {
            SyncDecision::Run
        },
{
    if !has_subscriptions {
        return SyncDecision::SkipNoSubscriptions;
    }
    if !pack_known {
        return SyncDecision::SkipMissingPack;
    }
    match failure {
        Some(f) => {
            if f.next_attempt_ms > now_ms && !dry_run {
                return SyncDecision::SkipBackoff;
            }
        },
        None => {},
    }
    SyncDecision::Run
}

/// The arguments of `greentic-provision sync-subscriptions` for an install.
pub open spec fn sync_args_of(
    provider_id: Seq<char>,
    install_id: Seq<char>,
    pack_path: Seq<char>,
    env: Seq<char>,
    tenant: Seq<char>,
    public_base_url: Seq<char>,
    team: Option<Seq<char>>,
    dry_run: bool,
) -> Seq<Seq<char>> {
    let base = seq![
        "sync-subscriptions"@,
        provider_id,
        "--install-id"@,
        install_id,
        "--pack"@,
        pack_path,
        "--env"@,
        env,
        "--tenant"@,
        tenant,
        "--public-base-url"@,
        public_base_url,
    ];
    let with_team = match team {
        Some(t) => base + seq!["--team"@, t],
        None => base,
    };
    if dry_run {
        with_team.push("--dry-run"@)
    } else {
        with_team
    }
}

/// Builds the provisioning command's arguments.
pub fn sync_args(
    provider_id: &str,
    install_id: &str,
    pack_path: &str,
    env: &str,
    tenant: &str,
    public_base_url: &str,
    team: Option<&str>,
    dry_run: bool,
) -> (r: Vec<String>)
    ensures
        views(r@) == sync_args_of(
            provider_id@,
            install_id@,
            pack_path@,
            env@,
            tenant@,
            public_base_url@,
            match team {
                Some(t) => Some(t@),
                None => None,
            },
            dry_run,
        ),
{
    let mut v: Vec<String> = Vec::new();
    v.push(owned("sync-subscriptions"));
    v.push(owned(provider_id));
    v.push(owned("--install-id"));
    v.push(owned(install_id));
    v.push(owned("--pack"));
    v.push(owned(pack_path));
    v.push(owned("--env"));
    v.push(owned(env));
    v.push(owned("--tenant"));
    v.push(owned(tenant));
    v.push(owned("--public-base-url"));
    v.push(owned(public_base_url));
    match team {
        Some(t) => {
            v.push(owned("--team"));
            v.push(owned(t));
        },
        None => {},
    }
    if dry_run {
        v.push(owned("--dry-run"));
    }
    proof {
        let t = match team {
            Some(t) => Some(t@),
            None => None,
        };
        assert(views(v@) =~= sync_args_of(
            provider_id@,
            install_id@,
            pack_path@,
            env@,
            tenant@,
            public_base_url@,
            t,
            dry_run,
        ));
    }
    v
}

/// The text a JSON object holds under `key`, if it is text.
pub open spec fn json_str_at(v: Json, key: Seq<char>) -> Option<Seq<char>> {
    match v {
        Json::Object(m) => match m.lookup(key) {
            Some(Json::Str(s)) => Some(s@),
            _ => None,
        },
        _ => None,
    }
}

/// The public base URL recorded in install metadata, else a placeholder.
pub fn public_base_url(metadata: &Json) -> (r: String)
    ensures
        r@ == match json_str_at(*metadata, "public_base_url"@) {
            Some(u) => u,
            None => "https://example.invalid"@,
        },
{
    match metadata {
        Json::Object(m) => match m.get("public_base_url") {
            Some(Json::Str(u)) => u.clone(),
            _ => owned("https://example.invalid"),
        },
        _ => owned("https://example.invalid"),
    }
}

/// The members of an object; nothing for any other value.
pub open spec fn object_lookup(v: Json, key: Seq<char>) -> Option<Json> {
    match v {
        Json::Object(m) => m.lookup(key),
        _ => None,
    }
}

/// The metadata keys that record subscription failures.
pub open spec fn failure_key(k: Seq<char>) -> bool {
    k == "subscriptions_failure_count"@ || k == "subscriptions_last_error"@ || k
        == "subscriptions_degraded"@ || k == "subscriptions_last_failure"@
}

/// Records a failed sync in install metadata: the failure count, the
/// error, whether the install is degraded (three failures or more) and
/// when it failed. Metadata that is not an object is replaced by one.
pub fn mark_subscription_error(metadata: &mut Json, count: u32, err: &str, failed_at: &str)
    ensures
        *final(metadata) is Object,
        object_lookup(*final(metadata), "subscriptions_failure_count"@) matches Some(Json::Number(n))
            && n@ == decimal(count as nat),
        object_lookup(*final(metadata), "subscriptions_last_error"@) matches Some(Json::Str(e)) && e@
            == err@,
        object_lookup(*final(metadata), "subscriptions_degraded"@) == Some(
            Json::Bool(count >= DEGRADED_AFTER),
        ),
        object_lookup(*final(metadata), "subscriptions_last_failure"@) matches Some(Json::Str(t))
            && t@ == failed_at@,
        forall|k: Seq<char>|
            !failure_key(k) ==> object_lookup(*final(metadata), k) == object_lookup(
                *old(metadata),
                k,
            ),
{
    let mut m = match metadata {
        Json::Object(_) => {
            let mut tmp = Json::Null;
            std::mem::swap(&mut tmp, metadata);
            match tmp {
                Json::Object(m) => m,
                _ => StrMap::new(),
            }
        },
        _ => StrMap::new(),
    };
    proof {
        assert forall|k: Seq<char>| #[trigger] m.lookup(k) == object_lookup(*old(metadata), k) by {}
        reveal_strlit("subscriptions_failure_count");
        reveal_strlit("subscriptions_last_error");
        reveal_strlit("subscriptions_degraded");
        reveal_strlit("subscriptions_last_failure");
        assert("subscriptions_failure_count"@.len() == 27);
        assert("subscriptions_last_error"@.len() == 24);
        assert("subscriptions_degraded"@.len() == 22);
        assert("subscriptions_last_failure"@.len() == 26);
    }
    m.insert(owned("subscriptions_failure_count"), Json::Number(decimal_string(count as usize)));
    m.insert(owned("subscriptions_last_error"), Json::Str(owned(err)));
    m.insert(owned("subscriptions_degraded"), Json::Bool(count >= DEGRADED_AFTER));
    m.insert(owned("subscriptions_last_failure"), Json::Str(owned(failed_at)));
    *metadata = Json::Object(m);
}

/// Clears the failure record from install metadata after a successful
/// sync; other members stay.
pub fn clear_subscription_error(metadata: &mut Json)
    ensures
        forall|k: Seq<char>|
            failure_key(k) ==> object_lookup(*final(metadata), k) is None,
        forall|k: Seq<char>|
            !failure_key(k) ==> object_lookup(*final(metadata), k) == object_lookup(
                *old(metadata),
                k,
            ),
        (*old(metadata) is Object) == (*final(metadata) is Object),
{
    if let Json::Object(_) = metadata {
        let mut tmp = Json::Null;
        std::mem::swap(&mut tmp, metadata);
        if let Json::Object(mut m) = tmp {
            m.remove("subscriptions_failure_count");
            m.remove("subscriptions_last_error");
            m.remove("subscriptions_degraded");
            m.remove("subscriptions_last_failure");
            *metadata = Json::Object(m);
        }
    }
}

/// The subscriptions state recorded after a successful sync.
pub fn synced_state(last_sync: &str, plan: Json) -> (r: Json)
    ensures
        object_lookup(r, "last_sync"@) matches Some(Json::Str(t)) && t@ == last_sync@,
        object_lookup(r, "plan"@) == Some(plan),
{
    let mut m: StrMap<Json> = StrMap::new();
    m.insert(owned("last_sync"), Json::Str(owned(last_sync)));
    m.insert(owned("plan"), plan);
    proof {
        reveal_strlit("last_sync");
        reveal_strlit("plan");
        assert("last_sync"@ != "plan"@) by {
            assert("last_sync"@.len() != "plan"@.len());
        }
    }
    Json::Object(m)
}

} // verus!
