//! The decisions of the provisioning admin HTTP API: which provisioner a
//! request reaches, in what order requests are checked, and what an error
//! is answered. The transport itself lives outside the library.
use vstd::prelude::*;
use crate::admin::{
    global_app_error, tenant_binding_error, validate_global_app, validate_tenant_binding,
    AdminError, DesiredGlobalApp, DesiredTenantBinding,
};
use crate::strmap::{entry_keys, find_entry, keys_distinct, lemma_find_entry_absent, lemma_find_entry_at};
use crate::text::{concat2, owned, push_str, sort_strings, sorted_views, str_eq, views};

verus! {

/// HTTP 200.
pub const STATUS_OK: u16 = 200;

/// HTTP 400.
pub const STATUS_BAD_REQUEST: u16 = 400;

/// HTTP 401.
pub const STATUS_UNAUTHORIZED: u16 = 401;

/// HTTP 404.
pub const STATUS_NOT_FOUND: u16 = 404;

/// HTTP 409.
pub const STATUS_CONFLICT: u16 = 409;

/// HTTP 500.
pub const STATUS_INTERNAL: u16 = 500;

/// HTTP 502.
pub const STATUS_BAD_GATEWAY: u16 = 502;

/// An error answer: the status and the JSON body's `error` and `message`.
#[derive(Debug, PartialEq, Eq)]
pub struct ApiErrorReply {
    pub status: u16,
    pub error: String,
    pub message: String,
}

/// The answer to a consent start: whether a redirect was issued, and where.
#[derive(Debug, PartialEq, Eq)]
pub struct StartResponse {
    pub started: bool,
    pub redirect_url: Option<String>,
}

/// The reply carries this status, code and message.
pub open spec fn reply_is(r: ApiErrorReply, status: u16, error: Seq<char>, message: Seq<char>) -> bool {
    r.status == status && r.error@ == error && r.message@ == message
}

/// The status an admin error is answered with.
pub open spec fn error_status(e: AdminError) -> u16 {
    match e {
        AdminError::Validation(_) => STATUS_BAD_REQUEST,
        AdminError::Unauthorized => STATUS_UNAUTHORIZED,
        AdminError::NotFound => STATUS_NOT_FOUND,
        AdminError::Conflict(_) => STATUS_CONFLICT,
        AdminError::Provider(_) => STATUS_BAD_GATEWAY,
        AdminError::Secrets(_) => STATUS_BAD_GATEWAY,
        AdminError::Internal(_) => STATUS_INTERNAL,
    }
}

/// The machine-readable code of an admin error.
pub open spec fn error_code(e: AdminError) -> Seq<char> {
    match e {
        AdminError::Validation(_) => "validation_error"@,
        AdminError::Unauthorized => "unauthorized"@,
        AdminError::NotFound => "not_found"@,
        AdminError::Conflict(_) => "conflict"@,
        AdminError::Provider(_) => "provider_error"@,
        AdminError::Secrets(_) => "secrets_error"@,
        AdminError::Internal(_) => "internal_error"@,
    }
}

/// The message shown for an admin error; an internal cause is never shown.
pub open spec fn error_message(e: AdminError) -> Seq<char> {
    match e {
        AdminError::Validation(m) => m@,
        AdminError::Unauthorized => "unauthorized"@,
        AdminError::NotFound => "resource not found"@,
        AdminError::Conflict(m) => m@,
        AdminError::Provider(m) => m@,
        AdminError::Secrets(m) => m@,
        AdminError::Internal(_) => "internal error"@,
    }
}

/// The message of a missing provisioner.
pub open spec fn not_found_message(provider: Seq<char>, kind: Seq<char>) -> Seq<char> {
    "no "@ + kind + " registered for provider "@ + provider
}

/// Answers an admin error.
pub fn map_error(err: AdminError) -> (r: ApiErrorReply)
    ensures
        reply_is(r, error_status(err), error_code(err), error_message(err)),
{
    match err {
        AdminError::Validation(msg) => ApiErrorReply {
            status: STATUS_BAD_REQUEST,
            error: owned("validation_error"),
            message: msg,
        },
        AdminError::Unauthorized => ApiErrorReply {
            status: STATUS_UNAUTHORIZED,
            error: owned("unauthorized"),
            message: owned("unauthorized"),
        },
        AdminError::NotFound => ApiErrorReply {
            status: STATUS_NOT_FOUND,
            error: owned("not_found"),
            message: owned("resource not found"),
        },
        AdminError::Conflict(msg) => ApiErrorReply {
            status: STATUS_CONFLICT,
            error: owned("conflict"),
            message: msg,
        },
        AdminError::Provider(msg) => ApiErrorReply {
            status: STATUS_BAD_GATEWAY,
            error: owned("provider_error"),
            message: msg,
        },
        AdminError::Secrets(msg) => ApiErrorReply {
            status: STATUS_BAD_GATEWAY,
            error: owned("secrets_error"),
            message: msg,
        },
        AdminError::Internal(_) => ApiErrorReply {
            status: STATUS_INTERNAL,
            error: owned("internal_error"),
            message: owned("internal error"),
        },
    }
}

/// The answer for a provider without a provisioner of the given kind.
pub fn not_found(provider: &str, kind: &str) -> (r: ApiErrorReply)
    ensures
        reply_is(r, STATUS_NOT_FOUND, "not_found"@, not_found_message(provider@, kind@)),
{
    let mut message = concat2("no ", kind);
    push_str(&mut message, " registered for provider ");
    push_str(&mut message, provider);
    ApiErrorReply { status: STATUS_NOT_FOUND, error: owned("not_found"), message }
}

/// The answer for a tenant callback without a `tenant_key`.
pub fn missing_tenant_key() -> (r: ApiErrorReply)
    ensures
        reply_is(r, STATUS_BAD_REQUEST, "validation_error"@, "missing tenant_key"@),
{
    ApiErrorReply {
        status: STATUS_BAD_REQUEST,
        error: owned("validation_error"),
        message: owned("missing tenant_key"),
    }
}

/// The answer to a consent start with the redirect the provisioner gave.
pub fn start_response(redirect: Option<String>) -> (r: StartResponse)
    ensures
        r.started == redirect is Some,
        r.redirect_url == redirect,
{
    let started = redirect.is_some();
    StartResponse { started, redirect_url: redirect }
}

/// The views of key/value pairs.
pub open spec fn pair_views(s: Seq<(String, String)>) -> Seq<(Seq<char>, Seq<char>)> {
    s.map_values(|p: (String, String)| (p.0@, p.1@))
}

/// The `(name, value)` pairs that `application/x-www-form-urlencoded`
/// parsing yields for a query string, percent-decoded, in order.
pub uninterp spec fn form_urlencoded_pairs(query: Seq<char>) -> Seq<(Seq<char>, Seq<char>)>;

/// Parses a query string with `url::form_urlencoded::parse`, owning the
/// pairs. The pairs are named by `form_urlencoded_pairs`; an empty query
/// yields none, as the parser stops at once on empty input.
#[verifier::external_body]
fn form_pairs(query: &str) -> (r: Vec<(String, String)>)
    ensures
        pair_views(r@) == form_urlencoded_pairs(query@),
        query@.len() == 0 ==> r@.len() == 0,
{
    url::form_urlencoded::parse(query.as_bytes()).into_owned().collect()
}

/// The pairs of a raw query; no query gives no pairs.
pub fn parse_query(raw: Option<&str>) -> (r: Vec<(String, String)>)
    ensures
        pair_views(r@) == match raw {
            Some(q) => form_urlencoded_pairs(q@),
            None => Seq::empty(),
        },
{
    match raw {
        Some(q) => form_pairs(q),
        None => {
            let v: Vec<(String, String)> = Vec::new();
            proof {
                assert(pair_views(v@) =~= Seq::empty());
            }
            v
        },
    }
}

/// The value of the first pair named `name`.
pub open spec fn first_value(pairs: Seq<(Seq<char>, Seq<char>)>, name: Seq<char>) -> Option<
    Seq<char>,
>
    decreases pairs.len(),
{
    if pairs.len() == 0 {
        None
    } else if pairs[0].0 == name {
        Some(pairs[0].1)
    } else {
        first_value(pairs.drop_first(), name)
    }
}

/// The tenant a callback is for: the first `tenant_key` pair, else the
/// missing-key answer.
pub fn callback_tenant_key(pairs: &Vec<(String, String)>) -> (r: Result<String, ApiErrorReply>)
    ensures
        match first_value(pair_views(pairs@), "tenant_key"@) {
            Some(v) => r matches Ok(k) && k@ == v,
            None => r matches Err(e) && reply_is(
                e,
                STATUS_BAD_REQUEST,
                "validation_error"@,
                "missing tenant_key"@,
            ),
        },
{
    let ghost ps = pair_views(pairs@);
    proof {
        assert(ps.skip(0) =~= ps);
    }
    for i in 0..pairs.len()
        invariant
            ps == pair_views(pairs@),
            first_value(ps, "tenant_key"@) == first_value(ps.skip(i as int), "tenant_key"@),
    {
        proof {
            assert(ps.skip(i as int).drop_first() =~= ps.skip(i + 1));
            assert(ps.skip(i as int)[0] == ps[i as int]);
        }
        if str_eq(pairs[i].0.as_str(), "tenant_key") {
            return Ok(pairs[i].1.clone());
        }
    }
    proof {
        assert(ps.skip(pairs.len() as int).len() == 0);
    }
    Err(missing_tenant_key())
}

fn lookup<'a, V>(entries: &'a Vec<(String, V)>, name: &str) -> (r: Option<&'a V>)
    ensures
        match find_entry(entries@, name@) {
            Some(v) => r matches Some(x) && *x == v,
            None => r is None,
        },
{
    proof {
        assert(entries@.skip(0) =~= entries@);
    }
    for i in 0..entries.len()
        invariant
            find_entry(entries@, name@) == find_entry(entries@.skip(i as int), name@),
    {
        proof {
            assert(entries@.skip(i as int).drop_first() =~= entries@.skip(i + 1));
            assert(entries@.skip(i as int)[0] == entries@[i as int]);
        }
        if str_eq(entries[i].0.as_str(), name) {
            return Some(&entries[i].1);
        }
    }
    proof {
        assert(entries@.skip(entries.len() as int).len() == 0);
    }
    None
}

/// Global and tenant provisioners by provider name.
pub struct AdminRegistry<G, T> {
    pub globals: Vec<(String, G)>,
    pub tenants: Vec<(String, T)>,
}

impl<G, T> AdminRegistry<G, T> {
    /// A registry of the given provisioners.
    pub fn new(globals: Vec<(String, G)>, tenants: Vec<(String, T)>) -> (r: Self)
        ensures
            r.globals@ == globals@,
            r.tenants@ == tenants@,
    {
        AdminRegistry { globals, tenants }
    }

    /// The global provisioner of a provider.
    pub fn global(&self, provider: &str) -> (r: Option<&G>)
        ensures
            match find_entry(self.globals@, provider@) {
                Some(v) => r matches Some(x) && *x == v,
                None => r is None,
            },
    {
        lookup(&self.globals, provider)
    }

    /// The tenant provisioner of a provider.
    pub fn tenant(&self, provider: &str) -> (r: Option<&T>)
        ensures
            match find_entry(self.tenants@, provider@) {
                Some(v) => r matches Some(x) && *x == v,
                None => r is None,
            },
    {
        lookup(&self.tenants, provider)
    }

    /// The names of the providers with a global provisioner, ascending.
    pub fn provider_names(&self) -> (r: Vec<String>)
        ensures
            sorted_views(views(r@)),
            views(r@).to_multiset() == entry_keys(self.globals@).to_multiset(),
    {
        let mut names: Vec<String> = Vec::new();
        for i in 0..self.globals.len()
            invariant
                views(names@) == entry_keys(self.globals@).take(i as int),
        {
            let ghost before = names@;
            let name = self.globals[i].0.clone();
            names.push(name);
            proof {
                assert(names@ == before.push(name));
                assert(views(names@) =~= views(before).push(self.globals@[i as int].0@));
                assert(views(names@) =~= entry_keys(self.globals@).take(i + 1));
            }
        }
        proof {
            assert(entry_keys(self.globals@).take(self.globals.len() as int) =~= entry_keys(
                self.globals@,
            ));
        }
        sort_strings(names)
    }

    /// The global provisioner of a provider, or the not-found answer.
    pub fn resolve_global(&self, provider: &str) -> (r: Result<&G, ApiErrorReply>)
        ensures
            match find_entry(self.globals@, provider@) {
                Some(v) => r matches Ok(x) && *x == v,
                None => r matches Err(e) && reply_is(
                    e,
                    STATUS_NOT_FOUND,
                    "not_found"@,
                    not_found_message(provider@, "global provisioner"@),
                ),
            },
    {
        match self.global(provider) {
            Some(g) => Ok(g),
            None => Err(not_found(provider, "global provisioner")),
        }
    }

    /// The tenant provisioner of a provider, or the not-found answer.
    pub fn resolve_tenant(&self, provider: &str) -> (r: Result<&T, ApiErrorReply>)
        ensures
            match find_entry(self.tenants@, provider@) {
                Some(v) => r matches Ok(x) && *x == v,
                None => r matches Err(e) && reply_is(
                    e,
                    STATUS_NOT_FOUND,
                    "not_found"@,
                    not_found_message(provider@, "tenant provisioner"@),
                ),
            },
    {
        match self.tenant(provider) {
            Some(t) => Ok(t),
            None => Err(not_found(provider, "tenant provisioner")),
        }
    }

    /// Admits a global ensure request: the payload is validated before the
    /// provider is looked up.
    pub fn admit_global_ensure(&self, provider: &str, app: &DesiredGlobalApp) -> (r: Result<
        &G,
        ApiErrorReply,
    >)
        ensures
            match global_app_error(*app) {
                Some(m) => r matches Err(e) && reply_is(e, STATUS_BAD_REQUEST, "validation_error"@, m),
                None => match find_entry(self.globals@, provider@) {
                    Some(v) => r matches Ok(x) && *x == v,
                    None => r matches Err(e) && reply_is(
                        e,
                        STATUS_NOT_FOUND,
                        "not_found"@,
                        not_found_message(provider@, "global provisioner"@),
                    ),
                },
            },
    {
        match validate_global_app(app) {
            Err(e) => Err(map_error(e)),
            Ok(()) => self.resolve_global(provider),
        }
    }

    /// Admits a tenant plan or ensure request: the binding is validated
    /// before the provider is looked up.
    pub fn admit_tenant_binding(&self, provider: &str, binding: &DesiredTenantBinding) -> (r:
        Result<&T, ApiErrorReply>)
        ensures
            match tenant_binding_error(*binding) {
                Some(m) => r matches Err(e) && reply_is(e, STATUS_BAD_REQUEST, "validation_error"@, m),
                None => match find_entry(self.tenants@, provider@) {
                    Some(v) => r matches Ok(x) && *x == v,
                    None => r matches Err(e) && reply_is(
                        e,
                        STATUS_NOT_FOUND,
                        "not_found"@,
                        not_found_message(provider@, "tenant provisioner"@),
                    ),
                },
            },
    {
        match validate_tenant_binding(binding) {
            Err(e) => Err(map_error(e)),
            Ok(()) => self.resolve_tenant(provider),
        }
    }
}

/// An empty registry.
pub fn build_registry<G, T>() -> (r: AdminRegistry<G, T>)
    ensures
        r.globals@.len() == 0,
        r.tenants@.len() == 0,
{
    AdminRegistry { globals: Vec::new(), tenants: Vec::new() }
}

/// A provisioner registered under a provider name is the one that name
/// resolves to, when no two global entries share a name.
pub proof fn lemma_registered_global_resolves<G, T>(reg: AdminRegistry<G, T>, i: int)
    requires
        keys_distinct(reg.globals@),
        0 <= i < reg.globals@.len(),
    ensures
        find_entry(reg.globals@, reg.globals@[i].0@) == Some(reg.globals@[i].1),
{
    lemma_find_entry_at(reg.globals@, i);
}

/// A provider name without a global entry resolves to nothing.
pub proof fn lemma_unregistered_global_absent<G, T>(reg: AdminRegistry<G, T>, name: Seq<char>)
    requires
        forall|i: int| 0 <= i < reg.globals@.len() ==> reg.globals@[i].0@ != name,
    ensures
        find_entry(reg.globals@, name) is None,
{
    lemma_find_entry_absent(reg.globals@, name);
}

} // verus!
