//! Provisioning administration: the desired-state models, their
//! validation, the report builder, secret key names and the registry of
//! provisioners by provider name.
use vstd::prelude::*;
use crate::strmap::StrMap;
use crate::text::{concat2, concat3, is_blank, owned, push_str, to_chars, trim, utf8_len, utf8_len_exceeds, views};

verus! {

/// Largest UTF-8 length, in bytes, accepted for an `extra_params` value.
pub const MAX_EXTRA_PARAM_VALUE_LEN: usize = 256;

/// Desired global (per provider) application state.
#[derive(Clone, Debug, PartialEq, Eq)]
pub struct DesiredGlobalApp {
    pub display_name: String,
    /// Redirect URIs, each in its serialized URL form.
    pub redirect_uris: Vec<String>,
    pub allowed_scopes: Vec<String>,
    pub capabilities: Vec<String>,
    /// Extra parameters by name.
    pub extra_params: Option<StrMap<String>>,
}

/// How a tenant binding obtains its credentials.
#[derive(Clone, Debug, PartialEq, Eq)]
pub enum CredentialPolicy {
    ClientSecret { rotate_days: u32 },
    Certificate { subject: String, validity_days: u32 },
    /// No credentials are managed.
    Unmanaged,
}

/// A provider resource that a tenant binding installs into.
#[derive(Clone, Debug, PartialEq, Eq)]
pub struct ResourceSpec {
    pub kind: String,
    pub id: String,
    pub display_name: Option<String>,
}

/// Desired state of one tenant's binding to a provider.
#[derive(Clone, Debug, PartialEq, Eq)]
pub struct DesiredTenantBinding {
    pub tenant_key: String,
    pub provider_tenant_id: String,
    pub requested_scopes: Vec<String>,
    pub resources: Vec<ResourceSpec>,
    pub credential_policy: CredentialPolicy,
    /// Extra parameters by name.
    pub extra_params: Option<StrMap<String>>,
}

/// What a provider's provisioning supports.
#[derive(Clone, Debug, PartialEq, Eq)]
pub struct ProvisionCaps {
    pub model: String,
    pub requires_global_bootstrap: bool,
    pub supports_rsc: bool,
    pub supports_webhooks: bool,
    pub supports_per_resource_install: bool,
}

/// The outcome of a plan or ensure run.
#[derive(Clone, Debug, PartialEq, Eq)]
pub struct ProvisionReport {
    pub provider: String,
    pub tenant: Option<String>,
    pub created: Vec<String>,
    pub updated: Vec<String>,
    pub skipped: Vec<String>,
    pub warnings: Vec<String>,
    pub secret_keys_written: Vec<String>,
    pub mode: Option<String>,
}

/// Errors of the administration API.
#[derive(Debug, PartialEq, Eq)]
pub enum AdminError {
    Validation(String),
    Provider(String),
    Secrets(String),
    Unauthorized,
    NotFound,
    Conflict(String),
    /// An internal failure; the text is the underlying cause, never shown to clients.
    Internal(String),
}

/// Whether a report describes a dry run or an applied change.
#[derive(Clone, Copy, Debug, PartialEq, Eq)]
pub enum ReportMode {
    Plan,
    Ensure,
}

/// The name under which a report records its mode.
pub open spec fn mode_name(m: ReportMode) -> Seq<char> {
    match m {
        ReportMode::Plan => "plan"@,
        ReportMode::Ensure => "ensure"@,
    }
}

impl ReportMode {
    /// The mode's name: `plan` or `ensure`.
    pub fn as_str(self) -> (r: &'static str)
        ensures
            r@ == mode_name(self),
    {
        match self {
            ReportMode::Plan => "plan",
            ReportMode::Ensure => "ensure",
        }
    }
}

/// Builds a [`ProvisionReport`] entry by entry.
pub struct ProvisionReportBuilder {
    pub report: ProvisionReport,
}

/// The empty report of a provider, tenant and mode.
pub open spec fn report_started(
    r: ProvisionReport,
    provider: Seq<char>,
    tenant: Option<Seq<char>>,
    mode: ReportMode,
) -> bool {
    &&& r.provider@ == provider
    &&& (match (r.tenant, tenant) {
        (Some(a), Some(b)) => a@ == b,
        (None, None) => true,
        _ => false,
    })
    &&& r.created@.len() == 0
    &&& r.updated@.len() == 0
    &&& r.skipped@.len() == 0
    &&& r.warnings@.len() == 0
    &&& r.secret_keys_written@.len() == 0
    &&& r.mode is Some && r.mode->0@ == mode_name(mode)
}

impl ProvisionReportBuilder {
    /// Starts an empty report.
    pub fn new(provider: &str, tenant: Option<&str>, mode: ReportMode) -> (b: Self)
        ensures
            report_started(
                b.report,
                provider@,
                match tenant {
                    Some(t) => Some(t@),
                    None => None,
                },
                mode,
            ),
    {
        let t = match tenant {
            Some(t) => Some(owned(t)),
            None => None,
        };
        ProvisionReportBuilder {
            report: ProvisionReport {
                provider: owned(provider),
                tenant: t,
                created: Vec::new(),
                updated: Vec::new(),
                skipped: Vec::new(),
                warnings: Vec::new(),
                secret_keys_written: Vec::new(),
                mode: Some(owned(mode.as_str())),
            },
        }
    }

    /// Records a created item.
    pub fn created(&mut self, value: &str)
        ensures
            views(final(self).report.created@) == views(old(self).report.created@).push(value@),
            final(self).report.updated == old(self).report.updated,
            final(self).report.skipped == old(self).report.skipped,
            final(self).report.warnings == old(self).report.warnings,
            final(self).report.secret_keys_written == old(self).report.secret_keys_written,
            final(self).report.provider == old(self).report.provider,
            final(self).report.tenant == old(self).report.tenant,
            final(self).report.mode == old(self).report.mode,
    {
        self.report.created.push(owned(value));
        proof {
            assert(views(self.report.created@) =~= views(old(self).report.created@).push(value@));
        }
    }

    /// Records an updated item.
    pub fn updated(&mut self, value: &str)
        ensures
            views(final(self).report.updated@) == views(old(self).report.updated@).push(value@),
            final(self).report.created == old(self).report.created,
            final(self).report.skipped == old(self).report.skipped,
            final(self).report.warnings == old(self).report.warnings,
            final(self).report.secret_keys_written == old(self).report.secret_keys_written,
            final(self).report.provider == old(self).report.provider,
            final(self).report.tenant == old(self).report.tenant,
            final(self).report.mode == old(self).report.mode,
    {
        self.report.updated.push(owned(value));
        proof {
            assert(views(self.report.updated@) =~= views(old(self).report.updated@).push(value@));
        }
    }

    /// Records a skipped item.
    pub fn skipped(&mut self, value: &str)
        ensures
            views(final(self).report.skipped@) == views(old(self).report.skipped@).push(value@),
            final(self).report.created == old(self).report.created,
            final(self).report.updated == old(self).report.updated,
            final(self).report.warnings == old(self).report.warnings,
            final(self).report.secret_keys_written == old(self).report.secret_keys_written,
            final(self).report.provider == old(self).report.provider,
            final(self).report.tenant == old(self).report.tenant,
            final(self).report.mode == old(self).report.mode,
    {
        self.report.skipped.push(owned(value));
        proof {
            assert(views(self.report.skipped@) =~= views(old(self).report.skipped@).push(value@));
        }
    }

    /// Records a warning.
    pub fn warn(&mut self, value: &str)
        ensures
            views(final(self).report.warnings@) == views(old(self).report.warnings@).push(value@),
            final(self).report.created == old(self).report.created,
            final(self).report.updated == old(self).report.updated,
            final(self).report.skipped == old(self).report.skipped,
            final(self).report.secret_keys_written == old(self).report.secret_keys_written,
            final(self).report.provider == old(self).report.provider,
            final(self).report.tenant == old(self).report.tenant,
            final(self).report.mode == old(self).report.mode,
    {
        self.report.warnings.push(owned(value));
        proof {
            assert(views(self.report.warnings@) =~= views(old(self).report.warnings@).push(value@));
        }
    }

    /// Records a secret key that was written.
    pub fn secret_written(&mut self, key: &str)
        ensures
            views(final(self).report.secret_keys_written@) == views(
                old(self).report.secret_keys_written@,
            ).push(key@),
            final(self).report.created == old(self).report.created,
            final(self).report.updated == old(self).report.updated,
            final(self).report.skipped == old(self).report.skipped,
            final(self).report.warnings == old(self).report.warnings,
            final(self).report.provider == old(self).report.provider,
            final(self).report.tenant == old(self).report.tenant,
            final(self).report.mode == old(self).report.mode,
    {
        self.report.secret_keys_written.push(owned(key));
        proof {
            assert(views(self.report.secret_keys_written@) =~= views(
                old(self).report.secret_keys_written@,
            ).push(key@));
        }
    }

    /// The report built so far.
    pub fn finish(self) -> (r: ProvisionReport)
        ensures
            r == self.report,
    {
        self.report
    }
}

/// A character that validation refuses: a C0 control other than LF and CR.
pub open spec fn disallowed_control(c: char) -> bool {
    (c as u32) < 0x20 && c != '\n' && c != '\r'
}

/// Whether `ch` is a refused control character.
pub fn is_disallowed_control(ch: char) -> (r: bool)
    ensures
        r == disallowed_control(ch),
{
    (ch as u32) < 0x20 && ch != '\n' && ch != '\r'
}

/// The text holds a refused control character.
pub open spec fn has_control(s: Seq<char>) -> bool {
    exists|i: int| 0 <= i < s.len() && disallowed_control(s[i])
}

/// The message for an empty field.
pub open spec fn empty_message(field: Seq<char>) -> Seq<char> {
    field + " must not be empty"@
}

/// The message for a field with control characters.
pub open spec fn control_message(field: Seq<char>) -> Seq<char> {
    field + " contains control characters"@
}

/// The message for an over-long extra parameter value.
pub open spec fn too_long_message(key: Seq<char>) -> Seq<char> {
    "extra_params value for "@ + key + " exceeds 256 chars"@
}

/// The message for an extra parameter value with control characters.
pub open spec fn param_control_message(key: Seq<char>) -> Seq<char> {
    "extra_params value for "@ + key + " contains control characters"@
}

/// The value is longer than allowed, counted in UTF-8 bytes.
pub open spec fn too_long(v: Seq<char>) -> bool {
    utf8_len(v) > 256
}

/// The message of the first refused extra parameter, in entry order.
pub open spec fn extra_params_error(params: Seq<(String, String)>) -> Option<Seq<char>>
    decreases params.len(),
{
    if params.len() == 0 {
        None
    } else if too_long(params[0].1@) {
        Some(too_long_message(params[0].0@))
    } else if has_control(params[0].1@) {
        Some(param_control_message(params[0].0@))
    } else {
        extra_params_error(params.drop_first())
    }
}

/// The message of an empty or control-bearing field, if any.
pub open spec fn field_error(field: Seq<char>, value: Seq<char>) -> Option<Seq<char>> {
    if trim(value).len() == 0 {
        Some(empty_message(field))
    } else if has_control(value) {
        Some(control_message(field))
    } else {
        None
    }
}

/// The message of the first problem of an optional extra-parameter map.
pub open spec fn opt_params_error(params: Option<StrMap<String>>) -> Option<Seq<char>> {
    match params {
        Some(p) => extra_params_error(p.items()),
        None => None,
    }
}

/// The message of the first problem of a global application.
pub open spec fn global_app_error(app: DesiredGlobalApp) -> Option<Seq<char>> {
    if field_error("display_name"@, app.display_name@) is Some {
        field_error("display_name"@, app.display_name@)
    } else {
        opt_params_error(app.extra_params)
    }
}

/// The message of the first problem of a resource.
pub open spec fn resource_error(r: ResourceSpec) -> Option<Seq<char>> {
    if field_error("resource.id"@, r.id@) is Some {
        field_error("resource.id"@, r.id@)
    } else {
        match r.display_name {
            Some(n) => if has_control(n@) {
                Some(control_message("resource.display_name"@))
            } else {
                None
            },
            None => None,
        }
    }
}

/// The message of the first problem among resources, in order.
pub open spec fn resources_error(rs: Seq<ResourceSpec>) -> Option<Seq<char>>
    decreases rs.len(),
{
    if rs.len() == 0 {
        None
    } else if resource_error(rs[0]) is Some {
        resource_error(rs[0])
    } else {
        resources_error(rs.drop_first())
    }
}

/// The message of the first problem of a tenant binding.
pub open spec fn tenant_binding_error(b: DesiredTenantBinding) -> Option<Seq<char>> {
    if field_error("tenant_key"@, b.tenant_key@) is Some {
        field_error("tenant_key"@, b.tenant_key@)
    } else if field_error("provider_tenant_id"@, b.provider_tenant_id@) is Some {
        field_error("provider_tenant_id"@, b.provider_tenant_id@)
    } else if opt_params_error(b.extra_params) is Some {
        opt_params_error(b.extra_params)
    } else {
        resources_error(b.resources@)
    }
}

/// Among resources, the first one with a problem gives the message.
proof fn lemma_first_bad_resource(rs: Seq<ResourceSpec>, k: int)
    requires
        0 <= k < rs.len(),
        resource_error(rs[k]) is Some,
        forall|j: int| 0 <= j < k ==> resource_error(#[trigger] rs[j]) is None,
    ensures
        resources_error(rs) == resource_error(rs[k]),
    decreases k,
{
    if k > 0 {
        assert(resource_error(rs[0]) is None);
        let t = rs.drop_first();
        assert forall|j: int| 0 <= j < k - 1 implies resource_error(#[trigger] t[j]) is None by {
            assert(t[j] == rs[j + 1]);
        }
        lemma_first_bad_resource(t, k - 1);
    }
}

/// Resources without problems give no message.
proof fn lemma_no_bad_resource(rs: Seq<ResourceSpec>)
    requires
        forall|j: int| 0 <= j < rs.len() ==> resource_error(#[trigger] rs[j]) is None,
    ensures
        resources_error(rs) is None,
    decreases rs.len(),
{
    if rs.len() > 0 {
        assert(resource_error(rs[0]) is None);
        let t = rs.drop_first();
        assert forall|j: int| 0 <= j < t.len() implies resource_error(#[trigger] t[j]) is None by {
            assert(t[j] == rs[j + 1]);
        }
        lemma_no_bad_resource(t);
    }
}

/// A tenant binding whose own fields and extra parameters are valid is
/// refused with the problem of its first resource that has one, and
/// accepted when none has.
pub proof fn lemma_binding_checks_resources(b: DesiredTenantBinding, k: int)
    requires
        field_error("tenant_key"@, b.tenant_key@) is None,
        field_error("provider_tenant_id"@, b.provider_tenant_id@) is None,
        opt_params_error(b.extra_params) is None,
    ensures
        0 <= k < b.resources@.len() && resource_error(b.resources@[k]) is Some && (forall|j: int|
            0 <= j < k ==> resource_error(#[trigger] b.resources@[j]) is None)
            ==> tenant_binding_error(b) == resource_error(b.resources@[k]),
        (forall|j: int| 0 <= j < b.resources@.len() ==> resource_error(#[trigger] b.resources@[j]) is None)
            ==> tenant_binding_error(b) is None,
{
    if 0 <= k < b.resources@.len() && resource_error(b.resources@[k]) is Some && (forall|j: int|
        0 <= j < k ==> resource_error(#[trigger] b.resources@[j]) is None) {
        lemma_first_bad_resource(b.resources@, k);
    }
    if forall|j: int| 0 <= j < b.resources@.len() ==> resource_error(#[trigger] b.resources@[j]) is None {
        lemma_no_bad_resource(b.resources@);
    }
}

/// A validation outcome matches the expected first problem.
pub open spec fn validation_matches(r: Result<(), AdminError>, expected: Option<Seq<char>>) -> bool {
    match expected {
        None => r is Ok,
        Some(m) => r matches Err(AdminError::Validation(msg)) && msg@ == m,
    }
}

/// Whether the text holds a refused control character.
pub fn contains_control(s: &str) -> (r: bool)
    ensures
        r == has_control(s@),
{
    let cs = to_chars(s);
    for i in 0..cs.len()
        invariant
            cs@ == s@,
            forall|j: int| 0 <= j < i ==> !disallowed_control(cs@[j]),
    {
        if is_disallowed_control(cs[i]) {
            return true;
        }
    }
    false
}

/// Refuses a value that is empty or only white space.
pub fn ensure_non_empty(field: &str, value: &str) -> (r: Result<(), AdminError>)
    ensures
        validation_matches(
            r,
            if trim(value@).len() == 0 {
                Some(empty_message(field@))
            } else {
                None
            },
        ),
{
    if is_blank(value) {
        return Err(AdminError::Validation(concat2(field, " must not be empty")));
    }
    Ok(())
}

/// Refuses a value with control characters other than LF and CR.
pub fn ensure_no_control_chars(field: &str, value: &str) -> (r: Result<(), AdminError>)
    ensures
        validation_matches(
            r,
            if has_control(value@) {
                Some(control_message(field@))
            } else {
                None
            },
        ),
{
    if contains_control(value) {
        return Err(AdminError::Validation(concat2(field, " contains control characters")));
    }
    Ok(())
}

/// Checks extra parameters in order: each value at most 256 UTF-8 bytes and
/// free of control characters.
pub fn validate_extra_params(map: &StrMap<String>) -> (r: Result<(), AdminError>)
    ensures
        validation_matches(r, extra_params_error(map.items())),
{
    let params = map.entries();
    proof {
        assert(params@.skip(0) =~= params@);
    }
    for i in 0..params.len()
        invariant
            params@ == map.items(),
            extra_params_error(params@) == extra_params_error(params@.skip(i as int)),
    {
        proof {
            assert(params@.skip(i as int).drop_first() =~= params@.skip(i + 1));
            assert(params@.skip(i as int)[0] == params@[i as int]);
        }
        let key = &params[i].0;
        let value = &params[i].1;
        if utf8_len_exceeds(value.as_str(), MAX_EXTRA_PARAM_VALUE_LEN) {
            return Err(
                AdminError::Validation(
                    concat3("extra_params value for ", key.as_str(), " exceeds 256 chars"),
                ),
            );
        }
        if contains_control(value.as_str()) {
            return Err(
                AdminError::Validation(
                    concat3("extra_params value for ", key.as_str(), " contains control characters"),
                ),
            );
        }
    }
    proof {
        assert(params@.skip(params@.len() as int).len() == 0);
    }
    Ok(())
}

fn validate_field(field: &str, value: &str) -> (r: Result<(), AdminError>)
    ensures
        validation_matches(r, field_error(field@, value@)),
{
    ensure_non_empty(field, value)?;
    ensure_no_control_chars(field, value)
}

fn validate_opt_params(params: &Option<StrMap<String>>) -> (r: Result<(), AdminError>)
    ensures
        validation_matches(r, opt_params_error(*params)),
{
    match params {
        Some(p) => validate_extra_params(p),
        None => Ok(()),
    }
}

/// Validates a desired global application.
pub fn validate_global_app(app: &DesiredGlobalApp) -> (r: Result<(), AdminError>)
    ensures
        validation_matches(r, global_app_error(*app)),
{
    validate_field("display_name", app.display_name.as_str())?;
    validate_opt_params(&app.extra_params)
}

/// Validates one resource of a tenant binding.
pub fn validate_resource(resource: &ResourceSpec) -> (r: Result<(), AdminError>)
    ensures
        validation_matches(r, resource_error(*resource)),
{
    validate_field("resource.id", resource.id.as_str())?;
    if let Some(name) = &resource.display_name {
        ensure_no_control_chars("resource.display_name", name.as_str())?;
    }
    Ok(())
}

/// Validates a desired tenant binding: keys, extra parameters, then resources.
pub fn validate_tenant_binding(binding: &DesiredTenantBinding) -> (r: Result<(), AdminError>)
    ensures
        validation_matches(r, tenant_binding_error(*binding)),
{
    validate_field("tenant_key", binding.tenant_key.as_str())?;
    validate_field("provider_tenant_id", binding.provider_tenant_id.as_str())?;
    validate_opt_params(&binding.extra_params)?;
    let rs = &binding.resources;
    proof {
        assert(rs@.skip(0) =~= rs@);
    }
    for i in 0..rs.len()
        invariant
            rs@ == binding.resources@,
            tenant_binding_error(*binding) == resources_error(rs@.skip(i as int)),
    {
        proof {
            assert(rs@.skip(i as int).drop_first() =~= rs@.skip(i + 1));
            assert(rs@.skip(i as int)[0] == rs@[i as int]);
        }
        let res = validate_resource(&rs[i]);
        if res.is_err() {
            return res;
        }
    }
    proof {
        assert(rs@.skip(rs@.len() as int).len() == 0);
    }
    Ok(())
}

/// The key of a global secret: `messaging/global/{provider}/{name}`.
pub open spec fn global_key_spec(provider: Seq<char>, name: Seq<char>) -> Seq<char> {
    "messaging/global/"@ + provider + "/"@ + name
}

/// The key of a tenant secret: `messaging/tenant/{tenant_key}/{provider}/{name}`.
pub open spec fn tenant_key_spec(tenant: Seq<char>, provider: Seq<char>, name: Seq<char>) -> Seq<
    char,
> {
    "messaging/tenant/"@ + tenant + "/"@ + provider + "/"@ + name
}

/// Returns a fully qualified global secret key name for a provider,
/// e.g. `messaging/global/teams/client_id`.
pub fn global_key(provider: &str, name: &str) -> (r: String)
    ensures
        r@ == global_key_spec(provider@, name@),
{
    let mut out = owned("messaging/global/");
    push_str(&mut out, provider);
    push_str(&mut out, "/");
    push_str(&mut out, name);
    out
}

/// Returns a fully qualified tenant secret key, e.g.
/// `messaging/tenant/{tenant_key}/teams/app_token`. `tenant_key` must equal
/// the tenant id of the tenant context used elsewhere.
pub fn tenant_key(tenant: &str, provider: &str, name: &str) -> (r: String)
    ensures
        r@ == tenant_key_spec(tenant@, provider@, name@),
{
    let mut out = owned("messaging/tenant/");
    push_str(&mut out, tenant);
    push_str(&mut out, "/");
    push_str(&mut out, provider);
    push_str(&mut out, "/");
    push_str(&mut out, name);
    out
}


/// The text an error displays: a prefix naming its kind, then its detail.
pub open spec fn admin_error_text(e: AdminError) -> Seq<char> {
    match e {
        AdminError::Validation(m) => "validation error: "@ + m@,
        AdminError::Provider(m) => "provider error: "@ + m@,
        AdminError::Secrets(m) => "secrets error: "@ + m@,
        AdminError::Unauthorized => "unauthorized"@,
        AdminError::NotFound => "not found"@,
        AdminError::Conflict(m) => "conflict: "@ + m@,
        AdminError::Internal(_) => "internal error"@,
    }
}

impl AdminError {
    /// The error as text; an internal error hides its cause.
    pub fn to_string(&self) -> (r: String)
        ensures
            r@ == admin_error_text(*self),
    {
        match self {
            AdminError::Validation(m) => concat2("validation error: ", m.as_str()),
            AdminError::Provider(m) => concat2("provider error: ", m.as_str()),
            AdminError::Secrets(m) => concat2("secrets error: ", m.as_str()),
            AdminError::Unauthorized => owned("unauthorized"),
            AdminError::NotFound => owned("not found"),
            AdminError::Conflict(m) => concat2("conflict: ", m.as_str()),
            AdminError::Internal(_) => owned("internal error"),
        }
    }
}

} // verus!
