//! The messaging pack validator: which packs it applies to and the
//! diagnostics it reports about provider declarations, setup and
//! subscriptions flows and secret requirements.
use vstd::prelude::*;
use crate::text::{
    concat2, contains_seq, decimal, decimal_string, has_prefix, lower, owned, push_str,
    str_contains, str_eq, str_starts_with, to_lower, trim, str_trim,
};

verus! {

/// The provider extension's identifier.
pub const PROVIDER_EXTENSION_ID: &'static str = "greentic.provider-extension.v1";

/// A provider declared by a pack.
#[derive(Debug, PartialEq, Eq)]
pub struct ProviderDecl {
    pub provider_type: String,
    pub ops: Vec<String>,
    pub config_schema_ref: String,
}

/// A flow of a pack: its id, the entrypoints the manifest lists for it and
/// the entrypoint names of its graph.
#[derive(Debug, PartialEq, Eq)]
pub struct ValidatorFlow {
    pub id: String,
    pub entrypoints: Vec<String>,
    pub graph_entrypoints: Vec<String>,
}

/// What the validator reads of a pack manifest.
#[derive(Debug, PartialEq, Eq)]
pub struct ValidatorManifest {
    pub pack_id: String,
    pub flows: Vec<ValidatorFlow>,
    /// The inline provider extension's providers, when the extension is there.
    pub providers: Option<Vec<ProviderDecl>>,
    pub has_secret_requirements: bool,
}

/// A finding of the validator.
#[derive(Debug, PartialEq, Eq)]
pub struct Diagnostic {
    pub severity: String,
    pub code: String,
    pub message: String,
    pub path: Option<String>,
    pub hint: Option<String>,
}

/// A finding as plain values: severity, code, message, path, hint.
pub type DiagView = (Seq<char>, Seq<char>, Seq<char>, Option<Seq<char>>, Option<Seq<char>>);

/// The plain values of a finding.
pub open spec fn diag_view(d: Diagnostic) -> DiagView {
    (
        d.severity@,
        d.code@,
        d.message@,
        match d.path {
            Some(p) => Some(p@),
            None => None,
        },
        match d.hint {
            Some(h) => Some(h@),
            None => None,
        },
    )
}

/// The plain values of findings.
pub open spec fn diag_views(s: Seq<Diagnostic>) -> Seq<DiagView> {
    s.map_values(|d: Diagnostic| diag_view(d))
}

/// Builds a finding.
pub fn diagnostic(
    severity: &str,
    code: &str,
    message: &str,
    path: Option<String>,
    hint: Option<String>,
) -> (r: Diagnostic)
    ensures
        r.severity@ == severity@,
        r.code@ == code@,
        r.message@ == message@,
        r.path == path,
        r.hint == hint,
{
    Diagnostic { severity: owned(severity), code: owned(code), message: owned(message), path, hint }
}

/// The providers a manifest declares.
pub open spec fn providers_of(m: ValidatorManifest) -> Seq<ProviderDecl> {
    match m.providers {
        Some(p) => p@,
        None => Seq::empty(),
    }
}

/// A provider type or schema that marks a messaging provider.
pub open spec fn provider_is_messaging(p: ProviderDecl) -> bool {
    let t = lower(trim(p.provider_type@));
    has_prefix(t, "messaging."@) || has_prefix(t, "greentic:provider/messaging."@) || (has_prefix(
        t,
        "greentic:provider/"@,
    ) && contains_seq(t, "messaging."@)) || contains_seq(
        lower(p.config_schema_ref@),
        "schemas/messaging/"@,
    )
}

/// A pack is a messaging pack when its id starts with `messaging-` or one of
/// its providers is a messaging provider.
pub open spec fn messaging_pack(m: ValidatorManifest) -> bool {
    has_prefix(m.pack_id@, "messaging-"@) || exists|i: int|
        0 <= i < providers_of(m).len() && provider_is_messaging(#[trigger] providers_of(m)[i])
}

fn provider_is_messaging_exec(p: &ProviderDecl) -> (r: bool)
    ensures
        r == provider_is_messaging(*p),
{
    let t = str_trim(p.provider_type.as_str());
    let tl = to_lower(t.as_str());
    let s = to_lower(p.config_schema_ref.as_str());
    str_starts_with(tl.as_str(), "messaging.") || str_starts_with(
        tl.as_str(),
        "greentic:provider/messaging.",
    ) || (str_starts_with(tl.as_str(), "greentic:provider/") && str_contains(
        tl.as_str(),
        "messaging.",
    )) || str_contains(s.as_str(), "schemas/messaging/")
}

/// Whether the pack is a messaging pack.
pub fn is_messaging_pack(manifest: &ValidatorManifest) -> (r: bool)
    ensures
        r == messaging_pack(*manifest),
{
    if str_starts_with(manifest.pack_id.as_str(), "messaging-") {
        return true;
    }
    match &manifest.providers {
        Some(ps) => {
            for i in 0..ps.len()
                invariant
                    providers_of(*manifest) == ps@,
                    forall|j: int| 0 <= j < i ==> !provider_is_messaging(#[trigger] ps@[j]),
            {
                if provider_is_messaging_exec(&ps[i]) {
                    return true;
                }
            }
            false
        },
        None => false,
    }
}

/// A setup flow id: `setup`, or `setup` followed by `_`, `-` or `.`, in
/// any case.
pub open spec fn setup_like(id: Seq<char>) -> bool {
    let l = lower(id);
    l == "setup"@ || has_prefix(l, "setup_"@) || has_prefix(l, "setup-"@) || has_prefix(
        l,
        "setup."@,
    )
}

/// Whether a flow id names a setup flow.
pub fn flow_id_is_setup_like(flow_id: &str) -> (r: bool)
    ensures
        r == setup_like(flow_id@),
{
    let l = to_lower(flow_id);
    str_eq(l.as_str(), "setup") || str_starts_with(l.as_str(), "setup_") || str_starts_with(
        l.as_str(),
        "setup-",
    ) || str_starts_with(l.as_str(), "setup.")
}

/// Whether a flow id mentions a subscription, in any case.
pub fn flow_id_mentions_subscription(flow_id: &str) -> (r: bool)
    ensures
        r == contains_seq(lower(flow_id@), "subscription"@),
{
    let l = to_lower(flow_id);
    str_contains(l.as_str(), "subscription")
}

/// A subscriptions flow id: it contains `sync-subscriptions` or
/// `subscriptions`, in any case.
pub open spec fn subscriptions_flow_id(id: Seq<char>) -> bool {
    contains_seq(lower(id), "sync-subscriptions"@) || contains_seq(lower(id), "subscriptions"@)
}

/// Whether a flow id names a subscriptions flow.
pub fn flow_id_is_subscriptions_flow(flow_id: &str) -> (r: bool)
    ensures
        r == subscriptions_flow_id(flow_id@),
{
    let l = to_lower(flow_id);
    str_contains(l.as_str(), "sync-subscriptions") || str_contains(l.as_str(), "subscriptions")
}

/// Some name equals `name` ignoring ASCII case.
pub open spec fn has_name_ci(names: Seq<String>, name: Seq<char>) -> bool {
    exists|i: int| 0 <= i < names.len() && lower(#[trigger] names[i]@) == lower(name)
}

/// The flow has an entrypoint of that name, in either list, ignoring case.
pub open spec fn flow_entry(f: ValidatorFlow, name: Seq<char>) -> bool {
    has_name_ci(f.entrypoints@, name) || has_name_ci(f.graph_entrypoints@, name)
}

fn has_name_ci_exec(names: &Vec<String>, name: &str) -> (r: bool)
    ensures
        r == has_name_ci(names@, name@),
{
    let target = to_lower(name);
    for i in 0..names.len()
        invariant
            target@ == lower(name@),
            forall|j: int| 0 <= j < i ==> lower(#[trigger] names@[j]@) != lower(name@),
    {
        let l = to_lower(names[i].as_str());
        if str_eq(l.as_str(), target.as_str()) {
            return true;
        }
    }
    false
}

/// Whether the flow has the entrypoint, ignoring ASCII case.
pub fn flow_has_entrypoint(flow: &ValidatorFlow, entrypoint: &str) -> (r: bool)
    ensures
        r == flow_entry(*flow, entrypoint@),
{
    has_name_ci_exec(&flow.entrypoints, entrypoint) || has_name_ci_exec(
        &flow.graph_entrypoints,
        entrypoint,
    )
}

/// A setup flow by id or by a `setup` entrypoint.
pub open spec fn declares_setup(f: ValidatorFlow) -> bool {
    setup_like(f.id@) || flow_entry(f, "setup"@)
}

/// A subscriptions flow by id or by a `subscriptions` entrypoint.
pub open spec fn is_subscriptions_flow(f: ValidatorFlow) -> bool {
    subscriptions_flow_id(f.id@) || flow_entry(f, "subscriptions"@)
}

/// Some flow is a setup flow by id or by a `setup` entrypoint.
pub open spec fn setup_declared(m: ValidatorManifest) -> bool {
    exists|i: int| 0 <= i < m.flows@.len() && declares_setup(#[trigger] m.flows@[i])
}

/// Some flow has a `setup` entrypoint.
pub open spec fn setup_entry(m: ValidatorManifest) -> bool {
    exists|i: int| 0 <= i < m.flows@.len() && flow_entry(#[trigger] m.flows@[i], "setup"@)
}

/// Some flow mentions subscriptions by id or has a `subscriptions` entrypoint.
pub open spec fn subscriptions_declared(m: ValidatorManifest) -> bool {
    exists|i: int|
        0 <= i < m.flows@.len() && (contains_seq(lower(#[trigger] m.flows@[i].id@), "subscription"@)
            || flow_entry(m.flows@[i], "subscriptions"@))
}

/// Some flow is a subscriptions flow by id or entrypoint.
pub open spec fn subscriptions_flow(m: ValidatorManifest) -> bool {
    exists|i: int| 0 <= i < m.flows@.len() && is_subscriptions_flow(#[trigger] m.flows@[i])
}

/// Whether the pack declares a setup flow.
pub fn has_setup_declaration(manifest: &ValidatorManifest) -> (r: bool)
    ensures
        r == setup_declared(*manifest),
{
    for i in 0..manifest.flows.len()
        invariant
            forall|j: int| 0 <= j < i ==> !declares_setup(#[trigger] manifest.flows@[j]),
    {
        let f = &manifest.flows[i];
        if flow_id_is_setup_like(f.id.as_str()) || flow_has_entrypoint(f, "setup") {
            return true;
        }
    }
    false
}

/// Whether some flow has a setup entrypoint.
pub fn has_setup_entry(manifest: &ValidatorManifest) -> (r: bool)
    ensures
        r == setup_entry(*manifest),
{
    for i in 0..manifest.flows.len()
        invariant
            forall|j: int| 0 <= j < i ==> !flow_entry(#[trigger] manifest.flows@[j], "setup"@),
    {
        if flow_has_entrypoint(&manifest.flows[i], "setup") {
            return true;
        }
    }
    false
}

/// Whether the pack declares subscriptions.
pub fn has_subscriptions_declaration(manifest: &ValidatorManifest) -> (r: bool)
    ensures
        r == subscriptions_declared(*manifest),
{
    for i in 0..manifest.flows.len()
        invariant
            forall|j: int|
                0 <= j < i ==> !(contains_seq(
                    lower(#[trigger] manifest.flows@[j].id@),
                    "subscription"@,
                ) || flow_entry(manifest.flows@[j], "subscriptions"@)),
    {
        let f = &manifest.flows[i];
        if flow_id_mentions_subscription(f.id.as_str()) || flow_has_entrypoint(f, "subscriptions") {
            return true;
        }
    }
    false
}

/// Whether the pack has a subscriptions flow.
pub fn has_subscriptions_flow(manifest: &ValidatorManifest) -> (r: bool)
    ensures
        r == subscriptions_flow(*manifest),
{
    for i in 0..manifest.flows.len()
        invariant
            forall|j: int| 0 <= j < i ==> !is_subscriptions_flow(#[trigger] manifest.flows@[j]),
    {
        let f = &manifest.flows[i];
        if flow_id_is_subscriptions_flow(f.id.as_str()) || flow_has_entrypoint(f, "subscriptions") {
            return true;
        }
    }
    false
}

/// A provider whose schema reference mentions setup, a webhook or a public
/// URL.
pub open spec fn mentions_public_url(p: ProviderDecl) -> bool {
    let s = lower(p.config_schema_ref@);
    contains_seq(s, "setup"@) || contains_seq(s, "webhook"@) || contains_seq(s, "public"@)
}

/// Whether the provider's schema suggests a public URL.
pub fn provider_mentions_public_url(provider: &ProviderDecl) -> (r: bool)
    ensures
        r == mentions_public_url(*provider),
{
    let s = to_lower(provider.config_schema_ref.as_str());
    str_contains(s.as_str(), "setup") || str_contains(s.as_str(), "webhook") || str_contains(
        s.as_str(),
        "public",
    )
}

/// The path of the `idx`th provider declaration.
pub open spec fn provider_path(idx: nat) -> Seq<char> {
    "extensions."@ + PROVIDER_EXTENSION_ID@ + ".providers["@ + decimal(idx) + "]"@
}

/// The findings about one provider declaration.
pub open spec fn provider_findings(p: ProviderDecl, idx: nat) -> Seq<DiagView> {
    let base = provider_path(idx);
    let a: Seq<DiagView> = if trim(p.provider_type@).len() == 0 {
        seq![
            (
                "error"@,
                "MSG_PROVIDER_SCHEMA_EMPTY"@,
                "Provider declaration must include a non-empty provider type."@,
                Some(base + ".provider_type"@),
                Some("Set the provider type identifier for this provider."@),
            ),
        ]
    } else {
        Seq::empty()
    };
    let b: Seq<DiagView> = if p.ops@.len() == 0 {
        seq![
            (
                "error"@,
                "MSG_PROVIDER_NO_OPS"@,
                "Provider declaration must include at least one operation."@,
                Some(base + ".ops"@),
                Some("Declare the operations exposed by this provider."@),
            ),
        ]
    } else {
        Seq::empty()
    };
    let c: Seq<DiagView> = if trim(p.config_schema_ref@).len() == 0 {
        seq![
            (
                "error"@,
                "MSG_PROVIDER_CONFIG_PATH_EMPTY"@,
                "Provider config schema reference must not be empty."@,
                Some(base + ".config_schema_ref"@),
                Some("Point to the provider configuration schema."@),
            ),
        ]
    } else {
        Seq::empty()
    };
    a + b + c
}

/// The findings about the first `n` provider declarations.
pub open spec fn providers_findings(ps: Seq<ProviderDecl>, n: nat) -> Seq<DiagView>
    decreases n,
{
    if n == 0 {
        Seq::empty()
    } else {
        providers_findings(ps, (n - 1) as nat) + provider_findings(ps[n - 1], (n - 1) as nat)
    }
}

/// The findings about provider declarations: none declared is an error;
/// otherwise each empty type, missing operation list and empty schema
/// reference is one.
pub open spec fn provider_decl_findings(m: ValidatorManifest) -> Seq<DiagView> {
    let ps = providers_of(m);
    if ps.len() == 0 {
        seq![
            (
                "error"@,
                "MSG_NO_PROVIDER_DECL"@,
                "Messaging pack must declare at least one provider."@,
                Some("extensions."@ + PROVIDER_EXTENSION_ID@ + ".providers"@),
                Some("Add provider declarations under the provider extension."@),
            ),
        ]
    } else {
        providers_findings(ps, ps.len())
    }
}

fn push_diag(out: &mut Vec<Diagnostic>, d: Diagnostic)
    ensures
        diag_views(final(out)@) == diag_views(old(out)@).push(diag_view(d)),
{
    let ghost before = out@;
    out.push(d);
    proof {
        assert(diag_views(out@) =~= diag_views(before).push(diag_view(d)));
    }
}

fn provider_path_exec(idx: usize) -> (r: String)
    ensures
        r@ == provider_path(idx as nat),
{
    let mut p = concat2("extensions.", PROVIDER_EXTENSION_ID);
    push_str(&mut p, ".providers[");
    push_str(&mut p, decimal_string(idx).as_str());
    push_str(&mut p, "]");
    p
}

/// Checks the provider declarations.
pub fn validate_provider_decls(manifest: &ValidatorManifest) -> (r: Vec<Diagnostic>)
    ensures
        diag_views(r@) == provider_decl_findings(*manifest),
{
    let mut out: Vec<Diagnostic> = Vec::new();
    let empty: Vec<ProviderDecl> = Vec::new();
    let ps = match &manifest.providers {
        Some(p) => p,
        None => &empty,
    };
    if ps.len() == 0 {
        let mut path = concat2("extensions.", PROVIDER_EXTENSION_ID);
        push_str(&mut path, ".providers");
        push_diag(
            &mut out,
            diagnostic(
                "error",
                "MSG_NO_PROVIDER_DECL",
                "Messaging pack must declare at least one provider.",
                Some(path),
                Some(owned("Add provider declarations under the provider extension.")),
            ),
        );
        proof {
            assert(diag_views(out@) =~= provider_decl_findings(*manifest));
        }
        return out;
    }
    for i in 0..ps.len()
        invariant
            ps@ == providers_of(*manifest),
            diag_views(out@) == providers_findings(ps@, i as nat),
    {
        let p = &ps[i];
        let ghost start = diag_views(out@);
        let base = provider_path_exec(i);
        if crate::text::is_blank(p.provider_type.as_str()) {
            push_diag(
                &mut out,
                diagnostic(
                    "error",
                    "MSG_PROVIDER_SCHEMA_EMPTY",
                    "Provider declaration must include a non-empty provider type.",
                    Some(concat2(base.as_str(), ".provider_type")),
                    Some(owned("Set the provider type identifier for this provider.")),
                ),
            );
        }
        if p.ops.len() == 0 {
            push_diag(
                &mut out,
                diagnostic(
                    "error",
                    "MSG_PROVIDER_NO_OPS",
                    "Provider declaration must include at least one operation.",
                    Some(concat2(base.as_str(), ".ops")),
                    Some(owned("Declare the operations exposed by this provider.")),
                ),
            );
        }
        if crate::text::is_blank(p.config_schema_ref.as_str()) {
            push_diag(
                &mut out,
                diagnostic(
                    "error",
                    "MSG_PROVIDER_CONFIG_PATH_EMPTY",
                    "Provider config schema reference must not be empty.",
                    Some(concat2(base.as_str(), ".config_schema_ref")),
                    Some(owned("Point to the provider configuration schema.")),
                ),
            );
        }
        proof {
            assert(diag_views(out@) =~= start + provider_findings(ps@[i as int], i as nat));
        }
    }
    out
}

/// The findings about a declared setup flow: a missing `setup` entrypoint
/// is an error; otherwise a warning when no provider suggests a public URL.
pub open spec fn setup_findings(m: ValidatorManifest) -> Seq<DiagView> {
    if !setup_entry(m) {
        seq![
            (
                "error"@,
                "MSG_SETUP_ENTRY_MISSING"@,
                "Setup flow declared but no setup entrypoint found."@,
                Some("flows"@),
                Some("Ensure at least one flow entrypoint is named 'setup'."@),
            ),
        ]
    } else if !(exists|i: int|
        0 <= i < providers_of(m).len() && mentions_public_url(#[trigger] providers_of(m)[i])) {
        seq![
            (
                "warn"@,
                "MSG_SETUP_PUBLIC_URL_NOT_ASSERTED"@,
                "Setup flow should assert a public webhook URL in provider config schema."@,
                Some("extensions"@),
                Some("Expose PUBLIC_BASE_URL (or equivalent) in the provider config schema."@),
            ),
        ]
    } else {
        Seq::empty()
    }
}

/// No provider finding carries the public-URL warning's code.
proof fn lemma_provider_codes(ps: Seq<ProviderDecl>, n: nat)
    ensures
        forall|i: int| 0 <= i < providers_findings(ps, n).len() ==> (#[trigger] providers_findings(ps, n)[i]).1.len() != 33,
    decreases n,
{
    reveal_strlit("MSG_PROVIDER_SCHEMA_EMPTY");
    reveal_strlit("MSG_PROVIDER_NO_OPS");
    reveal_strlit("MSG_PROVIDER_CONFIG_PATH_EMPTY");
    if n > 0 {
        lemma_provider_codes(ps, (n - 1) as nat);
        let a = providers_findings(ps, (n - 1) as nat);
        let b = provider_findings(ps[n - 1], (n - 1) as nat);
        assert forall|i: int| 0 <= i < b.len() implies (#[trigger] b[i]).1.len() != 33 by {}
        assert forall|i: int| 0 <= i < (a + b).len() implies (#[trigger] (a + b)[i]).1.len() != 33 by {
            if i < a.len() {
                assert((a + b)[i] == a[i]);
            } else {
                assert((a + b)[i] == b[i - a.len()]);
            }
        }
    }
}

/// A pack with a provider whose lower-cased schema reference mentions a
/// webhook, setup or a public URL gets no public-URL warning from
/// validation.
pub proof fn lemma_public_url_provider_silences_warning(m: ValidatorManifest, k: int)
    requires
        0 <= k < providers_of(m).len(),
        contains_seq(lower(providers_of(m)[k].config_schema_ref@), "webhook"@) || contains_seq(
            lower(providers_of(m)[k].config_schema_ref@),
            "setup"@,
        ) || contains_seq(lower(providers_of(m)[k].config_schema_ref@), "public"@),
    ensures
        forall|i: int| 0 <= i < validation_findings(m).len() ==> (#[trigger] validation_findings(m)[i]).1
            != "MSG_SETUP_PUBLIC_URL_NOT_ASSERTED"@,
{
    reveal_strlit("MSG_SETUP_PUBLIC_URL_NOT_ASSERTED");
    reveal_strlit("MSG_NO_PROVIDER_DECL");
    reveal_strlit("MSG_SETUP_ENTRY_MISSING");
    reveal_strlit("MSG_SUBSCRIPTIONS_DECLARED_BUT_NO_FLOW");
    reveal_strlit("MSG_SECRETS_REQUIREMENTS_NOT_DISCOVERABLE");
    assert(mentions_public_url(providers_of(m)[k]));
    let ps = providers_of(m);
    lemma_provider_codes(ps, ps.len());
    let p = provider_decl_findings(m);
    let s: Seq<DiagView> = if setup_declared(m) { setup_findings(m) } else { Seq::empty() };
    let u: Seq<DiagView> = if subscriptions_declared(m) { subscriptions_findings(m) } else { Seq::empty() };
    let c = secret_findings(m);
    assert(setup_findings(m).len() == 0 || setup_findings(m)[0].1.len() == 23);
    assert forall|i: int| 0 <= i < p.len() implies (#[trigger] p[i]).1.len() != 33 by {}
    assert forall|i: int| 0 <= i < s.len() implies (#[trigger] s[i]).1.len() != 33 by {}
    assert forall|i: int| 0 <= i < u.len() implies (#[trigger] u[i]).1.len() != 33 by {}
    assert forall|i: int| 0 <= i < c.len() implies (#[trigger] c[i]).1.len() != 33 by {}
    if messaging_pack(m) {
        let all = p + s + u + c;
        assert(validation_findings(m) == all);
        assert forall|i: int| 0 <= i < all.len() implies (#[trigger] all[i]).1.len() != 33 by {
            if i < p.len() {
                assert(all[i] == p[i]);
            } else if i < p.len() + s.len() {
                assert(all[i] == s[i - p.len()]);
            } else if i < p.len() + s.len() + u.len() {
                assert(all[i] == u[i - p.len() - s.len()]);
            } else {
                assert(all[i] == c[i - p.len() - s.len() - u.len()]);
            }
        }
    }
}

/// Checks a declared setup flow.
pub fn validate_setup_flow(manifest: &ValidatorManifest) -> (r: Vec<Diagnostic>)
    ensures
        diag_views(r@) == setup_findings(*manifest),
{
    let mut out: Vec<Diagnostic> = Vec::new();
    if !has_setup_entry(manifest) {
        push_diag(
            &mut out,
            diagnostic(
                "error",
                "MSG_SETUP_ENTRY_MISSING",
                "Setup flow declared but no setup entrypoint found.",
                Some(owned("flows")),
                Some(owned("Ensure at least one flow entrypoint is named 'setup'.")),
            ),
        );
        proof {
            assert(diag_views(out@) =~= setup_findings(*manifest));
        }
        return out;
    }
    let mut has_public_url = false;
    match &manifest.providers {
        Some(ps) => {
            for i in 0..ps.len()
                invariant
                    ps@ == providers_of(*manifest),
                    has_public_url == exists|j: int|
                        0 <= j < i && mentions_public_url(#[trigger] ps@[j]),
            {
                if provider_mentions_public_url(&ps[i]) {
                    has_public_url = true;
                }
            }
        },
        None => {},
    }
    if !has_public_url {
        push_diag(
            &mut out,
            diagnostic(
                "warn",
                "MSG_SETUP_PUBLIC_URL_NOT_ASSERTED",
                "Setup flow should assert a public webhook URL in provider config schema.",
                Some(owned("extensions")),
                Some(owned("Expose PUBLIC_BASE_URL (or equivalent) in the provider config schema.")),
            ),
        );
    }
    proof {
        assert(diag_views(out@) =~= setup_findings(*manifest));
    }
    out
}

/// The finding about declared subscriptions without a subscriptions flow.
pub open spec fn subscriptions_findings(m: ValidatorManifest) -> Seq<DiagView> {
    if subscriptions_flow(m) {
        Seq::empty()
    } else {
        seq![
            (
                "warn"@,
                "MSG_SUBSCRIPTIONS_DECLARED_BUT_NO_FLOW"@,
                "Subscriptions declared but no subscriptions flow found."@,
                Some("flows"@),
                Some("Add a subscriptions flow (e.g. sync-subscriptions)."@),
            ),
        ]
    }
}

/// Checks declared subscriptions.
pub fn validate_subscriptions_flow(manifest: &ValidatorManifest) -> (r: Vec<Diagnostic>)
    ensures
        diag_views(r@) == subscriptions_findings(*manifest),
{
    let mut out: Vec<Diagnostic> = Vec::new();
    if has_subscriptions_flow(manifest) {
        proof {
            assert(diag_views(out@) =~= subscriptions_findings(*manifest));
        }
        return out;
    }
    push_diag(
        &mut out,
        diagnostic(
            "warn",
            "MSG_SUBSCRIPTIONS_DECLARED_BUT_NO_FLOW",
            "Subscriptions declared but no subscriptions flow found.",
            Some(owned("flows")),
            Some(owned("Add a subscriptions flow (e.g. sync-subscriptions).")),
        ),
    );
    proof {
        assert(diag_views(out@) =~= subscriptions_findings(*manifest));
    }
    out
}

/// The finding about operations without discoverable secret requirements.
pub open spec fn secret_findings(m: ValidatorManifest) -> Seq<DiagView> {
    let ps = providers_of(m);
    if ps.len() == 0 || (forall|i: int| 0 <= i < ps.len() ==> (#[trigger] ps[i]).ops@.len() == 0) {
        Seq::empty()
    } else if m.has_secret_requirements {
        Seq::empty()
    } else {
        seq![
            (
                "warn"@,
                "MSG_SECRETS_REQUIREMENTS_NOT_DISCOVERABLE"@,
                "Provider operations declared but secret requirements are not discoverable."@,
                Some("secret_requirements"@),
                Some(
                    "Include secret requirements in the manifest or reference secret requirements assets."@,
                ),
            ),
        ]
    }
}

/// Checks that providers with operations come with secret requirements.
pub fn validate_secret_requirements(manifest: &ValidatorManifest) -> (r: Vec<Diagnostic>)
    ensures
        diag_views(r@) == secret_findings(*manifest),
{
    let mut out: Vec<Diagnostic> = Vec::new();
    let mut any_ops = false;
    match &manifest.providers {
        Some(ps) => {
            for i in 0..ps.len()
                invariant
                    ps@ == providers_of(*manifest),
                    any_ops == exists|j: int| 0 <= j < i && (#[trigger] ps@[j]).ops@.len() > 0,
            {
                if ps[i].ops.len() > 0 {
                    any_ops = true;
                }
            }
        },
        None => {},
    }
    if !any_ops || manifest.has_secret_requirements {
        proof {
            assert(diag_views(out@) =~= secret_findings(*manifest));
        }
        return out;
    }
    push_diag(
        &mut out,
        diagnostic(
            "warn",
            "MSG_SECRETS_REQUIREMENTS_NOT_DISCOVERABLE",
            "Provider operations declared but secret requirements are not discoverable.",
            Some(owned("secret_requirements")),
            Some(
                owned(
                    "Include secret requirements in the manifest or reference secret requirements assets.",
                ),
            ),
        ),
    );
    proof {
        assert(diag_views(out@) =~= secret_findings(*manifest));
    }
    out
}

/// All findings about a pack: none unless it is a messaging pack; then the
/// provider findings, the setup findings if setup is declared, the
/// subscriptions finding if subscriptions are declared, and the secrets
/// finding.
pub open spec fn validation_findings(m: ValidatorManifest) -> Seq<DiagView> {
    if !messaging_pack(m) {
        Seq::empty()
    } else {
        provider_decl_findings(m) + (if setup_declared(m) {
            setup_findings(m)
        } else {
            Seq::empty()
        }) + (if subscriptions_declared(m) {
            subscriptions_findings(m)
        } else {
            Seq::empty()
        }) + secret_findings(m)
    }
}

/// Validates a decoded pack manifest.
pub fn validate(manifest: &ValidatorManifest) -> (r: Vec<Diagnostic>)
    ensures
        diag_views(r@) == validation_findings(*manifest),
{
    let mut out: Vec<Diagnostic> = Vec::new();
    if !is_messaging_pack(manifest) {
        proof {
            assert(diag_views(out@) =~= validation_findings(*manifest));
        }
        return out;
    }
    let mut a = validate_provider_decls(manifest);
    out.append(&mut a);
    if has_setup_declaration(manifest) {
        let mut b = validate_setup_flow(manifest);
        out.append(&mut b);
    }
    if has_subscriptions_declaration(manifest) {
        let mut c = validate_subscriptions_flow(manifest);
        out.append(&mut c);
    }
    let mut d = validate_secret_requirements(manifest);
    out.append(&mut d);
    proof {
        assert(diag_views(out@) =~= validation_findings(*manifest));
    }
    out
}

/// Whether the validator applies: the manifest decoded and is a messaging
/// pack.
pub fn applies(manifest: Option<&ValidatorManifest>) -> (r: bool)
    ensures
        r == match manifest {
            Some(m) => messaging_pack(*m),
            None => false,
        },
{
    match manifest {
        Some(m) => is_messaging_pack(m),
        None => false,
    }
}

} // verus!
