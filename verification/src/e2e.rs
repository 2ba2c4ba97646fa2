//! End-to-end conformance of provider packs: options, which flows serve
//! each stage, how stage outcomes combine into a pack's verdict, and the
//! summary of a run.
use vstd::prelude::*;
use base64::Engine;
use hmac::Mac;
use crate::json::Json;
use crate::packs::opt_view;
use crate::text::{
    concat2, contains_seq, has_prefix, join, join_strings, lower, owned, push_str, str_contains,
    str_eq, str_starts_with, to_lower, views,
};

verus! {

/// Options of an end-to-end run.
#[derive(Clone, Debug, PartialEq, Eq)]
pub struct E2eOptions {
    pub packs_dir: String,
    pub provider: Option<String>,
    pub report: Option<String>,
    pub dry_run: bool,
    pub live: bool,
    pub trace: bool,
}

/// Checks the options: turning dry-run off needs live mode. Returns the
/// effective dry-run flag: off in live mode, else as asked.
pub fn effective_dry_run(options: &E2eOptions) -> (r: Result<bool, String>)
    ensures
        if !options.dry_run && !options.live {
            r matches Err(e) && e@ == "--dry-run=false requires --live for safety"@
        } else {
            r == Ok::<bool, String>(if options.live { false } else { options.dry_run })
        },
{
    if !options.dry_run && !options.live {
        return Err(owned("--dry-run=false requires --live for safety"));
    }
    Ok(if options.live { false } else { options.dry_run })
}

/// Live runs need `RUN_LIVE_TESTS` and `RUN_LIVE_HTTP` both set to `true`.
pub fn check_live_env(run_live_tests: &str, run_live_http: &str) -> (r: Result<(), String>)
    ensures
        if run_live_tests@ == "true"@ && run_live_http@ == "true"@ {
            r is Ok
        } else {
            r matches Err(e) && e@ == "--live requires RUN_LIVE_TESTS=true and RUN_LIVE_HTTP=true"@
        },
{
    if !str_eq(run_live_tests, "true") || !str_eq(run_live_http, "true") {
        return Err(owned("--live requires RUN_LIVE_TESTS=true and RUN_LIVE_HTTP=true"));
    }
    Ok(())
}

/// A pack matches a provider filter when its id or file name contains the
/// filter, ignoring ASCII case.
pub open spec fn filter_matches(pack_id: Option<Seq<char>>, file_name: Option<Seq<char>>, filter: Seq<
    char,
>) -> bool {
    let f = lower(filter);
    (pack_id matches Some(id) && contains_seq(lower(id), f)) || (file_name matches Some(n)
        && contains_seq(lower(n), f))
}

/// Whether a pack matches the provider filter.
pub fn pack_matches_filter(pack_id: Option<&str>, file_name: Option<&str>, filter: &str) -> (r: bool)
    ensures
        r == filter_matches(
            match pack_id {
                Some(s) => Some(s@),
                None => None,
            },
            match file_name {
                Some(s) => Some(s@),
                None => None,
            },
            filter@,
        ),
{
    let f = to_lower(filter);
    if let Some(id) = pack_id {
        let l = to_lower(id);
        if str_contains(l.as_str(), f.as_str()) {
            return true;
        }
    }
    match file_name {
        Some(n) => {
            let l = to_lower(n);
            str_contains(l.as_str(), f.as_str())
        },
        None => false,
    }
}

/// The outcome of a stage.
#[derive(Clone, Copy, Debug, PartialEq, Eq)]
pub enum StageStatus {
    Pass,
    Fail,
    Skip,
}

/// The name of a stage outcome.
pub open spec fn stage_status_name(s: StageStatus) -> Seq<char> {
    match s {
        StageStatus::Pass => "pass"@,
        StageStatus::Fail => "fail"@,
        StageStatus::Skip => "skip"@,
    }
}

impl StageStatus {
    /// `pass`, `fail` or `skip`.
    pub fn as_str(self) -> (r: &'static str)
        ensures
            r@ == stage_status_name(self),
    {
        match self {
            StageStatus::Pass => "pass",
            StageStatus::Fail => "fail",
            StageStatus::Skip => "skip",
        }
    }
}

/// The outcomes of the six stages of a pack.
#[derive(Clone, Copy, Debug, PartialEq, Eq)]
pub struct E2eStages {
    pub requirements: StageStatus,
    pub setup: StageStatus,
    pub ingress: StageStatus,
    pub runner: StageStatus,
    pub egress: StageStatus,
    pub subscriptions: StageStatus,
}

/// Some stage failed.
pub open spec fn any_failed(s: E2eStages) -> bool {
    s.requirements is Fail || s.setup is Fail || s.ingress is Fail || s.runner is Fail
        || s.egress is Fail || s.subscriptions is Fail
}

impl E2eStages {
    /// Every stage skipped.
    pub open spec fn skipped_spec() -> Self {
        E2eStages {
            requirements: StageStatus::Skip,
            setup: StageStatus::Skip,
            ingress: StageStatus::Skip,
            runner: StageStatus::Skip,
            egress: StageStatus::Skip,
            subscriptions: StageStatus::Skip,
        }
    }

    /// Every stage skipped, as before a pack runs.
    pub fn skipped() -> (r: Self)
        ensures
            r == Self::skipped_spec(),
    {
        E2eStages {
            requirements: StageStatus::Skip,
            setup: StageStatus::Skip,
            ingress: StageStatus::Skip,
            runner: StageStatus::Skip,
            egress: StageStatus::Skip,
            subscriptions: StageStatus::Skip,
        }
    }

    /// A pack fails when any stage failed and passes otherwise.
    pub fn overall(&self) -> (r: StageStatus)
        ensures
            r == if any_failed(*self) {
                StageStatus::Fail
            } else {
                StageStatus::Pass
            },
    {
        if matches!(self.requirements, StageStatus::Fail) || matches!(self.setup, StageStatus::Fail)
            || matches!(self.ingress, StageStatus::Fail) || matches!(self.runner, StageStatus::Fail)
            || matches!(self.egress, StageStatus::Fail) || matches!(
            self.subscriptions,
            StageStatus::Fail,
        ) {
            StageStatus::Fail
        } else {
            StageStatus::Pass
        }
    }
}

/// The outcome of a stage that ran: an error fails it and is noted as
/// `{stage} failed: {error}`.
pub fn settle_stage(stage: &str, result: Result<StageStatus, String>, diagnostics: &mut Vec<String>) -> (r:
    StageStatus)
    ensures
        match result {
            Ok(s) => r == s && final(diagnostics)@ == old(diagnostics)@,
            Err(e) => r is Fail && views(final(diagnostics)@) == views(old(diagnostics)@).push(
                stage@ + " failed: "@ + e@,
            ),
        },
{
    match result {
        Ok(s) => s,
        Err(e) => {
            let ghost before = diagnostics@;
            let mut m = concat2(stage, " failed: ");
            push_str(&mut m, e.as_str());
            diagnostics.push(m);
            proof {
                assert(views(diagnostics@) =~= views(before).push(stage@ + " failed: "@ + e@));
            }
            StageStatus::Fail
        },
    }
}

/// The note on whether a provider capability is required.
pub fn required_note(what: &str, required: bool) -> (r: String)
    ensures
        r@ == what@ + " required: "@ + (if required {
            "yes"@
        } else {
            "no"@
        }),
{
    let mut m = concat2(what, " required: ");
    push_str(&mut m, if required { "yes" } else { "no" });
    m
}

/// Totals of an end-to-end run.
#[derive(Debug, PartialEq, Eq)]
pub struct E2eSummary {
    pub total: usize,
    pub passed: usize,
    pub failed: usize,
}

/// How many of the first `n` packs passed.
pub open spec fn passed_count(s: Seq<StageStatus>, n: int) -> nat
    decreases n,
{
    if n <= 0 {
        0
    } else {
        passed_count(s, n - 1) + if s[n - 1] is Pass { 1nat } else { 0nat }
    }
}

proof fn lemma_passed_count_bound(s: Seq<StageStatus>, n: int)
    requires
        0 <= n,
    ensures
        passed_count(s, n) <= n,
    decreases n,
{
    if n > 0 {
        lemma_passed_count_bound(s, n - 1);
    }
}

/// Counts the packs that passed and the rest.
pub fn summarize(statuses: &Vec<StageStatus>) -> (r: E2eSummary)
    ensures
        r.total == statuses@.len(),
        r.passed == passed_count(statuses@, statuses@.len() as int),
        r.passed + r.failed == r.total,
{
    let mut passed: usize = 0;
    for i in 0..statuses.len()
        invariant
            passed == passed_count(statuses@, i as int),
            passed <= i,
    {
        proof {
            lemma_passed_count_bound(statuses@, i as int);
        }
        if matches!(statuses[i], StageStatus::Pass) {
            passed = passed + 1;
        }
    }
    E2eSummary { total: statuses.len(), passed, failed: statuses.len() - passed }
}

/// A flow of a pack, for finding the flows that serve the stages: its id,
/// the entrypoints the manifest lists and the text values of its graph's
/// entrypoints.
#[derive(Debug, PartialEq, Eq)]
pub struct StageFlow {
    pub id: String,
    pub entrypoints: Vec<String>,
    pub entry_values: Vec<String>,
}

/// How a flow id relates to a stage's name.
#[derive(Clone, Copy, Debug, PartialEq, Eq)]
pub enum IdRule {
    /// The id starts with the name.
    Prefix,
    /// The id contains the name.
    Contains,
}

/// The flow serves the stage `name`: it lists it as an entrypoint, its id
/// fits the rule, or one of its graph's entrypoints has it as value.
pub open spec fn serves_stage(f: StageFlow, name: Seq<char>, rule: IdRule) -> bool {
    views(f.entrypoints@).contains(name) || (match rule {
        IdRule::Prefix => has_prefix(f.id@, name),
        IdRule::Contains => contains_seq(f.id@, name),
    }) || views(f.entry_values@).contains(name)
}

/// The id of the first flow that serves the stage.
pub open spec fn stage_flow_of(flows: Seq<StageFlow>, name: Seq<char>, rule: IdRule) -> Option<
    Seq<char>,
>
    decreases flows.len(),
{
    if flows.len() == 0 {
        None
    } else if serves_stage(flows[0], name, rule) {
        Some(flows[0].id@)
    } else {
        stage_flow_of(flows.drop_first(), name, rule)
    }
}

fn contains_text(items: &Vec<String>, x: &str) -> (r: bool)
    ensures
        r == views(items@).contains(x@),
{
    for i in 0..items.len()
        invariant
            forall|j: int| 0 <= j < i ==> items@[j]@ != x@,
    {
        if str_eq(items[i].as_str(), x) {
            proof {
                assert(views(items@)[i as int] == x@);
            }
            return true;
        }
    }
    proof {
        if views(items@).contains(x@) {
            let j = choose|j: int| 0 <= j < views(items@).len() && views(items@)[j] == x@;
            assert(items@[j]@ == x@);
        }
    }
    false
}

/// The id of the first flow serving the stage `name`.
pub fn stage_flow_id(flows: &Vec<StageFlow>, name: &str, rule: IdRule) -> (r: Option<String>)
    ensures
        opt_view(r) == stage_flow_of(flows@, name@, rule),
{
    proof {
        assert(flows@.skip(0) =~= flows@);
    }
    for i in 0..flows.len()
        invariant
            stage_flow_of(flows@, name@, rule) == stage_flow_of(flows@.skip(i as int), name@, rule),
    {
        proof {
            assert(flows@.skip(i as int).drop_first() =~= flows@.skip(i + 1));
            assert(flows@.skip(i as int)[0] == flows@[i as int]);
        }
        let f = &flows[i];
        let by_id = match rule {
            IdRule::Prefix => str_starts_with(f.id.as_str(), name),
            IdRule::Contains => str_contains(f.id.as_str(), name),
        };
        if contains_text(&f.entrypoints, name) || by_id || contains_text(&f.entry_values, name) {
            return Some(f.id.clone());
        }
    }
    proof {
        assert(flows@.skip(flows@.len() as int).len() == 0);
    }
    None
}

/// The flow of the requirements stage.
pub fn requirements_flow_id(flows: &Vec<StageFlow>) -> (r: Option<String>)
    ensures
        opt_view(r) == stage_flow_of(flows@, "requirements"@, IdRule::Prefix),
{
    stage_flow_id(flows, "requirements", IdRule::Prefix)
}

/// The flow of the setup stage.
pub fn setup_flow_id(flows: &Vec<StageFlow>) -> (r: Option<String>)
    ensures
        opt_view(r) == stage_flow_of(flows@, "setup"@, IdRule::Prefix),
{
    stage_flow_id(flows, "setup", IdRule::Prefix)
}

/// The flow of the subscriptions stage.
pub fn subscriptions_flow_id(flows: &Vec<StageFlow>) -> (r: Option<String>)
    ensures
        opt_view(r) == stage_flow_of(flows@, "subscriptions"@, IdRule::Contains),
{
    stage_flow_id(flows, "subscriptions", IdRule::Contains)
}

/// The provider a pack is tested through: its first declared provider,
/// else the first provider with ingress, else the first with
/// subscriptions.
pub fn primary_provider_id(
    declared: &Vec<String>,
    ingress: &Vec<String>,
    subscriptions: &Vec<String>,
) -> (r: Option<String>)
    ensures
        opt_view(r) == if declared@.len() > 0 {
            Some(declared@[0]@)
        } else if ingress@.len() > 0 {
            Some(ingress@[0]@)
        } else if subscriptions@.len() > 0 {
            Some(subscriptions@[0]@)
        } else {
            None
        },
{
    if declared.len() > 0 {
        Some(declared[0].clone())
    } else if ingress.len() > 0 {
        Some(ingress[0].clone())
    } else if subscriptions.len() > 0 {
        Some(subscriptions[0].clone())
    } else {
        None
    }
}

/// What the setup stage concludes from the provisioning plan: a provider
/// with ingress needs webhook operations, one with subscriptions needs
/// subscription operations.
pub fn check_setup_plan(plan: &Json, has_ingress: bool, has_subscriptions: bool) -> (r: Option<
    String,
>)
    ensures
        opt_view(r) == if has_ingress && !crate::json::json_mentions(*plan, "webhook"@) {
            Some("setup plan missing webhook operations"@)
        } else if has_subscriptions && !crate::json::json_mentions(*plan, "subscription"@) {
            Some("setup plan missing subscription operations"@)
        } else {
            None
        },
{
    if has_ingress && !crate::json::plan_contains_keyword(plan, "webhook") {
        return Some(owned("setup plan missing webhook operations"));
    }
    if has_subscriptions && !crate::json::plan_contains_keyword(plan, "subscription") {
        return Some(owned("setup plan missing subscription operations"));
    }
    None
}

/// The texts among values, in order.
pub open spec fn texts_of(vs: Seq<Json>) -> Seq<Seq<char>>
    decreases vs.len(),
{
    if vs.len() == 0 {
        Seq::empty()
    } else {
        match vs.last() {
            Json::Str(s) => texts_of(vs.drop_last()).push(s@),
            _ => texts_of(vs.drop_last()),
        }
    }
}

fn texts(vs: &Vec<Json>) -> (r: Vec<String>)
    ensures
        views(r@) == texts_of(vs@),
{
    let mut out: Vec<String> = Vec::new();
    for i in 0..vs.len()
        invariant
            views(out@) == texts_of(vs@.take(i as int)),
    {
        proof {
            assert(vs@.take(i + 1).drop_last() =~= vs@.take(i as int));
        }
        match &vs[i] {
            Json::Str(s) => {
                let ghost before = out@;
                out.push(s.clone());
                proof {
                    assert(views(out@) =~= views(before).push(s@));
                }
            },
            _ => {},
        }
    }
    proof {
        assert(vs@.take(vs.len() as int) =~= vs@);
    }
    out
}

/// The texts of an array member of an object; none otherwise.
pub open spec fn member_texts(state: Json, key: Seq<char>) -> Seq<Seq<char>> {
    match crate::subscriptions::object_lookup(state, key) {
        Some(Json::Array(a)) => texts_of(a@),
        _ => Seq::empty(),
    }
}

/// The notes a requirements flow's state gives, and whether it gave any.
pub open spec fn requirements_notes(state: Json) -> Seq<Seq<char>> {
    let c = member_texts(state, "required_config_keys"@);
    let s = member_texts(state, "required_secret_keys"@);
    (if c.len() > 0 {
        seq!["required config keys: "@ + join(c, ", "@)]
    } else {
        Seq::empty()
    }) + (if s.len() > 0 {
        seq!["required secret keys: "@ + join(s, ", "@)]
    } else {
        Seq::empty()
    })
}

pub(crate) fn member_texts_exec(state: &Json, key: &str) -> (r: Vec<String>)
    ensures
        views(r@) == member_texts(*state, key@),
{
    match state {
        Json::Object(m) => match m.get(key) {
            Some(Json::Array(a)) => texts(a),
            _ => {
                let v: Vec<String> = Vec::new();
                proof {
                    assert(views(v@) =~= Seq::<Seq<char>>::empty());
                }
                v
            },
        },
        _ => {
            let v: Vec<String> = Vec::new();
            proof {
                assert(views(v@) =~= Seq::<Seq<char>>::empty());
            }
            v
        },
    }
}

/// Notes the required configuration and secret keys a requirements flow
/// reported; returns whether it reported any.
pub fn record_requirements_from_state(state: &Json, diagnostics: &mut Vec<String>) -> (found: bool)
    ensures
        views(final(diagnostics)@) == views(old(diagnostics)@) + requirements_notes(*state),
        found == (requirements_notes(*state).len() > 0),
{
    let ghost before = views(diagnostics@);
    let c = member_texts_exec(state, "required_config_keys");
    let s = member_texts_exec(state, "required_secret_keys");
    let mut found = false;
    if c.len() > 0 {
        let mut m = owned("required config keys: ");
        push_str(&mut m, join_strings(&c, ", ").as_str());
        diagnostics.push(m);
        found = true;
    }
    if s.len() > 0 {
        let mut m = owned("required secret keys: ");
        push_str(&mut m, join_strings(&s, ", ").as_str());
        diagnostics.push(m);
        found = true;
    }
    proof {
        assert(views(diagnostics@) =~= before + requirements_notes(*state));
    }
    found
}

/// The result of an end-to-end run: an error counting the failed packs.
pub fn e2e_outcome(statuses: &Vec<StageStatus>) -> (r: Result<(), String>)
    ensures
        r is Ok <==> passed_count(statuses@, statuses@.len() as int) == statuses@.len(),
{
    let s = summarize(statuses);
    crate::packs::packs_outcome(s.failed, "e2e conformance")
}


/// The report of one pack: its id and version, verdict, stages and notes.
#[derive(Debug, PartialEq, Eq)]
pub struct E2ePackReport {
    pub pack: String,
    pub version: String,
    pub status: StageStatus,
    pub stages: E2eStages,
    pub diagnostics: Vec<String>,
}

/// Stops a pack before its stages when it cannot be tested: without a
/// manifest (reported under its path and version `0.0.0`), with a load
/// error, or without provider extensions (failing its requirements).
pub fn e2e_precheck(
    path: &str,
    manifest: Option<(&str, &str)>,
    load_error: Option<&str>,
    extensions_empty: bool,
) -> (r: Option<E2ePackReport>)
    ensures
        match manifest {
            None => r matches Some(rep) && rep.pack@ == path@ && rep.version@ == "0.0.0"@
                && rep.status is Fail && !any_failed(rep.stages) && views(rep.diagnostics@)
                == seq!["pack manifest unavailable"@],
            Some((id, version)) => match load_error {
                Some(e) => r matches Some(rep) && rep.pack@ == id@ && rep.version@ == version@
                    && rep.status is Fail && !any_failed(rep.stages) && views(rep.diagnostics@)
                    == seq!["pack load error: "@ + e@],
                None => if extensions_empty {
                    r matches Some(rep) && rep.pack@ == id@ && rep.version@ == version@
                        && rep.status is Fail && rep.stages == (E2eStages {
                        requirements: StageStatus::Fail,
                        ..E2eStages::skipped_spec()
                    }) && views(rep.diagnostics@) == seq!["no messaging provider extensions found"@]
                } else {
                    r is None
                },
            },
        },
{
    let mut diags: Vec<String> = Vec::new();
    let stages = E2eStages::skipped();
    match manifest {
        None => {
            diags.push(owned("pack manifest unavailable"));
            proof {
                assert(views(diags@) =~= seq!["pack manifest unavailable"@]);
            }
            Some(
                E2ePackReport {
                    pack: owned(path),
                    version: owned("0.0.0"),
                    status: StageStatus::Fail,
                    stages,
                    diagnostics: diags,
                },
            )
        },
        Some((id, version)) => match load_error {
            Some(e) => {
                diags.push(concat2("pack load error: ", e));
                proof {
                    assert(views(diags@) =~= seq!["pack load error: "@ + e@]);
                }
                Some(
                    E2ePackReport {
                        pack: owned(id),
                        version: owned(version),
                        status: StageStatus::Fail,
                        stages,
                        diagnostics: diags,
                    },
                )
            },
            None => {
                if extensions_empty {
                    diags.push(owned("no messaging provider extensions found"));
                    let mut st = stages;
                    st.requirements = StageStatus::Fail;
                    proof {
                        assert(views(diags@) =~= seq!["no messaging provider extensions found"@]);
                    }
                    Some(
                        E2ePackReport {
                            pack: owned(id),
                            version: owned(version),
                            status: StageStatus::Fail,
                            stages: st,
                            diagnostics: diags,
                        },
                    )
                } else {
                    None
                }
            },
        },
    }
}

/// The HMAC-SHA256 tag of a message under a key.
pub uninterp spec fn hmac_sha256_tag(key: Seq<u8>, message: Seq<u8>) -> Seq<u8>;

/// The standard base64 text, with padding, of some bytes.
pub uninterp spec fn b64_standard_text(bytes: Seq<u8>) -> Seq<char>;

/// Computes an HMAC-SHA256 tag with the `hmac` and `sha2` crates; the tag
/// is named by `hmac_sha256_tag` and is 32 bytes long, the SHA-256 output
/// size. HMAC takes keys of any length, so keying never fails.
#[verifier::external_body]
fn hmac_sha256(key: &[u8], message: &[u8]) -> (r: Vec<u8>)
    ensures
        r@ == hmac_sha256_tag(key@, message@),
        r@.len() == 32,
{
    let mut mac = hmac::Hmac::<sha2::Sha256>::new_from_slice(key).expect("hmac accepts any key length");
    mac.update(message);
    mac.finalize().into_bytes().to_vec()
}

/// Encodes bytes with `base64`'s `STANDARD` engine (padded); the text is
/// named by `b64_standard_text`.
#[verifier::external_body]
fn b64_standard_encode(bytes: &[u8]) -> (r: String)
    ensures
        r@ == b64_standard_text(bytes@),
{
    base64::engine::general_purpose::STANDARD.encode(bytes)
}

/// The secret an ingress request is signed with: the install's
/// `webhook_secret`, else `secret`.
pub open spec fn signing_secret(secrets: crate::strmap::StrMap<String>) -> Seq<char> {
    match secrets.lookup("webhook_secret"@) {
        Some(v) => v@,
        None => "secret"@,
    }
}

/// The `x-signature` an ingress request of an end-to-end run carries when
/// its provider validates webhooks: the base64 HMAC-SHA256 of the request
/// body under the signing secret; none when it does not validate them.
pub fn ingress_signature(secrets: &crate::strmap::StrMap<String>, webhook_validation: bool, body: &[u8]) -> (r:
    Option<String>)
    ensures
        webhook_validation ==> (r matches Some(s) && s@ == b64_standard_text(
            hmac_sha256_tag(vstd::utf8::encode_utf8(signing_secret(*secrets)), body@),
        )),
        !webhook_validation ==> r is None,
{
    if !webhook_validation {
        return None;
    }
    let key: &str = match secrets.get("webhook_secret") {
        Some(v) => v.as_str(),
        None => "secret",
    };
    let tag = hmac_sha256(key.as_bytes(), body);
    Some(b64_standard_encode(tag.as_slice()))
}

/// The setup answers a provisioning plan is given: the `answers` object of
/// the setup input, when it has members.
pub open spec fn plan_answers(setup_input: Json) -> Option<Json> {
    match crate::subscriptions::object_lookup(setup_input, "answers"@) {
        Some(Json::Object(m)) => if m.items().len() > 0 {
            Some(Json::Object(m))
        } else {
            None
        },
        _ => None,
    }
}

/// The arguments of a provisioning dry run in an end-to-end run: the
/// action, provider, install, pack, environment, tenant and public base
/// URL, `--dry-run`, then the team when there is one and the setup answers
/// as compact JSON when there are any.
pub open spec fn provision_plan_args_of(
    action: Seq<char>,
    provider_id: Seq<char>,
    install_id: Seq<char>,
    pack_path: Seq<char>,
    env: Seq<char>,
    tenant: Seq<char>,
    team: Option<Seq<char>>,
    public_base_url: Seq<char>,
    setup_input: Json,
) -> Seq<Seq<char>> {
    seq![
        action,
        provider_id,
        "--install-id"@,
        install_id,
        "--pack"@,
        pack_path,
        "--env"@,
        env,
        "--tenant"@,
        tenant,
        "--public-base-url"@,
        public_base_url,
        "--dry-run"@,
    ] + match team {
        Some(t) => seq!["--team"@, t],
        None => Seq::empty(),
    } + match plan_answers(setup_input) {
        Some(a) => seq!["--answers"@, crate::json::json_text(a)],
        None => Seq::empty(),
    }
}

fn push_arg(out: &mut Vec<String>, t: &str)
    ensures
        views(final(out)@) == views(old(out)@).push(t@),
{
    let ghost before = out@;
    out.push(owned(t));
    proof {
        assert(views(out@) =~= views(before).push(t@));
    }
}

/// The arguments of a provisioning dry run.
pub fn provision_plan_args(
    action: &str,
    provider_id: &str,
    install_id: &str,
    pack_path: &str,
    env: &str,
    tenant: &str,
    team: Option<&str>,
    public_base_url: &str,
    setup_input: &Json,
) -> (r: Vec<String>)
    ensures
        views(r@) == provision_plan_args_of(
            action@,
            provider_id@,
            install_id@,
            pack_path@,
            env@,
            tenant@,
            match team {
                Some(t) => Some(t@),
                None => None,
            },
            public_base_url@,
            *setup_input,
        ),
{
    let mut v: Vec<String> = Vec::new();
    push_arg(&mut v, action);
    push_arg(&mut v, provider_id);
    push_arg(&mut v, "--install-id");
    push_arg(&mut v, install_id);
    push_arg(&mut v, "--pack");
    push_arg(&mut v, pack_path);
    push_arg(&mut v, "--env");
    push_arg(&mut v, env);
    push_arg(&mut v, "--tenant");
    push_arg(&mut v, tenant);
    push_arg(&mut v, "--public-base-url");
    push_arg(&mut v, public_base_url);
    push_arg(&mut v, "--dry-run");
    let ghost base = views(v@);
    match team {
        Some(t) => {
            push_arg(&mut v, "--team");
            push_arg(&mut v, t);
        },
        None => {},
    }
    let ghost mid = views(v@);
    match setup_input {
        Json::Object(m) => match m.get("answers") {
            Some(a) => match a {
                Json::Object(am) => {
                    if am.len() > 0 {
                        push_arg(&mut v, "--answers");
                        let text = crate::json::to_json_text(a);
                        push_arg(&mut v, text.as_str());
                    }
                },
                _ => {},
            },
            None => {},
        },
        _ => {},
    }
    proof {
        assert(views(v@) =~= provision_plan_args_of(
            action@,
            provider_id@,
            install_id@,
            pack_path@,
            env@,
            tenant@,
            match team {
                Some(t) => Some(t@),
                None => None,
            },
            public_base_url@,
            *setup_input,
        ));
    }
    v
}

/// The message when two provisioning plans of one action differ.
pub open spec fn nondeterministic_message(action: Seq<char>) -> Seq<char> {
    "provision "@ + action + " output is nondeterministic"@
}

/// Accepts a provisioning plan only when a second run produced the same
/// JSON text; otherwise notes and returns the error.
pub fn provision_deterministic(action: &str, first: Json, second: &Json, diagnostics: &mut Vec<String>) -> (r:
    Result<Json, String>)
    ensures
        crate::json::json_text(first) == crate::json::json_text(*second) ==> r == Ok::<Json, String>(first)
            && views(final(diagnostics)@) == views(old(diagnostics)@),
        crate::json::json_text(first) != crate::json::json_text(*second) ==> (r matches Err(e) && e@
            == nondeterministic_message(action@)) && views(final(diagnostics)@) == views(old(diagnostics)@).push(
            nondeterministic_message(action@),
        ),
{
    let a = crate::json::to_json_text(&first);
    let b = crate::json::to_json_text(second);
    if str_eq(a.as_str(), b.as_str()) {
        Ok(first)
    } else {
        let mut m = concat2("provision ", action);
        push_str(&mut m, " output is nondeterministic");
        let ghost before = diagnostics@;
        diagnostics.push(m.clone());
        proof {
            assert(views(diagnostics@) =~= views(before).push(m@));
        }
        Err(m)
    }
}

} // verus!
