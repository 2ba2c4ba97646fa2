use greentic_messaging::e2e::{provision_deterministic, provision_plan_args};
use greentic_messaging::strmap::StrMap;
use greentic_messaging::json::{to_json_text, Json};
use greentic_messaging::platform::Platform;
use greentic_messaging::test_cli::{default_whatsapp_payload, fixture_chat_id, next_value};
use greentic_messaging::conformance::{
    conformance_report_lines, egress_step, load_error_report, setup_skipped, ConformanceStatus,
};
use greentic_messaging::e2e::{
    check_live_env, effective_dry_run, pack_matches_filter, required_note, settle_stage,
    setup_flow_id, subscriptions_flow_id, summarize, E2eOptions, E2eStages, StageFlow,
    StageStatus,
};
use greentic_messaging::test_cli::{
    adapter_mode, adapter_token_vars, basic_send, fixture_action, target_status, AdapterConfig,
    AdapterMode, FixtureAction,
};

fn options(dry_run: bool, live: bool) -> E2eOptions {
    E2eOptions {
        packs_dir: "dist/packs".to_string(),
        provider: None,
        report: None,
        dry_run,
        live,
        trace: false,
    }
}

fn flow(id: &str, entrypoints: &[&str]) -> StageFlow {
    StageFlow {
        id: id.to_string(),
        entrypoints: entrypoints.iter().map(|e| e.to_string()).collect(),
        entry_values: Vec::new(),
    }
}

#[test]
fn e2e_dry_run_rules() {
    assert_eq!(effective_dry_run(&options(true, false)), Ok(true));
    assert_eq!(effective_dry_run(&options(true, true)), Ok(false));
    assert_eq!(
        effective_dry_run(&options(false, false)),
        Err("--dry-run=false requires --live for safety".to_string())
    );
    assert_eq!(check_live_env("true", "true"), Ok(()));
    assert!(check_live_env("true", "false").is_err());
}

#[test]
fn e2e_stages_and_summary() {
    let mut stages = E2eStages::skipped();
    assert_eq!(stages.overall(), StageStatus::Pass);
    stages.egress = StageStatus::Fail;
    assert_eq!(stages.overall(), StageStatus::Fail);
    let summary = summarize(&vec![StageStatus::Pass, StageStatus::Fail, StageStatus::Pass]);
    assert_eq!((summary.total, summary.passed, summary.failed), (3, 2, 1));

    let mut diagnostics = Vec::new();
    let s = settle_stage("setup", Err("timeout".to_string()), &mut diagnostics);
    assert_eq!(s, StageStatus::Fail);
    assert_eq!(diagnostics, vec!["setup failed: timeout".to_string()]);
    assert_eq!(required_note("public url", true), "public url required: yes");
    assert_eq!(StageStatus::Skip.as_str(), "skip");
}

#[test]
fn e2e_flow_and_filter_selection() {
    let flows = vec![flow("main", &[]), flow("setup-bootstrap", &[]), flow("teams-subscriptions-sync", &[])];
    assert_eq!(setup_flow_id(&flows), Some("setup-bootstrap".to_string()));
    assert_eq!(
        subscriptions_flow_id(&flows),
        Some("teams-subscriptions-sync".to_string())
    );
    let by_entry = vec![flow("x", &["setup"])];
    assert_eq!(setup_flow_id(&by_entry), Some("x".to_string()));
    assert!(pack_matches_filter(Some("messaging.Slack"), None, "SLACK"));
    assert!(pack_matches_filter(None, Some("messaging-teams.gtpack"), "teams"));
    assert!(!pack_matches_filter(Some("messaging.slack"), None, "teams"));
}

#[test]
fn conformance_reports() {
    let report = load_error_report("bad.gtpack", "not a zip".to_string());
    assert!(!report.is_success());
    assert_eq!(report.steps[0].status, ConformanceStatus::Failed);
    assert_eq!(
        conformance_report_lines(&report),
        vec![
            "Pack bad.gtpack (bad.gtpack)".to_string(),
            "  conformance:".to_string(),
            "    - requirements: failed".to_string(),
            "      - not a zip".to_string(),
        ]
    );
    let skipped = setup_skipped();
    assert_eq!(skipped.status, ConformanceStatus::Skipped);
    let egress = egress_step(&vec![
        ("slack".to_string(), Ok(())),
        ("teams".to_string(), Err("refused".to_string())),
    ]);
    assert_eq!(egress.status, ConformanceStatus::Failed);
    assert_eq!(
        egress.details,
        vec!["slack invoked (dry-run)".to_string(), "teams failed: refused".to_string()]
    );
}

#[test]
fn adapters_and_fixture_commands() {
    let cfg = AdapterConfig::load(false);
    assert_eq!(adapter_mode(&cfg, None), AdapterMode::Real);
    assert_eq!(adapter_mode(&cfg, Some(true)), AdapterMode::DryRun);
    let sent = basic_send(AdapterMode::DryRun).unwrap();
    assert!(sent.ok);
    assert_eq!(sent.message_id.as_deref(), Some("dry-run"));
    assert_eq!(
        basic_send(AdapterMode::Real),
        Err("real send not implemented".to_string())
    );
    assert_eq!(
        target_status(Err("SLACK_BOT_TOKEN")),
        (false, Some("missing env: SLACK_BOT_TOKEN".to_string()))
    );
    assert_eq!(adapter_token_vars()[2], ("slack", "SLACK_BOT_TOKEN"));
    assert_eq!(fixture_action("n", 2, 3), FixtureAction::Move(0));
    assert_eq!(fixture_action("p", 0, 3), FixtureAction::Move(2));
    assert_eq!(fixture_action("", 1, 3), FixtureAction::Send);
    assert_eq!(fixture_action("zz", 1, 3), FixtureAction::Unknown("zz".to_string()));
}

#[test]
fn ingress_requests_are_signed_with_the_webhook_secret() {
    let mut secrets = greentic_messaging::strmap::StrMap::new();
    secrets.insert("webhook_secret".to_string(), "Jefe".to_string());
    assert_eq!(
        greentic_messaging::e2e::ingress_signature(&secrets, true, b"what do ya want for nothing?"),
        Some("W9zBRr9gdU5qBCQmCJV1x1oAPwidJzmDnexYuWTsOEM=".to_string())
    );
    assert_eq!(greentic_messaging::e2e::ingress_signature(&secrets, false, b"x"), None);
    let none = greentic_messaging::strmap::StrMap::new();
    let with_default = greentic_messaging::e2e::ingress_signature(&none, true, b"{}").expect("signature");
    let mut explicit = greentic_messaging::strmap::StrMap::new();
    explicit.insert("webhook_secret".to_string(), "secret".to_string());
    assert_eq!(Some(with_default), greentic_messaging::e2e::ingress_signature(&explicit, true, b"{}"));
}

#[test]
fn fixture_adapters_translate_for_fixture_chats() {
    assert_eq!(fixture_chat_id(Platform::WebChat), "fixture-webchat");
    assert_eq!(
        to_json_text(&default_whatsapp_payload()),
        r#"{"text":{"body":"fixture payload"},"type":"whatsapp"}"#
    );
    assert_eq!(next_value(Ok(vec![Json::Null, Json::Bool(true)])), Ok(Json::Null));
    assert_eq!(next_value(Ok(vec![])), Err("no payloads produced".to_string()));
    assert_eq!(next_value(Err("boom".to_string())), Err("boom".to_string()));
}

fn strs(items: &[&str]) -> Vec<String> {
    items.iter().map(|s| s.to_string()).collect()
}

#[test]
fn provision_plans_are_asked_for_as_dry_runs() {
    let mut answers = StrMap::new();
    answers.insert("region".to_string(), Json::Str("eu".to_string()));
    let mut input = StrMap::new();
    input.insert("answers".to_string(), Json::Object(answers));
    let input = Json::Object(input);
    assert_eq!(
        provision_plan_args("setup", "messaging.slack", "inst-1", "p.gtpack", "dev", "acme", Some("ops"), "https://x", &input),
        strs(&[
            "setup", "messaging.slack", "--install-id", "inst-1", "--pack", "p.gtpack", "--env", "dev",
            "--tenant", "acme", "--public-base-url", "https://x", "--dry-run", "--team", "ops",
            "--answers", r#"{"region":"eu"}"#,
        ])
    );
    let mut empty = StrMap::new();
    empty.insert("answers".to_string(), Json::Object(StrMap::new()));
    assert_eq!(
        provision_plan_args("requirements", "p", "i", "f", "dev", "t", None, "u", &Json::Object(empty)),
        strs(&["requirements", "p", "--install-id", "i", "--pack", "f", "--env", "dev", "--tenant", "t", "--public-base-url", "u", "--dry-run"])
    );
}

#[test]
fn differing_provision_plans_are_refused() {
    let mut notes = Vec::new();
    assert_eq!(provision_deterministic("setup", Json::Bool(true), &Json::Bool(true), &mut notes), Ok(Json::Bool(true)));
    assert!(notes.is_empty());
    assert_eq!(
        provision_deterministic("setup", Json::Bool(true), &Json::Null, &mut notes),
        Err("provision setup output is nondeterministic".to_string())
    );
    assert_eq!(notes, strs(&["provision setup output is nondeterministic"]));
}
