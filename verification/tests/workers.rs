use greentic_messaging::bus::InMemoryBusClient;
use greentic_messaging::json::{plan_contains_keyword, Json};
use greentic_messaging::platform::{infer_platform_from_tokens, Platform};
use greentic_messaging::strmap::StrMap;
use greentic_messaging::subscriptions::{
    backoff_delay_secs, clear_subscription_error, default_install_store_path,
    mark_subscription_error, public_base_url, sync_args, sync_decision, synced_state,
    FailureState, FailureTable, InstallKey, SyncDecision, WorkerConfig,
};

fn key(install: &str) -> InstallKey {
    InstallKey {
        env: "dev".to_string(),
        tenant: "acme".to_string(),
        team: None,
        provider_id: "messaging.teams".to_string(),
        install_id: install.to_string(),
    }
}

fn object(members: Vec<(&str, Json)>) -> Json {
    let mut m = StrMap::new();
    for (k, v) in members {
        m.insert(k.to_string(), v);
    }
    Json::Object(m)
}

fn member<'a>(v: &'a Json, k: &str) -> Option<&'a Json> {
    match v {
        Json::Object(m) => m.get(k),
        _ => None,
    }
}

#[test]
fn backoff_doubles_and_caps() {
    assert_eq!(backoff_delay_secs(0), 30);
    assert_eq!(backoff_delay_secs(1), 30);
    assert_eq!(backoff_delay_secs(2), 60);
    assert_eq!(backoff_delay_secs(3), 120);
    assert_eq!(backoff_delay_secs(6), 960);
    assert_eq!(backoff_delay_secs(7), 1800);
    assert_eq!(backoff_delay_secs(40), 1800);
}

#[test]
fn failure_table_counts_and_clears() {
    let mut table = FailureTable::new();
    let a = key("install-a");
    assert!(table.get(&a).is_none());
    assert_eq!(table.record_failure(&a, 1_000), 1);
    assert_eq!(table.get(&a).unwrap().next_attempt_ms, 31_000);
    assert_eq!(table.record_failure(&a, 2_000), 2);
    assert_eq!(table.get(&a).unwrap().next_attempt_ms, 62_000);
    assert!(table.get(&key("install-b")).is_none());
    table.clear(&a);
    assert!(table.get(&a).is_none());

    let mut f = FailureState::new(5);
    f.record_failure(u64::MAX - 1);
    assert_eq!(f.count, 1);
    assert_eq!(f.next_attempt_ms, u64::MAX);
}

#[test]
fn sync_decisions() {
    let waiting = FailureState {
        count: 1,
        next_attempt_ms: 100,
    };
    assert_eq!(
        sync_decision(false, true, None, 0, false),
        SyncDecision::SkipNoSubscriptions
    );
    assert_eq!(
        sync_decision(true, false, None, 0, false),
        SyncDecision::SkipMissingPack
    );
    assert_eq!(
        sync_decision(true, true, Some(&waiting), 50, false),
        SyncDecision::SkipBackoff
    );
    assert_eq!(
        sync_decision(true, true, Some(&waiting), 50, true),
        SyncDecision::Run
    );
    assert_eq!(
        sync_decision(true, true, Some(&waiting), 100, false),
        SyncDecision::Run
    );
}

#[test]
fn provision_arguments() {
    let args = sync_args(
        "messaging.teams",
        "install-a",
        "/packs/messaging-teams.gtpack",
        "dev",
        "acme",
        "https://example.invalid",
        Some("support"),
        true,
    );
    assert_eq!(
        args,
        vec![
            "sync-subscriptions",
            "messaging.teams",
            "--install-id",
            "install-a",
            "--pack",
            "/packs/messaging-teams.gtpack",
            "--env",
            "dev",
            "--tenant",
            "acme",
            "--public-base-url",
            "https://example.invalid",
            "--team",
            "support",
            "--dry-run",
        ]
    );
}

#[test]
fn sync_cycle_marks_degraded_after_failures() {
    let mut metadata = object(vec![("keep", Json::Bool(true))]);
    mark_subscription_error(&mut metadata, 2, "boom", "t1");
    assert_eq!(member(&metadata, "subscriptions_degraded"), Some(&Json::Bool(false)));
    mark_subscription_error(&mut metadata, 3, "boom", "t2");
    assert_eq!(member(&metadata, "subscriptions_degraded"), Some(&Json::Bool(true)));
    assert_eq!(
        member(&metadata, "subscriptions_failure_count"),
        Some(&Json::Number("3".to_string()))
    );
    assert_eq!(
        member(&metadata, "subscriptions_last_failure"),
        Some(&Json::Str("t2".to_string()))
    );
    clear_subscription_error(&mut metadata);
    assert_eq!(member(&metadata, "subscriptions_degraded"), None);
    assert_eq!(member(&metadata, "keep"), Some(&Json::Bool(true)));
}

#[test]
fn sync_cycle_updates_subscriptions_state() {
    let plan = object(vec![("subscriptions", Json::Array(Vec::new()))]);
    let state = synced_state("2024-01-01T00:00:00Z", plan);
    assert_eq!(
        member(&state, "last_sync"),
        Some(&Json::Str("2024-01-01T00:00:00Z".to_string()))
    );
    assert!(member(&state, "plan").is_some());
}

#[test]
fn worker_settings() {
    let cfg = WorkerConfig::from_config("/home/g", "dev", None);
    assert_eq!(cfg.packs_root, "/home/g/packs");
    assert_eq!(cfg.provision_bin, "greentic-provision");
    assert_eq!(cfg.sync_interval_secs, 900);
    assert!(!cfg.dry_run);
    assert_eq!(
        default_install_store_path("/home/g", true),
        Some("/home/g/.greentic/dev/installs.json".to_string())
    );
    assert_eq!(default_install_store_path("/home/g", false), None);
    let meta = object(vec![("public_base_url", Json::Str("https://x.dev".to_string()))]);
    assert_eq!(public_base_url(&meta), "https://x.dev");
    assert_eq!(public_base_url(&Json::Null), "https://example.invalid");
}

#[test]
fn plan_keywords_are_found_case_insensitively() {
    let plan = object(vec![(
        "steps",
        Json::Array(vec![Json::Str("Register WEBHOOK".to_string()), Json::Number("1".to_string())]),
    )]);
    assert!(plan_contains_keyword(&plan, "webhook"));
    assert!(!plan_contains_keyword(&plan, "subscription"));
}

#[test]
fn published_messages_are_taken_in_order() {
    let mut bus = InMemoryBusClient::new();
    bus.publish_value("a", Json::Null).unwrap();
    bus.publish_value("b", Json::Bool(true)).unwrap();
    let taken = bus.take_published();
    assert_eq!(taken.len(), 2);
    assert_eq!(taken[0].0, "a");
    assert_eq!(taken[1], ("b".to_string(), Json::Bool(true)));
    assert!(bus.take_published().is_empty());
}

#[test]
fn platform_names() {
    for p in [
        Platform::Slack,
        Platform::Teams,
        Platform::Telegram,
        Platform::WhatsApp,
        Platform::WebChat,
        Platform::Webex,
    ] {
        assert_eq!(Platform::from_name(p.as_str()), Some(p));
    }
    assert_eq!(Platform::from_name("Slack"), None);
    assert_eq!(infer_platform_from_tokens("My-Slack-Adapter"), Some(Platform::Slack));
    assert_eq!(infer_platform_from_tokens("email"), None);
}
