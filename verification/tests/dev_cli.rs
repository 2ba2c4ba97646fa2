use greentic_messaging::dev_cli::{
    adapter_section_lines, apply_provision_plan, build_serve_envs, dedupe_pack_paths,
    default_dev_config, default_install_id, dev_public_base_url, dev_setup_preflight,
    dev_up_dry_run_lines, dev_up_envs, dry_run_cargo_line, extract_public_url,
    flows_section_lines, format_adapter, format_env_prefix, gateway_port, guard_line,
    guard_rails_lines, infer_platform_from_provider_type, pack_service_packages, parse_port,
    parse_truthy, provider_hint_lines, resolve_dev_context, resolve_public_base_url,
    select_provider_pack, serve_platform, sort_by_key, sorted_unique, split_tokens,
    test_command_args, AdapterKind, AdapterSummary, DevInstallStore, DevTunnel, FlowSummary,
    GuardRailSettings, HintSet, PackFlowsSummary, ProviderFlowHints, ProviderInstallState,
    Separator, ServeEnvConfig, ServeKind, TestCommand,
};
use greentic_messaging::dev_cli::{dry_run_package_line, serve_package};
use greentic_messaging::dev_cli::{e2e_install_state, guard_rails_sample_lines, new_dev_install_state, DevContext};
use greentic_messaging::json::{to_json_text, Json};
use greentic_messaging::strmap::StrMap;
use greentic_messaging::subscriptions::InstallKey;

fn object(members: Vec<(&str, Json)>) -> Json {
    let mut m = StrMap::new();
    for (k, v) in members {
        m.insert(k.to_string(), v);
    }
    Json::Object(m)
}

fn text(s: &str) -> Json {
    Json::Str(s.to_string())
}

fn empty_state() -> ProviderInstallState {
    ProviderInstallState {
        config: StrMap::new(),
        secrets: StrMap::new(),
        config_refs: StrMap::new(),
        secret_refs: StrMap::new(),
        webhook_state: object(Vec::new()),
        subscriptions_state: object(Vec::new()),
        metadata: object(Vec::new()),
    }
}

fn member<'a>(v: &'a Json, k: &str) -> Option<&'a Json> {
    match v {
        Json::Object(m) => m.get(k),
        _ => None,
    }
}

fn serve_config(pack: Vec<&str>, no_default_packs: bool) -> ServeEnvConfig {
    ServeEnvConfig {
        env_scope: "dev".to_string(),
        tenant: "acme".to_string(),
        team: "default".to_string(),
        nats_url: "nats://127.0.0.1:4222".to_string(),
        packs_root: "packs".to_string(),
        pack: pack.into_iter().map(str::to_string).collect(),
        no_default_packs,
        adapter_override: None,
    }
}

fn key(install: &str) -> InstallKey {
    InstallKey {
        env: "dev".to_string(),
        tenant: "acme".to_string(),
        team: Some("default".to_string()),
        provider_id: "messaging.slack.bot".to_string(),
        install_id: install.to_string(),
    }
}

#[test]
fn apply_provision_plan_populates_state() {
    let mut state = empty_state();
    let plan = object(vec![
        ("config", object(vec![("base_url", text("https://example.invalid"))])),
        ("secrets", object(vec![("token", text("secret"))])),
        ("config_refs", object(vec![("base_url", text("state:base_url"))])),
        ("secret_refs", object(vec![("token", text("secrets:token"))])),
        ("webhook_state", object(vec![("signature_header", text("x-signature"))])),
        ("subscriptions_state", object(vec![("last_sync", text("now"))])),
        (
            "metadata",
            object(vec![("routing", object(vec![("platform", text("slack"))]))]),
        ),
    ]);

    apply_provision_plan(plan, &mut state);

    assert_eq!(
        state.config.get("base_url"),
        Some(&text("https://example.invalid"))
    );
    assert_eq!(state.secrets.get("token"), Some(&"secret".to_string()));
    assert_eq!(
        state.config_refs.get("base_url").map(String::as_str),
        Some("state:base_url")
    );
    assert_eq!(
        state.secret_refs.get("token").map(String::as_str),
        Some("secrets:token")
    );
    assert_eq!(
        member(&state.webhook_state, "signature_header"),
        Some(&text("x-signature"))
    );
    assert_eq!(
        member(&state.subscriptions_state, "last_sync"),
        Some(&text("now"))
    );
    assert!(member(&state.metadata, "routing").is_some());
}

#[test]
fn plan_defaults_references_and_serialises_secrets() {
    let mut state = empty_state();
    state.metadata = Json::Null;
    let plan = object(vec![
        ("config", object(vec![("region", text("eu"))])),
        (
            "secrets",
            object(vec![(
                "creds",
                object(vec![("id", Json::Number("7".to_string())), ("k", text("a\"b"))]),
            )]),
        ),
        ("webhook", object(vec![("path", text("/hook"))])),
        ("metadata", object(vec![("n", Json::Bool(true))])),
    ]);
    apply_provision_plan(plan, &mut state);
    assert_eq!(state.config_refs.get("region").map(String::as_str), Some("state:region"));
    assert_eq!(state.secret_refs.get("creds").map(String::as_str), Some("secrets:creds"));
    assert_eq!(
        state.secrets.get("creds").map(String::as_str),
        Some(r#"{"id":7,"k":"a\"b"}"#)
    );
    assert_eq!(member(&state.webhook_state, "path"), Some(&text("/hook")));
    assert_eq!(member(&state.metadata, "n"), Some(&Json::Bool(true)));

    let mut unchanged = empty_state();
    apply_provision_plan(Json::Null, &mut unchanged);
    assert_eq!(unchanged, empty_state());
}

#[test]
fn json_text_matches_serde_json() {
    let v = object(vec![
        ("b", Json::Array(vec![Json::Null, Json::Bool(false), Json::Number("1.5".to_string())])),
        ("a", text("tab\there\u{1}\\")),
    ]);
    let expected: serde_json::Value = serde_json::from_str(
        r#"{"a": "tab\there\u0001\\", "b": [null, false, 1.5]}"#,
    )
    .unwrap();
    assert_eq!(to_json_text(&v), serde_json::to_string(&expected).unwrap());
}

#[test]
fn dev_up_dry_run() {
    let envs = dev_up_envs(&serve_config(Vec::new(), false), "http://localhost:8080");
    let lines = dev_up_dry_run_lines(&envs, false).join("\n");
    assert!(lines.contains("cargo run -p gsm-gateway"), "{lines}");
    assert!(lines.contains("cargo run -p gsm-runner"), "{lines}");
    assert!(lines.contains("cargo run -p gsm-egress"), "{lines}");
    assert!(lines.contains("PUBLIC_BASE_URL=http://localhost:8080"), "{lines}");
    assert_eq!(dev_up_dry_run_lines(&envs, true).len(), 4);
}

#[test]
fn serve_ingress_with_pack_sets_env() {
    let envs = build_serve_envs(&serve_config(vec!["a.gtpack", "b.gtpack"], true));
    assert!(envs.contains(&(
        "MESSAGING_ADAPTER_PACK_PATHS".to_string(),
        "a.gtpack,b.gtpack".to_string()
    )));
    assert!(envs.contains(&(
        "MESSAGING_INSTALL_ALL_DEFAULT_ADAPTER_PACKS".to_string(),
        "false".to_string()
    )));
    assert_eq!(envs[0], ("GREENTIC_ENV".to_string(), "dev".to_string()));
    assert_eq!(
        format_env_prefix(&vec![("A".to_string(), "1".to_string()), ("B".to_string(), "x".to_string())]),
        "env A=1 B=x "
    );
    assert_eq!(
        dry_run_cargo_line(&Vec::new(), "gsm-gateway", &vec!["--flag".to_string()]),
        "(dry-run) cargo run -p gsm-gateway -- --flag"
    );
}

#[test]
fn serve_kinds_need_platforms_and_packages() {
    assert_eq!(serve_platform(ServeKind::Pack, None), Ok(None));
    assert_eq!(
        serve_platform(ServeKind::Ingress, None),
        Err("missing platform (e.g. slack, teams)".to_string())
    );
    assert_eq!(
        pack_service_packages(true, false, &vec!["teams".to_string()]),
        Ok(vec!["gsm-gateway".to_string(), "gsm-subscriptions-teams".to_string()])
    );
    assert_eq!(
        pack_service_packages(false, false, &vec!["slack".to_string()]),
        Err("no services selected from pack adapters".to_string())
    );
}

#[test]
fn flags_ports_and_urls() {
    assert!(parse_truthy(" YES "));
    assert!(parse_truthy("1"));
    assert!(!parse_truthy("nope"));
    assert_eq!(parse_port("+8081"), Some(8081));
    assert_eq!(parse_port("65536"), None);
    assert_eq!(parse_port("80a"), None);
    assert_eq!(parse_port(""), None);
    assert_eq!(gateway_port(Some("9000")), 9000);
    assert_eq!(gateway_port(Some("bad")), 8080);
    assert_eq!(
        resolve_public_base_url(None, None, Some("9000")),
        "http://localhost:9000"
    );
    assert_eq!(
        resolve_public_base_url(None, Some("https://x.dev".to_string()), None),
        "https://x.dev"
    );
    assert_eq!(
        dev_public_base_url(DevTunnel::Cloudflared, true, Some("https://t".to_string()), "l".to_string()),
        "l"
    );
    assert_eq!(
        dev_public_base_url(DevTunnel::Cloudflared, false, Some("https://t".to_string()), "l".to_string()),
        "https://t"
    );
}

#[test]
fn tunnel_urls_are_found_in_output() {
    assert_eq!(
        extract_public_url("INF |  https://quiet-sun.trycloudflare.com  |"),
        Some("https://quiet-sun.trycloudflare.com".to_string())
    );
    assert_eq!(
        extract_public_url("url=\"https://a.cloudflare.com\"; done"),
        None
    );
    assert_eq!(
        extract_public_url("see \"https://a.cloudflare.com\", ok"),
        None
    );
    assert_eq!(
        extract_public_url("see https://a.cloudflare.com\", ok"),
        Some("https://a.cloudflare.com".to_string())
    );
    assert_eq!(extract_public_url("https://example.com"), None);
    assert_eq!(
        split_tokens("  a  bc\td ", Separator::Whitespace),
        vec!["a".to_string(), "bc".to_string(), "d".to_string()]
    );
}

#[test]
fn install_ids_and_context() {
    assert_eq!(default_install_id("Messaging.Slack Bot!"), "dev-messaging.slack-bot-");
    let ctx = resolve_dev_context(None, Some("acme".to_string()), None, default_dev_config());
    assert_eq!(ctx.env, "dev");
    assert_eq!(ctx.tenant, "acme");
    assert_eq!(ctx.team, "default");
    assert_eq!(
        dev_setup_preflight(true, true, 1),
        Err("--delete cannot be combined with --update".to_string())
    );
    assert_eq!(
        dev_setup_preflight(false, false, 0),
        Err("no packs available; add --pack or configure default packs".to_string())
    );
}

#[test]
fn dev_setup_writes_install_record_in_dry_run() {
    let mut store: DevInstallStore<u32> = DevInstallStore::new();
    assert_eq!(store.upsert_install_record(key("dev-messaging.slack.bot"), 1, false), Ok(()));
    assert_eq!(store.get(&key("dev-messaging.slack.bot")), Some(&1));
    assert_eq!(
        store.upsert_install_record(key("dev-messaging.slack.bot"), 2, false),
        Err("install record already exists (use --update to overwrite)".to_string())
    );
    assert_eq!(store.get(&key("dev-messaging.slack.bot")), Some(&1));
    assert_eq!(store.upsert_install_record(key("dev-messaging.slack.bot"), 3, true), Ok(()));
    assert_eq!(store.get(&key("dev-messaging.slack.bot")), Some(&3));
    assert_eq!(store.upsert_install_record(key("other"), 4, false), Ok(()));
    assert!(store.delete_install_record(&key("dev-messaging.slack.bot")));
    assert!(!store.delete_install_record(&key("dev-messaging.slack.bot")));
    assert_eq!(store.get(&key("other")), Some(&4));
    assert_eq!(store.states.len(), 1);
}

#[test]
fn info_lists_provider_flow_hints_and_missing_annotation() {
    let set = HintSet {
        setup_default: Some("hint-setup".to_string()),
        setup_custom: None,
        reconfigure: None,
        diagnostics: Some("hint-missing".to_string()),
        verify_webhooks: None,
        rotate_credentials: None,
    };
    let hints = provider_hint_lines(&set, &vec!["hint-setup".to_string()]);
    assert_eq!(hints.len(), 2);
    assert!(!hints[0].missing);
    assert!(hints[1].missing);
    let mut by_provider = StrMap::new();
    by_provider.insert(
        "messaging.slack.api".to_string(),
        vec![ProviderFlowHints {
            pack_label: "cli.provider.hints".to_string(),
            hints,
        }],
    );
    let adapters = vec![AdapterSummary {
        name: "messaging.slack.api".to_string(),
        kind: AdapterKind::IngressEgress,
        component: "slack-adapter".to_string(),
        flow: None,
        direction: vec!["in".to_string(), "out".to_string()],
        features: Vec::new(),
    }];
    let out = adapter_section_lines(&adapters, AdapterKind::IngressEgress, "ingress+egress", &by_provider)
        .join("\n");
    assert!(out.contains("messaging.slack.api"), "{out}");
    assert!(out.contains("provider flows (from pack cli.provider.hints):"), "{out}");
    assert!(out.contains("setup_default     : hint-setup"), "{out}");
    assert!(out.contains("diagnostics       : hint-missing (missing)"), "{out}");
    assert_eq!(
        format_adapter(&adapters[0]),
        "messaging.slack.api (component=slack-adapter, direction=in|out)"
    );
    let none = adapter_section_lines(&adapters, AdapterKind::Ingress, "ingress", &by_provider);
    assert_eq!(none, vec!["  ingress       : (none)".to_string()]);
}

#[test]
fn flows_are_listed_in_order() {
    let packs = sort_by_key(vec![
        PackFlowsSummary {
            label: "messaging.b".to_string(),
            flows: Vec::new(),
        },
        PackFlowsSummary {
            label: "messaging.a".to_string(),
            flows: sort_by_key(vec![
                FlowSummary {
                    id: "z".to_string(),
                    kind: "Messaging".to_string(),
                    title: None,
                },
                FlowSummary {
                    id: "setup".to_string(),
                    kind: "Messaging".to_string(),
                    title: Some("Setup".to_string()),
                },
            ]),
        },
    ]);
    assert_eq!(
        flows_section_lines(&packs),
        vec![
            "".to_string(),
            "Flows in loaded packs:".to_string(),
            "  messaging.a:".to_string(),
            "    - setup  kind=Messaging  Setup".to_string(),
            "    - z  kind=Messaging".to_string(),
            "  messaging.b: (none)".to_string(),
        ]
    );
}

#[test]
fn providers_platforms_and_packs() {
    assert_eq!(
        infer_platform_from_provider_type("greentic:provider/messaging.teams@1"),
        Some("teams".to_string())
    );
    assert_eq!(infer_platform_from_provider_type("messaging.email"), None);
    assert_eq!(
        dedupe_pack_paths(vec!["a".to_string(), "b".to_string(), "a".to_string()]),
        vec!["a".to_string(), "b".to_string()]
    );
    assert_eq!(
        sorted_unique(vec!["b".to_string(), "a".to_string(), "b".to_string()]),
        vec!["a".to_string(), "b".to_string()]
    );
    let candidates = vec![("p1".to_string(), false), ("p2".to_string(), true)];
    assert_eq!(select_provider_pack("x", &candidates, Vec::new()), Ok(1));
    assert_eq!(
        select_provider_pack("x", &vec![("p1".to_string(), false)], vec!["b".to_string(), "a".to_string()]),
        Err("provider x not found in packs (available: a, b)".to_string())
    );
    assert_eq!(
        select_provider_pack("x", &vec![("p1".to_string(), true), ("p2".to_string(), true)], Vec::new()),
        Err("provider x found in multiple packs: p1, p2".to_string())
    );
}

#[test]
fn test_commands_and_guard_rails() {
    assert_eq!(
        test_command_args(&TestCommand::Run {
            fixture: "card.basic".to_string(),
            dry_run: true
        }),
        Ok(vec!["run".to_string(), "card.basic".to_string(), "--dry-run".to_string()])
    );
    assert_eq!(
        test_command_args(&TestCommand::All { dry_run: false }),
        Err("`greentic-messaging test all` requires --dry-run for safety".to_string())
    );
    assert_eq!(
        guard_line("Bearer auth", true, "d"),
        "- Bearer auth       ENABLED – d"
    );
    let lines = guard_rails_lines(&GuardRailSettings {
        bearer_set: false,
        hmac_secret_set: true,
        hmac_header: None,
        jwt_secret_set: true,
        action_base_url: Some("  ".to_string()),
        jwt_alg: None,
    });
    assert_eq!(lines.len(), 6);
    assert!(lines[2].ends_with("enabled (expects base64(HMAC_SHA256(body)) in x-signature)"));
    assert!(lines[3].contains("disabled"));
}

#[test]
fn dev_install_state_records_public_url() {
    let ctx = DevContext { env: "dev".to_string(), tenant: "acme".to_string(), team: "default".to_string() };
    let state = new_dev_install_state(&ctx, "messaging-slack-bot-dev", "https://tunnel.example").expect("state");
    assert_eq!(to_json_text(&state.metadata), r#"{"public_base_url":"https://tunnel.example"}"#);
    assert_eq!(to_json_text(&state.webhook_state), "{}");
    assert_eq!(to_json_text(&state.subscriptions_state), "{}");
    assert!(state.secrets.is_empty() && state.config.is_empty());
    let bad_team = DevContext { team: "team one".to_string(), ..ctx.clone() };
    assert_eq!(
        new_dev_install_state(&bad_team, "id", "u").map(|_| ()),
        Err("invalid team id".to_string())
    );
    assert_eq!(new_dev_install_state(&ctx, "", "u").map(|_| ()), Err("invalid install id".to_string()));
    let bad_env = DevContext { env: "d/v".to_string(), ..ctx };
    assert_eq!(new_dev_install_state(&bad_env, "", "u").map(|_| ()), Err("invalid env id".to_string()));
}

#[test]
fn e2e_install_state_routes_and_signs_webhooks() {
    let plain = e2e_install_state("slack", "C1", false);
    assert_eq!(to_json_text(&plain.metadata), r#"{"routing":{"channel_id":"C1","platform":"slack"}}"#);
    assert_eq!(to_json_text(&plain.webhook_state), "{}");
    assert!(plain.secrets.is_empty());
    let signed = e2e_install_state("teams", "chan", true);
    assert_eq!(
        to_json_text(&signed.webhook_state),
        r#"{"secret_key":"webhook_secret","signature_header":"x-signature"}"#
    );
    assert_eq!(signed.secrets.get("webhook_secret"), Some(&"secret".to_string()));
    assert_eq!(signed.secrets.len(), 1);
}

#[test]
fn guard_rails_sample_env_comments_every_setting() {
    let lines = guard_rails_sample_lines();
    assert_eq!(lines.len(), 11);
    assert_eq!(lines[0], "# Guard rail sample env");
    assert_eq!(lines[6], "#INGRESS_HMAC_HEADER=x-signature");
    assert!(lines.iter().all(|l| l.starts_with('#')));
}

#[test]
fn serve_ingress_slack_dry_run() {
    let envs = build_serve_envs(&serve_config(Vec::new(), false));
    let package = serve_package(ServeKind::Ingress).expect("ingress package");
    let line = dry_run_cargo_line(&envs, package, &Vec::new());
    assert!(line.contains("cargo run -p gsm-gateway"), "stdout did not contain dry-run marker:\n{}", line);
}

#[test]
fn messaging_test_wrapper_dry_run() {
    let args = test_command_args(&TestCommand::Fixtures).expect("args");
    let line = dry_run_package_line("greentic-messaging-test", &args);
    assert!(
        line.contains("dry-run) cargo run -p greentic-messaging-test"),
        "stdout did not contain dry-run marker:\n{}",
        line
    );
    assert_eq!(line, "(dry-run) cargo run -p greentic-messaging-test -- fixtures");
}

#[test]
fn admin_slack_wrapper_dry_run() {
    let args = vec!["--listen".to_string(), "0.0.0.0:8085".to_string()];
    let slack = dry_run_package_line("gsm-slack-oauth", &args);
    assert!(slack.contains("dry-run) cargo run -p gsm-slack-oauth"), "stdout did not contain dry-run marker:\n{}", slack);
    assert_eq!(dry_run_package_line("gsm-slack-oauth", &Vec::new()), "(dry-run) cargo run -p gsm-slack-oauth");
}

#[test]
fn info_lists_adapters_from_pack() {
    let adapters = vec![AdapterSummary {
        name: "messaging.slack.bot".to_string(),
        kind: AdapterKind::IngressEgress,
        component: "slack-adapter@1.0.0".to_string(),
        flow: None,
        direction: vec!["in".to_string(), "out".to_string()],
        features: Vec::new(),
    }];
    let out = adapter_section_lines(&adapters, AdapterKind::IngressEgress, "ingress+egress", &StrMap::new()).join("\n");
    assert!(out.contains("messaging.slack.bot"), "stdout did not list provider-derived adapter:\n{}", out);
}

#[test]
fn info_lists_adapters_from_provider_extension_pack() {
    let packs = vec![PackFlowsSummary {
        label: "cli.providers".to_string(),
        flows: vec![FlowSummary {
            id: "provider-flow".to_string(),
            kind: "Messaging".to_string(),
            title: Some("Provider flow".to_string()),
        }],
    }];
    let out = flows_section_lines(&packs).join("\n");
    assert!(out.contains("provider-flow") && out.contains("kind=Messaging"), "stdout did not list provider flows:\n{}", out);
}
