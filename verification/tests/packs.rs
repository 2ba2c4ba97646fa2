use greentic_messaging::packs::{
    component_dir_for_digest, format_secret_uri, infer_platform_from_provider,
    matches_pattern, normalize_digest, pack_listing_lines, pack_report_lines, packs_outcome,
    parse_runtime_config, redact_secret_uri, run_pack, sanitize_component_dir,
    secret_key_from_uri, select_flow, subject_token, trim_digest_prefix, walk_flow, FlowGraph,
    FlowNode, ListedFlow, MaterializedPack, PackFlow, PackListing, PackModel, PackStepStatus,
    Routing,
};
use greentic_messaging::json::Json;
use greentic_messaging::packs::{
    cache_root_of, materialize_pack, DistributorClientMaterializer, MaterializeOptions, PackMaterializer,
};
use std::sync::Mutex;
use greentic_messaging::packs::{
    extract_required_keys, next_secret_to_fetch, required_provider_config, secret_lookup_needed,
    ProviderSchema,
};
use greentic_messaging::strmap::StrMap;
use greentic_messaging::test_cli::{PackRuntimeArgs, RunnerTransport};

fn end_node(id: &str, component: &str) -> FlowNode {
    FlowNode {
        id: id.to_string(),
        component_id: component.to_string(),
        operation: None,
        routing: Routing::End,
    }
}

fn demo_flow(flow_id: &str) -> PackFlow {
    let mut entrypoints = StrMap::new();
    entrypoints.insert("default".to_string(), Some("start".to_string()));
    PackFlow {
        id: flow_id.to_string(),
        kind: "Messaging".to_string(),
        flow: FlowGraph {
            entrypoints,
            nodes: vec![end_node("start", "demo.component")],
        },
    }
}

fn demo_pack(flow_id: &str) -> PackModel {
    PackModel {
        pack_id: "messaging.demo".to_string(),
        flows: vec![demo_flow(flow_id)],
        components: vec!["demo.component".to_string()],
        provider_types: vec!["messaging.demo.provider".to_string()],
    }
}

fn dry_runtime() -> PackRuntimeArgs {
    PackRuntimeArgs {
        flow: None,
        env: "dev".to_string(),
        tenant: "ci".to_string(),
        team: "ci".to_string(),
        allow_tags: false,
        offline: false,
        dry_run: true,
        live: false,
        config: Vec::new(),
        runner_transport: RunnerTransport::Http,
        nats_url: None,
        resolve_components: false,
    }
}

fn components_of(pack: &PackModel) -> StrMap<()> {
    let mut ids = StrMap::new();
    for c in &pack.components {
        ids.insert(c.clone(), ());
    }
    ids
}

fn dry_run_lines(pack: &PackModel, path: &str) -> Vec<String> {
    let runtime = dry_runtime();
    let materialized = MaterializedPack {
        pack_path: path.to_string(),
        components_dir: None,
    };
    let report = run_pack(
        pack,
        &runtime,
        &materialized,
        Vec::new(),
        &components_of(pack),
        Vec::new(),
        Vec::new(),
        StrMap::new(),
        &StrMap::new(),
    )
    .expect("run pack");
    assert!(report.is_success());
    pack_report_lines(&report, &runtime.env, &runtime.tenant, &runtime.team)
}

fn listing_of(pack: &PackModel) -> PackListing {
    PackListing {
        pack_id: pack.pack_id.clone(),
        version: "0.1.0".to_string(),
        kind: "Provider".to_string(),
        flows: pack
            .flows
            .iter()
            .map(|f| ListedFlow {
                id: f.id.clone(),
                kind: f.kind.clone(),
                title: "Smoke test flow".to_string(),
            })
            .collect(),
    }
}

#[test]
fn packs_list_and_run() {
    let pack = demo_pack("smoke");
    let path = "tests/fixtures/packs/messaging-demo.gtpack";
    let list_out = pack_listing_lines(path, None, Some(&listing_of(&pack))).join("\n");
    assert!(
        list_out.contains("messaging.demo"),
        "list output:\n{list_out}"
    );

    let run_out = dry_run_lines(&pack, path).join("\n");
    assert!(run_out.contains("result: ok"), "run output:\n{run_out}");
    assert!(
        run_out.contains("provider secrets"),
        "expected provider secrets section:\n{run_out}"
    );
}

#[test]
fn packs_all_scans_dir() {
    let mut out = String::new();
    for name in ["messaging-a", "messaging-b"] {
        let pack = demo_pack("smoke");
        let path = format!("tests/fixtures/packs/{name}.gtpack");
        out.push_str(&dry_run_lines(&pack, &path).join("\n"));
        out.push('\n');
    }
    assert!(
        out.contains("messaging.demo"),
        "expected packs to be reported:\n{out}"
    );
}

#[test]
fn packs_run_without_smoke_uses_first_flow() {
    let pack = demo_pack("custom");
    let out = dry_run_lines(&pack, "messaging-custom.gtpack").join("\n");
    assert!(
        out.contains("flow: custom"),
        "expected flow fallback to first flow:\n{out}"
    );
}

#[test]
fn select_flow_prefers_smoke_then_first() {
    let mut pack = demo_pack("alpha");
    pack.flows.push(demo_flow("smoke"));
    assert_eq!(select_flow(&pack, None), Ok(1));
    let first = demo_pack("first");
    assert_eq!(select_flow(&first, None), Ok(0));
}

#[test]
fn select_flow_override_and_errors() {
    let mut pack = demo_pack("alpha");
    pack.flows.push(demo_flow("beta"));
    assert_eq!(select_flow(&pack, Some("beta")), Ok(1));
    assert_eq!(
        select_flow(&pack, Some("gamma")),
        Err("flow gamma not found in pack messaging.demo".to_string())
    );
    assert_eq!(
        select_flow(&pack, Some("bad id")),
        Err("invalid flow id".to_string())
    );
    let empty = PackModel {
        pack_id: "messaging.empty".to_string(),
        flows: Vec::new(),
        components: Vec::new(),
        provider_types: Vec::new(),
    };
    assert_eq!(
        select_flow(&empty, None),
        Err("pack contains no flows".to_string())
    );
}

#[test]
fn exact_report_lines_for_demo_pack() {
    let lines = dry_run_lines(&demo_pack("smoke"), "demo.gtpack");
    assert_eq!(
        lines,
        vec![
            "Pack messaging.demo (demo.gtpack)".to_string(),
            "  flow: smoke (kind=Messaging) [dry-run]".to_string(),
            "  provider secrets:".to_string(),
            "    - messaging.demo.provider -> secrets://***/***/***/messaging/messaging.demo.provider.credentials.json".to_string(),
            "  steps:".to_string(),
            "    - start -> demo.component [planned]".to_string(),
            "  result: ok".to_string(),
        ]
    );
}

#[test]
fn missing_component_fails_the_run() {
    let pack = demo_pack("smoke");
    let runtime = dry_runtime();
    let materialized = MaterializedPack {
        pack_path: "p.gtpack".to_string(),
        components_dir: None,
    };
    let report = run_pack(
        &pack,
        &runtime,
        &materialized,
        Vec::new(),
        &StrMap::new(),
        Vec::new(),
        Vec::new(),
        StrMap::new(),
        &StrMap::new(),
    )
    .expect("run pack");
    assert_eq!(report.missing_components, vec!["demo.component".to_string()]);
    assert_eq!(report.steps.len(), 1);
    assert_eq!(report.steps[0].status, PackStepStatus::MissingComponent);
    assert!(!report.is_success());
    let lines = pack_report_lines(&report, "dev", "ci", "ci");
    assert_eq!(lines.last().map(String::as_str), Some("  result: failed"));
}

#[test]
fn walk_stops_at_a_cycle() {
    let mut entrypoints = StrMap::new();
    entrypoints.insert("default".to_string(), Some("a".to_string()));
    let flow = FlowGraph {
        entrypoints,
        nodes: vec![
            FlowNode {
                id: "a".to_string(),
                component_id: "c".to_string(),
                operation: Some("send".to_string()),
                routing: Routing::Next("b".to_string()),
            },
            FlowNode {
                id: "b".to_string(),
                component_id: "c".to_string(),
                operation: None,
                routing: Routing::Next("a".to_string()),
            },
        ],
    };
    let mut comps = StrMap::new();
    comps.insert("c".to_string(), ());
    let walk = walk_flow(&flow, &comps, false);
    assert_eq!(walk.steps.len(), 2);
    assert_eq!(walk.steps[0].status, PackStepStatus::Executed);
    assert_eq!(walk.errors, vec!["detected cycle at node a".to_string()]);
}

#[test]
fn listing_of_failed_and_empty_packs() {
    assert_eq!(
        pack_listing_lines("x.gtpack", Some("bad zip"), None),
        vec!["x.gtpack: failed to load (bad zip)".to_string()]
    );
    assert!(pack_listing_lines("y.gtpack", None, None).is_empty());
    let listing = PackListing {
        pack_id: "messaging.none".to_string(),
        version: "1.0.0".to_string(),
        kind: "Provider".to_string(),
        flows: Vec::new(),
    };
    assert_eq!(
        pack_listing_lines("z.gtpack", None, Some(&listing)),
        vec![
            "z.gtpack: messaging.none 1.0.0 (kind=Provider)".to_string(),
            "  flows: (none)".to_string(),
        ]
    );
    let listing = listing_of(&demo_pack("smoke"));
    assert_eq!(
        pack_listing_lines("d.gtpack", None, Some(&listing))[2],
        "    - smoke (kind=Messaging) Smoke test flow"
    );
}

#[test]
fn digests_and_component_dirs() {
    assert_eq!(normalize_digest("abc"), "sha256:abc");
    assert_eq!(normalize_digest("sha256:abc"), "sha256:abc");
    assert_eq!(trim_digest_prefix("sha256:abc"), "abc");
    assert_eq!(trim_digest_prefix("abc"), "abc");
    assert_eq!(component_dir_for_digest("/cache", "sha256:abc"), "/cache/abc");
    assert_eq!(sanitize_component_dir("greentic.ai/comp@1"), "greentic_ai_comp_1");
}

#[test]
fn secret_uris_are_formatted_and_redacted() {
    let uri = format_secret_uri("dev", "acme", "default", "messaging.slack");
    assert_eq!(
        uri,
        "secrets://dev/acme/default/messaging/messaging.slack.credentials.json"
    );
    assert_eq!(
        redact_secret_uri(&uri),
        "secrets://***/***/***/messaging/messaging.slack.credentials.json"
    );
    assert_eq!(redact_secret_uri("secrets://a/b"), "***");
    assert_eq!(redact_secret_uri("https://x/y/z/w"), "***");
    assert_eq!(secret_key_from_uri("secrets://a/b/c/token "), Some("token".to_string()));
    assert_eq!(secret_key_from_uri("secrets://a/b/c/"), None);
}

#[test]
fn subject_tokens_and_platforms() {
    assert_eq!(subject_token(" a b/c*d>e "), "a-b-c-d-e");
    assert_eq!(subject_token("   "), "unknown");
    assert_eq!(
        infer_platform_from_provider("Messaging.Slack.Bot"),
        Some("slack".to_string())
    );
    assert_eq!(
        infer_platform_from_provider("messaging.telegram"),
        Some("telegram".to_string())
    );
    assert_eq!(infer_platform_from_provider("messaging.email"), None);
}

#[test]
fn file_patterns() {
    assert!(matches_pattern("messaging-demo.gtpack", "messaging-*.gtpack"));
    assert!(!matches_pattern("other-pack.gtpack", "messaging-*.gtpack"));
    assert!(matches_pattern("anything", "*"));
    assert!(matches_pattern("exact.gtpack", "exact.gtpack"));
}

#[test]
fn runtime_config_entries() {
    let parsed = parse_runtime_config(&vec!["a=1".to_string(), " b = two ".to_string()])
        .expect("config parses");
    assert_eq!(parsed.get("a"), Some(&"1".to_string()));
    assert_eq!(parsed.get("b"), Some(&"two".to_string()));
    assert!(parse_runtime_config(&vec!["novalue".to_string()]).is_err());
}

#[test]
fn failures_are_counted() {
    assert_eq!(packs_outcome(0, "validation"), Ok(()));
    assert_eq!(
        packs_outcome(2, "validation"),
        Err("2 pack(s) failed validation".to_string())
    );
}

fn schema_requiring(keys: &[&str]) -> Json {
    let mut m = StrMap::new();
    let mut req: Vec<Json> = keys.iter().map(|k| Json::Str(k.to_string())).collect();
    req.push(Json::Number("3".to_string()));
    m.insert("required".to_string(), Json::Array(req));
    m.insert("type".to_string(), Json::Str("object".to_string()));
    Json::Object(m)
}

#[test]
fn required_keys_come_from_the_schema() {
    assert_eq!(extract_required_keys(&schema_requiring(&["bot_token", "api_base"])), vec![
        "bot_token".to_string(),
        "api_base".to_string()
    ]);
    assert!(extract_required_keys(&Json::Null).is_empty());
    let providers = vec![
        ProviderSchema {
            provider_type: "messaging.slack.api".to_string(),
            schema_ref: "schemas/slack.json".to_string(),
            schema: Some(schema_requiring(&["bot_token"])),
        },
        ProviderSchema {
            provider_type: "messaging.teams.graph".to_string(),
            schema_ref: "  ".to_string(),
            schema: Some(schema_requiring(&["ignored"])),
        },
        ProviderSchema {
            provider_type: "messaging.webex.bot".to_string(),
            schema_ref: "schemas/missing.json".to_string(),
            schema: None,
        },
    ];
    let required = required_provider_config(&providers);
    assert_eq!(required.get("messaging.slack.api"), Some(&vec!["bot_token".to_string()]));
    assert_eq!(required.get("messaging.teams.graph"), Some(&Vec::new()));
    assert_eq!(required.get("messaging.webex.bot"), Some(&Vec::new()));
    assert_eq!(required.len(), 3);
}

#[test]
fn secrets_are_fetched_once_per_missing_key() {
    let uris = vec![
        "secrets://dev/acme/_/messaging/bot_token".to_string(),
        "secrets://dev/acme/_/messaging/".to_string(),
        "secrets://dev/acme/_/messaging/signing_secret".to_string(),
        "secrets://dev/acme/_/other/bot_token".to_string(),
    ];
    let mut resolved = StrMap::new();
    resolved.insert("bot_token".to_string(), "given".to_string());
    assert_eq!(next_secret_to_fetch(&uris, 0, &resolved), Some((2, "signing_secret".to_string())));
    resolved.insert("signing_secret".to_string(), "fetched".to_string());
    assert_eq!(next_secret_to_fetch(&uris, 3, &resolved), None);
    let empty = StrMap::new();
    assert_eq!(next_secret_to_fetch(&uris, 3, &empty), Some((3, "bot_token".to_string())));
    assert!(secret_lookup_needed(true, &uris));
    assert!(!secret_lookup_needed(false, &uris));
    assert!(!secret_lookup_needed(true, &Vec::new()));
}

#[test]
fn materialized_components_are_cached_by_content_hash() {
    let m = DistributorClientMaterializer::new("/home/.greentic".to_string());
    assert_eq!(
        m.cache_dir_for_pack(b"", "/cache"),
        "/cache/materialized/af1349b9f5f9a1a6a0404dea36dcc9499bcb25c9adc112b7cc9a93cae41f3262"
    );
    let bytes = b"messaging-demo.gtpack contents";
    let expected = format!("cache/materialized/{}", blake3::hash(bytes).to_hex());
    assert_eq!(m.cache_dir_for_pack(bytes, "cache"), expected);
}

#[derive(Default)]
struct FakeMaterializer {
    calls: Mutex<Vec<MaterializeOptions>>,
}

impl PackMaterializer for FakeMaterializer {
    fn materialize(&self, pack: &str, opts: &MaterializeOptions) -> Result<MaterializedPack, String> {
        self.calls.lock().unwrap().push(opts.clone());
        Ok(MaterializedPack { pack_path: pack.to_string(), components_dir: None })
    }
}

fn runtime_with_defaults() -> PackRuntimeArgs {
    let mut runtime = dry_runtime();
    runtime.resolve_components = true;
    runtime
}

#[test]
fn materialize_defaults_on() {
    let mat = FakeMaterializer::default();
    let runtime = runtime_with_defaults();
    materialize_pack("demo.gtpack", &runtime, &mat, cache_root_of(None, None)).expect("materialize");
    let calls = mat.calls.lock().unwrap();
    assert_eq!(calls.len(), 1);
    let opts = &calls[0];
    assert!(opts.resolve_components);
    assert!(!opts.offline);
    assert!(!opts.allow_tags);
    assert_eq!(opts.cache_root, ".cache/greentic");
}

#[test]
fn materialize_respects_flags() {
    let mat = FakeMaterializer::default();
    let mut runtime = runtime_with_defaults();
    runtime.resolve_components = false;
    runtime.offline = true;
    runtime.allow_tags = true;
    materialize_pack("demo.gtpack", &runtime, &mat, cache_root_of(None, Some("/home/ci"))).expect("materialize");
    let calls = mat.calls.lock().unwrap();
    assert_eq!(calls.len(), 1);
    let opts = &calls[0];
    assert!(!opts.resolve_components);
    assert!(opts.offline);
    assert!(opts.allow_tags);
    assert_eq!(opts.cache_root, "/home/ci/.cache/greentic");
    assert_eq!(cache_root_of(Some("/g"), Some("/home/ci")), "/g");
}
