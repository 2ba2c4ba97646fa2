use greentic_messaging::validator::{
    applies, is_messaging_pack, validate, Diagnostic, ProviderDecl, ValidatorFlow,
    ValidatorManifest,
};

fn base_manifest(pack_id: &str) -> ValidatorManifest {
    ValidatorManifest {
        pack_id: pack_id.to_string(),
        flows: Vec::new(),
        providers: None,
        has_secret_requirements: false,
    }
}

fn add_provider(manifest: &mut ValidatorManifest, provider_type: &str, ops: &[&str], schema_ref: &str) {
    let provider = ProviderDecl {
        provider_type: provider_type.to_string(),
        ops: ops.iter().map(|op| (*op).to_string()).collect(),
        config_schema_ref: schema_ref.to_string(),
    };
    manifest.providers.get_or_insert_with(Vec::new).push(provider);
}

fn flow_entry(flow_id: &str, entrypoints: &[&str]) -> ValidatorFlow {
    let names: Vec<String> = entrypoints.iter().map(|e| (*e).to_string()).collect();
    ValidatorFlow {
        id: flow_id.to_string(),
        entrypoints: names.clone(),
        graph_entrypoints: names,
    }
}

fn collect_diagnostics(manifest: &ValidatorManifest) -> Vec<Diagnostic> {
    if applies(Some(manifest)) {
        validate(manifest)
    } else {
        Vec::new()
    }
}

#[test]
fn non_messaging_pack_has_no_diagnostics() {
    let manifest = base_manifest("utility-pack");
    let diagnostics = collect_diagnostics(&manifest);
    assert!(diagnostics.is_empty());
}

#[test]
fn messaging_pack_requires_provider_decls() {
    let manifest = base_manifest("messaging-test");
    let diagnostics = collect_diagnostics(&manifest);
    assert!(diagnostics
        .iter()
        .any(|diag| diag.code == "MSG_NO_PROVIDER_DECL" && diag.severity == "error"));
}

#[test]
fn setup_declared_without_entry_emits_error() {
    let mut manifest = base_manifest("messaging-test");
    manifest.flows.push(flow_entry("setup-bootstrap", &[]));
    let diagnostics = collect_diagnostics(&manifest);
    assert!(diagnostics
        .iter()
        .any(|diag| diag.code == "MSG_SETUP_ENTRY_MISSING" && diag.severity == "error"));
}

#[test]
fn setup_flow_without_public_url_schema_warns() {
    let mut manifest = base_manifest("messaging-test");
    add_provider(
        &mut manifest,
        "messaging.test",
        &["send"],
        "schemas/messaging/test/config.schema.json",
    );
    manifest.flows.push(flow_entry("setup", &["setup"]));
    let diagnostics = collect_diagnostics(&manifest);
    assert!(diagnostics.iter().any(|diag| {
        diag.code == "MSG_SETUP_PUBLIC_URL_NOT_ASSERTED" && diag.severity == "warn"
    }));
}

#[test]
fn subscriptions_flow_suppresses_missing_subscriptions_warning() {
    let mut manifest = base_manifest("messaging-test");
    add_provider(
        &mut manifest,
        "messaging.test",
        &["send"],
        "schemas/messaging/test/config.schema.json",
    );
    manifest.flows.push(flow_entry("sync-subscriptions", &[]));
    let diagnostics = collect_diagnostics(&manifest);
    assert!(!diagnostics
        .iter()
        .any(|diag| diag.code == "MSG_SUBSCRIPTIONS_DECLARED_BUT_NO_FLOW"));
}

#[test]
fn messaging_pack_detection() {
    let mut m = base_manifest("utility");
    assert!(!is_messaging_pack(&m));
    add_provider(&mut m, "other.kind", &[], "schemas/messaging/x.json");
    assert!(is_messaging_pack(&m));
    let mut m = base_manifest("utility");
    add_provider(&mut m, "  Greentic:Provider/Messaging.Slack ", &[], "none");
    assert!(is_messaging_pack(&m));
    assert!(!applies(None));
}

fn base_provider_manifest() -> ValidatorManifest {
    let mut manifest = base_manifest("messaging.test.pack");
    add_provider(&mut manifest, "messaging.test.provider", &["send"], "schemas/config.json");
    manifest
}

#[test]
fn minimal_manifest_reports_no_errors() {
    let manifest = base_provider_manifest();
    let diagnostics = collect_diagnostics(&manifest);
    assert!(diagnostics.iter().all(|diag| diag.severity != "error"), "unexpected error diagnostics: {:?}", diagnostics);
}

#[test]
fn missing_secret_requirements_warns() {
    let manifest = base_provider_manifest();
    let diagnostics = collect_diagnostics(&manifest);
    let warning = diagnostics
        .iter()
        .find(|diag| diag.code == "MSG_SECRETS_REQUIREMENTS_NOT_DISCOVERABLE")
        .expect("expected secret requirements warning");
    assert_eq!(warning.severity, "warn");
}

#[test]
fn cbor_only_pack_validates() {
    let manifest = base_provider_manifest();
    let diagnostics = collect_diagnostics(&manifest);
    assert!(!diagnostics.iter().any(|diag| diag.severity == "error"));
}
