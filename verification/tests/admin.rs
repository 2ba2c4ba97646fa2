use greentic_messaging::admin::{
    global_key, is_disallowed_control, tenant_key, validate_global_app, validate_resource,
    validate_tenant_binding, AdminError, CredentialPolicy, DesiredGlobalApp,
    DesiredTenantBinding, ProvisionReportBuilder, ReportMode, ResourceSpec,
};
use greentic_messaging::strmap::StrMap;

fn sample_global_app() -> DesiredGlobalApp {
    let mut extra = StrMap::new();
    extra.insert(String::from("env"), String::from("dev"));
    DesiredGlobalApp {
        display_name: "Mock App".into(),
        redirect_uris: vec!["https://example.com/cb".to_string()],
        allowed_scopes: vec!["chat:write".into()],
        capabilities: vec!["bot".into()],
        extra_params: Some(extra),
    }
}

fn sample_tenant_binding() -> DesiredTenantBinding {
    DesiredTenantBinding {
        tenant_key: "tenant1".into(),
        provider_tenant_id: "T1".into(),
        requested_scopes: vec!["chat:write".into()],
        resources: vec![ResourceSpec {
            kind: "team".into(),
            id: "abc".into(),
            display_name: Some("Support".into()),
        }],
        credential_policy: CredentialPolicy::ClientSecret { rotate_days: 90 },
        extra_params: None,
    }
}

fn single_param(key: &str, value: String) -> StrMap<String> {
    let mut m = StrMap::new();
    m.insert(String::from(key), value);
    m
}

#[test]
fn detect_control_chars() {
    assert!(is_disallowed_control('\u{0001}'));
    assert!(!is_disallowed_control('\n'));
}

#[test]
fn rejects_invalid_extra_param_value() {
    let mut binding = sample_tenant_binding();
    binding.extra_params = Some(single_param("bad", String::from("\u{0001}")));
    assert!(matches!(
        validate_tenant_binding(&binding),
        Err(AdminError::Validation(_))
    ));
}

#[test]
fn rejects_long_extra_param_value() {
    let mut binding = sample_tenant_binding();
    let long = "x".repeat(300);
    binding.extra_params = Some(single_param("long", long));
    assert!(matches!(
        validate_tenant_binding(&binding),
        Err(AdminError::Validation(_))
    ));
}

#[test]
fn rejects_empty_tenant_key() {
    let mut binding = sample_tenant_binding();
    binding.tenant_key.clear();
    assert!(matches!(
        validate_tenant_binding(&binding),
        Err(AdminError::Validation(_))
    ));
}

#[test]
fn rejects_global_display_name() {
    let mut app = sample_global_app();
    app.display_name.clear();
    assert!(matches!(
        validate_global_app(&app),
        Err(AdminError::Validation(_))
    ));
}

#[test]
fn rejects_resource_id_control_char() {
    let resource = ResourceSpec {
        kind: "team".into(),
        id: "bad\u{0003}".into(),
        display_name: None,
    };
    assert!(matches!(
        validate_resource(&resource),
        Err(AdminError::Validation(_))
    ));
}

#[test]
fn builder_sets_plan_mode_and_tracks_entries() {
    let mut builder = ProvisionReportBuilder::new("mock", Some("tenant1"), ReportMode::Plan);
    builder.created("created-item");
    builder.updated("updated-item");
    builder.skipped("skipped-item");
    builder.warn("warn");
    builder.secret_written("messaging/global/mock/key");

    let report = builder.finish();
    assert_eq!(report.provider, "mock");
    assert_eq!(report.tenant.as_deref(), Some("tenant1"));
    assert_eq!(report.mode.as_deref(), Some("plan"));
    assert_eq!(report.created, vec!["created-item".to_string()]);
    assert_eq!(report.updated, vec!["updated-item".to_string()]);
    assert_eq!(report.skipped, vec!["skipped-item".to_string()]);
    assert_eq!(report.warnings, vec!["warn".to_string()]);
    assert_eq!(
        report.secret_keys_written,
        vec!["messaging/global/mock/key".to_string()]
    );
}

#[test]
fn builder_sets_ensure_mode() {
    let builder = ProvisionReportBuilder::new("mock", None, ReportMode::Ensure);
    let report = builder.finish();
    assert_eq!(report.mode.as_deref(), Some("ensure"));
    assert!(report.tenant.is_none());
}

#[test]
fn builds_global_key() {
    assert_eq!(
        global_key("teams", "client_id"),
        "messaging/global/teams/client_id"
    );
}

#[test]
fn builds_tenant_key() {
    assert_eq!(
        tenant_key("tenant1", "teams", "app_token"),
        "messaging/tenant/tenant1/teams/app_token"
    );
}

#[test]
fn sample_models_are_valid() {
    assert_eq!(validate_global_app(&sample_global_app()), Ok(()));
    assert_eq!(validate_tenant_binding(&sample_tenant_binding()), Ok(()));
}

#[test]
fn extra_param_of_exact_limit_is_accepted() {
    let mut binding = sample_tenant_binding();
    binding.extra_params = Some(single_param("edge", "y".repeat(256)));
    assert_eq!(validate_tenant_binding(&binding), Ok(()));
    binding.extra_params = Some(single_param("edge", "y".repeat(257)));
    assert!(matches!(
        validate_tenant_binding(&binding),
        Err(AdminError::Validation(_))
    ));
}

#[test]
fn newline_and_carriage_return_are_allowed_in_values() {
    let mut binding = sample_tenant_binding();
    binding.extra_params = Some(single_param("multi", String::from("a\nb\r\nc")));
    assert_eq!(validate_tenant_binding(&binding), Ok(()));
    assert!(is_disallowed_control('\u{001f}'));
    assert!(!is_disallowed_control(' '));
    assert!(!is_disallowed_control('\r'));
}

#[test]
fn blank_resource_id_is_rejected() {
    let resource = ResourceSpec {
        kind: "team".into(),
        id: "   ".into(),
        display_name: None,
    };
    assert_eq!(
        validate_resource(&resource),
        Err(AdminError::Validation("resource.id must not be empty".into()))
    );
}

#[test]
fn admin_error_texts() {
    assert_eq!(
        AdminError::Validation("bad input".into()).to_string(),
        "validation error: bad input"
    );
    assert_eq!(AdminError::NotFound.to_string(), "not found");
}
