use greentic_messaging::admin::{AdminError, DesiredGlobalApp};
use greentic_messaging::admin_api::{
    callback_tenant_key, map_error, parse_query, start_response, AdminRegistry, ApiErrorReply,
};

fn app(name: &str) -> DesiredGlobalApp {
    DesiredGlobalApp {
        display_name: name.to_string(),
        redirect_uris: Vec::new(),
        allowed_scopes: Vec::new(),
        capabilities: Vec::new(),
        extra_params: None,
    }
}

fn reply(status: u16, error: &str, message: &str) -> ApiErrorReply {
    ApiErrorReply {
        status,
        error: error.to_string(),
        message: message.to_string(),
    }
}

#[test]
fn errors_map_to_status_and_code() {
    assert_eq!(
        map_error(AdminError::Validation("bad".into())),
        reply(400, "validation_error", "bad")
    );
    assert_eq!(map_error(AdminError::NotFound), reply(404, "not_found", "resource not found"));
    assert_eq!(
        map_error(AdminError::Provider("down".into())),
        reply(502, "provider_error", "down")
    );
    assert_eq!(
        map_error(AdminError::Internal("secret detail".into())),
        reply(500, "internal_error", "internal error")
    );
    assert_eq!(map_error(AdminError::Unauthorized), reply(401, "unauthorized", "unauthorized"));
    assert_eq!(
        map_error(AdminError::Conflict("exists".into())),
        reply(409, "conflict", "exists")
    );
}

#[test]
fn tenant_start_and_callback_flow() {
    let started = start_response(Some("https://consent.example/mock".to_string()));
    assert!(started.started);
    assert_eq!(started.redirect_url.as_deref(), Some("https://consent.example/mock"));
    assert!(!start_response(None).started);

    let pairs = parse_query(Some("tenant_key=tenant1&code=abc"));
    assert_eq!(callback_tenant_key(&pairs), Ok("tenant1".to_string()));
    let pairs = parse_query(Some("code=abc"));
    assert_eq!(
        callback_tenant_key(&pairs),
        Err(reply(400, "validation_error", "missing tenant_key"))
    );
    assert!(parse_query(None).is_empty());
    let decoded = parse_query(Some("tenant_key=a%20b+c"));
    assert_eq!(decoded, vec![("tenant_key".to_string(), "a b c".to_string())]);
}

#[test]
fn providers_endpoint_lists_names_in_order() {
    let registry: AdminRegistry<u8, u8> = AdminRegistry::new(
        vec![("slack".to_string(), 1), ("mock".to_string(), 2)],
        vec![("mock".to_string(), 3)],
    );
    assert_eq!(
        registry.provider_names(),
        vec!["mock".to_string(), "slack".to_string()]
    );
    assert_eq!(registry.global("slack"), Some(&1));
    assert_eq!(registry.tenant("slack"), None);
    assert_eq!(
        registry.resolve_tenant("slack"),
        Err(reply(404, "not_found", "no tenant provisioner registered for provider slack"))
    );
}

#[test]
fn global_ensure_validates_before_lookup() {
    let registry: AdminRegistry<u8, u8> =
        AdminRegistry::new(vec![("mock".to_string(), 7)], Vec::new());
    assert_eq!(registry.admit_global_ensure("mock", &app("Mock App")), Ok(&7));
    assert_eq!(
        registry.admit_global_ensure("missing", &app("")),
        Err(reply(400, "validation_error", "display_name must not be empty"))
    );
    assert_eq!(
        registry.admit_global_ensure("missing", &app("Mock App")),
        Err(reply(404, "not_found", "no global provisioner registered for provider missing"))
    );
}
