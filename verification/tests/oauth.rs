use greentic_messaging::oauth::{
    authorize_url, decode_state, install_state, mock_workspace, normalize_team, token_url,
    workspace_from_response, OauthResponse,
};

#[test]
fn install_state_encodes_tenant_team_and_nonce() {
    assert_eq!(
        install_state("acme", Some("support"), "nonce"),
        "YWNtZXxzdXBwb3J0fG5vbmNl"
    );
    assert_eq!(install_state("acme", None, "n1"), "YWNtZXxkZWZhdWx0fG4x");
}

#[test]
fn state_roundtrip_recovers_tenant_and_team() {
    let state = install_state("acme", Some("support"), "nonce");
    assert_eq!(
        decode_state(&state),
        Ok(("acme".to_string(), Some("support".to_string())))
    );
    let state = install_state("acme", None, "n1");
    assert_eq!(decode_state(&state), Ok(("acme".to_string(), None)));
}

#[test]
fn decode_state_errors() {
    assert!(decode_state("!!!").is_err());
    let no_team = "YWNtZQ";
    assert_eq!(decode_state(no_team), Err("state missing team".to_string()));
}

#[test]
fn teams_are_normalised() {
    assert_eq!(normalize_team("  support "), Some("support".to_string()));
    assert_eq!(normalize_team("DEFAULT"), None);
    assert_eq!(normalize_team("   "), None);
}

#[test]
fn authorize_url_encodes_scope_and_redirect() {
    assert_eq!(
        authorize_url(
            "CID",
            "commands chat:write",
            "st",
            "https://example.com/callback",
            None
        ),
        "https://slack.com/oauth/v2/authorize?client_id=CID&scope=commands%20chat%3Awrite&state=st&redirect_uri=https%3A%2F%2Fexample.com%2Fcallback"
    );
    let with_user = authorize_url("CID", "commands", "st", "https://e.x/cb", Some("users:read"));
    assert!(with_user.ends_with("&user_scope=users%3Aread"));
    let empty_user = authorize_url("CID", "commands", "st", "https://e.x/cb", Some(""));
    assert!(!empty_user.contains("user_scope"));
}

#[test]
fn token_exchange_outcomes() {
    let ok = OauthResponse {
        ok: true,
        access_token: Some("xoxb-1".to_string()),
        error: None,
        team_id: Some("T1".to_string()),
        enterprise_id: None,
    };
    let ws = workspace_from_response(ok).expect("workspace");
    assert_eq!(ws.workspace_id, "T1");
    assert_eq!(ws.bot_token, "xoxb-1");
    let refused = OauthResponse {
        ok: false,
        access_token: None,
        error: Some("invalid_code".to_string()),
        team_id: None,
        enterprise_id: None,
    };
    assert_eq!(
        workspace_from_response(refused),
        Err("invalid_code".to_string())
    );
    let no_team = OauthResponse {
        ok: true,
        access_token: Some("x".to_string()),
        error: None,
        team_id: None,
        enterprise_id: None,
    };
    assert_eq!(
        workspace_from_response(no_team),
        Err("missing team id in oauth response".to_string())
    );
}

#[test]
fn mock_api_base_gives_fixed_workspace() {
    let ws = mock_workspace("mock://slack").expect("mock workspace");
    assert_eq!(ws.workspace_id, "T123");
    assert_eq!(ws.bot_token, "xoxb-mock");
    assert!(mock_workspace("https://slack.com/api").is_none());
    assert_eq!(token_url("https://slack.com/api//"), "https://slack.com/api/oauth.v2.access");
}
