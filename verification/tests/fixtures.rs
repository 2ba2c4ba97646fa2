use greentic_messaging::dev_cli::{comma_list, install_all_setting, platforms_of_provider_types};
use greentic_messaging::fixtures::{fixtures_dir, run_all_mode, RunAllMode};
use greentic_messaging::fixtures::{
    adapter_dump_line, flatten_body, flatten_column_sets, fixture_id_of, fixture_index, is_adaptive_card, is_fixture_extension,
    is_yaml_extension, parse_index, select_pack_adapters, sorted_and_redacted, status_line,
    status_lines, toggle_adapters, AdapterStatus, PackAdapterDecl,
};
use greentic_messaging::json::{to_json_text, Json};
use greentic_messaging::platform::Platform;
use greentic_messaging::strmap::StrMap;

fn object(members: Vec<(&str, Json)>) -> Json {
    let mut m = StrMap::new();
    for (k, v) in members {
        m.insert(k.to_string(), v);
    }
    Json::Object(m)
}

fn text(s: &str) -> Json {
    Json::Str(s.to_string())
}

fn strings(items: &[&str]) -> Vec<String> {
    items.iter().map(|s| s.to_string()).collect()
}

#[test]
fn discover_loads_json_fixtures() {
    let card = object(vec![
        ("$schema", text("http://adaptivecards.io/schemas/adaptive-card.json")),
        ("type", text("AdaptiveCard")),
        ("version", text("1.6")),
        ("body", Json::Array(vec![])),
    ]);
    assert!(is_fixture_extension(Some("json")));
    assert!(!is_yaml_extension(Some("json")));
    assert!(is_adaptive_card(&card));
    assert_eq!(fixture_id_of(Some("card")), "card");
    let ids = vec![fixture_id_of(Some("card"))];
    assert_eq!(ids.len(), 1);
    assert_eq!(fixture_index(&ids, "card"), Ok(0));
}

#[test]
fn fixture_files_are_json_or_yaml() {
    assert!(is_fixture_extension(Some("yaml")));
    assert!(is_fixture_extension(Some("yml")));
    assert!(!is_fixture_extension(Some("txt")));
    assert!(!is_fixture_extension(Some("JSON")));
    assert!(!is_fixture_extension(None));
    assert!(is_yaml_extension(Some("yml")));
    assert_eq!(fixture_id_of(None), "unnamed");
}

#[test]
fn message_cards_are_not_adaptive_cards() {
    let card = object(vec![("title", text("Hello")), ("type", text("MessageCard"))]);
    assert!(!is_adaptive_card(&card));
    assert!(!is_adaptive_card(&text("AdaptiveCard")));
    assert!(!is_adaptive_card(&object(vec![("type", Json::Null)])));
}

#[test]
fn unknown_fixture_is_refused() {
    let ids = strings(&["alpha", "beta", "beta"]);
    assert_eq!(fixture_index(&ids, "beta"), Ok(1));
    assert_eq!(fixture_index(&ids, "gamma"), Err("unknown fixture gamma".to_string()));
}

#[test]
fn status_screen_lists_adapters() {
    let adapters = vec![
        AdapterStatus { name: "teams".to_string(), enabled: true, reason: None },
        AdapterStatus {
            name: "slack".to_string(),
            enabled: false,
            reason: Some("missing env: SLACK_BOT_TOKEN".to_string()),
        },
    ];
    let lines = status_lines(1, 3, "card.basic", "fixtures/card.basic.json", &adapters);
    assert_eq!(
        lines,
        strings(&[
            "------------------------------",
            "Fixture [2/3]: card.basic",
            "Path: fixtures/card.basic.json",
            "[0] teams (enabled)",
            "[1] slack (disabled) - missing env: SLACK_BOT_TOKEN",
            "Commands: Enter=send, r=resend, n=next, p=prev, a=toggle, q=quit",
        ])
    );
    assert_eq!(status_line(12, &adapters[0]), "[12] teams (enabled)");
    assert_eq!(adapter_dump_line(&adapters[0]), "teams: enabled");
    assert_eq!(
        adapter_dump_line(&adapters[1]),
        "slack: disabled (missing env: SLACK_BOT_TOKEN)"
    );
}

#[test]
fn index_parsing_follows_usize() {
    assert_eq!(parse_index("7"), Some(7));
    assert_eq!(parse_index("+3"), Some(3));
    assert_eq!(parse_index("007"), Some(7));
    assert_eq!(parse_index(""), None);
    assert_eq!(parse_index("+"), None);
    assert_eq!(parse_index("-1"), None);
    assert_eq!(parse_index("1a"), None);
    assert_eq!(parse_index("99999999999999999999999"), None);
    assert_eq!(parse_index(&usize::MAX.to_string()), Some(usize::MAX));
}

#[test]
fn toggling_all_flips_every_adapter() {
    let mut flags = vec![true, false, true];
    toggle_adapters("  ALL \n", &mut flags);
    assert_eq!(flags, vec![false, true, false]);
    toggle_adapters("all", &mut flags);
    assert_eq!(flags, vec![true, false, true]);
}

#[test]
fn toggling_indexes_skips_bad_parts() {
    let mut flags = vec![true, true, true, true];
    toggle_adapters(" 0, 2 ,x,,9, 2,3\n", &mut flags);
    assert_eq!(flags, vec![false, true, true, false]);
    toggle_adapters(" 0, 2 ,x,,9, 2,3\n", &mut flags);
    assert_eq!(flags, vec![true, true, true, true]);
}

#[test]
fn redaction_hides_tokens_and_secrets_at_any_depth() {
    let payload = object(vec![
        ("text", text("hi")),
        ("Bot_Token", text("xoxb-1")),
        (
            "nested",
            Json::Array(vec![
                object(vec![("clientSecret", Json::Number("7".to_string())), ("id", Json::Bool(true))]),
                Json::Null,
            ]),
        ),
    ]);
    let r = sorted_and_redacted(&payload);
    assert_eq!(
        to_json_text(&r),
        r#"{"Bot_Token":"<redacted>","nested":[{"clientSecret":"<redacted>","id":true},null],"text":"hi"}"#
    );
    let again = sorted_and_redacted(&r);
    assert_eq!(again, r);
}

#[test]
fn pack_adapters_get_platforms() {
    let decls = vec![
        PackAdapterDecl { name: "messaging.slack.bot".to_string(), egress: true, named_platform: Some(Platform::Slack) },
        PackAdapterDecl { name: "ingress-only".to_string(), egress: false, named_platform: None },
        PackAdapterDecl { name: "my-webex-sender".to_string(), egress: true, named_platform: None },
        PackAdapterDecl { name: "custom".to_string(), egress: true, named_platform: None },
    ];
    assert_eq!(
        select_pack_adapters(&decls, Some(Platform::Teams)),
        Ok(vec![
            ("messaging.slack.bot".to_string(), Platform::Slack),
            ("my-webex-sender".to_string(), Platform::Webex),
            ("custom".to_string(), Platform::Teams),
        ])
    );
    assert_eq!(
        select_pack_adapters(&decls, None),
        Err("unable to infer platform for adapter custom; use --platform".to_string())
    );
    assert_eq!(
        select_pack_adapters(&decls[1..2].iter().map(|d| PackAdapterDecl {
            name: d.name.clone(),
            egress: d.egress,
            named_platform: d.named_platform,
        }).collect(), None),
        Err("no egress adapters found in packs; ensure the pack exposes adapters".to_string())
    );
}

#[test]
fn comma_settings_drop_blank_entries() {
    assert_eq!(comma_list(" a.gtpack, ,b.gtpack ,"), strings(&["a.gtpack", "b.gtpack"]));
    assert_eq!(comma_list(""), Vec::<String>::new());
    assert!(install_all_setting(Some("TRUE")));
    assert!(!install_all_setting(Some(" true")));
    assert!(!install_all_setting(None));
}

#[test]
fn provider_types_split_into_platforms_and_unknown() {
    let types = strings(&["messaging.teams.graph", "messaging.slack.api", "custom.thing", "slack-bot", "custom.thing"]);
    let (platforms, unknown) = platforms_of_provider_types(&types);
    assert_eq!(platforms, strings(&["slack", "teams"]));
    assert_eq!(unknown, strings(&["custom.thing"]));
}

fn block(kind: &str, body: &str) -> Json {
    object(vec![("type", text(kind)), ("text", text(body))])
}

fn column(items: Vec<Json>) -> Json {
    object(vec![("type", text("Column")), ("items", Json::Array(items))])
}

fn column_set(columns: Vec<Json>) -> Json {
    object(vec![("type", text("ColumnSet")), ("columns", Json::Array(columns))])
}

#[test]
fn column_sets_are_flattened_into_the_body() {
    let nested = column_set(vec![object(vec![(
        "items",
        Json::Array(vec![object(vec![("type", text("Image")), ("url", text("u"))])]),
    )])]);
    let mut card = object(vec![
        ("type", text("AdaptiveCard")),
        (
            "body",
            Json::Array(vec![
                block("TextBlock", "A"),
                column_set(vec![
                    column(vec![block("TextBlock", "B"), nested]),
                    column(vec![block("TextBlock", "C")]),
                    text("not-a-column"),
                ]),
                block("TextBlock", "D"),
            ]),
        ),
    ]);
    flatten_column_sets(&mut card);
    assert_eq!(
        to_json_text(&card),
        r#"{"body":[{"text":"A","type":"TextBlock"},{"text":"B","type":"TextBlock"},{"type":"Image","url":"u"},{"text":"C","type":"TextBlock"},{"text":"D","type":"TextBlock"}],"type":"AdaptiveCard"}"#
    );
}

#[test]
fn column_sets_inside_containers_and_arrays_are_flattened() {
    let mut list = Json::Array(vec![
        column_set(vec![column(vec![block("TextBlock", "x")])]),
        object(vec![("type", text("ColumnSet"))]),
        object(vec![(
            "items",
            Json::Array(vec![column_set(vec![column(vec![block("TextBlock", "y")])])]),
        )]),
    ]);
    flatten_column_sets(&mut list);
    assert_eq!(
        to_json_text(&list),
        r#"[{"text":"x","type":"TextBlock"},{"items":[{"text":"y","type":"TextBlock"}]}]"#
    );
    let mut body = vec![column_set(vec![]), block("TextBlock", "z")];
    flatten_body(&mut body);
    assert_eq!(body.len(), 1);
    assert_eq!(to_json_text(&body[0]), r#"{"text":"z","type":"TextBlock"}"#);
}

#[test]
fn run_all_needs_dry_run_without_packs() {
    assert_eq!(run_all_mode(true, false), Ok(RunAllMode::Packs));
    assert_eq!(run_all_mode(false, true), Ok(RunAllMode::BuiltIn));
    assert_eq!(run_all_mode(false, false), Err("run all currently supports dry-run only".to_string()));
    assert_eq!(fixtures_dir("cards", true), "cards");
    assert_eq!(fixtures_dir("cards", false), "crates/gsm-dev-viewer/fixtures");
}
