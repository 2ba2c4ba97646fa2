use greentic_messaging::json::{render_json_strings, template_strings, to_json_text, Json};
use greentic_messaging::platform::Platform;
use greentic_messaging::runner::{
    assemble_card, card_templates, message_from_channel, session_write, sort_flows,
    team_or_default, CardAction, ChannelMessage, EnvelopeError,
    CardBlock, CardNode, FlowIndex, FlowMeta, Hop, RenderedAction, RenderedBlock, RunnerFlow,
    RunnerNode, SessionWrite,
};
use greentic_messaging::runner::{
    nats_url_from_config, tool_attempts, tool_endpoint_from_config, tool_failure_message, tool_url,
    RunnerConfig, ServiceTransport, ToolRef, stub_flow, with_public_base_url, MessageEnvelope,
    default_envelope, stub_channel_message, RequestFields,
};
use greentic_messaging::strmap::StrMap;

fn meta(pack: &str, flow: &str, platform: Option<&str>, route: Option<&str>) -> FlowMeta {
    FlowMeta {
        pack_id: pack.to_string(),
        flow_id: flow.to_string(),
        platform: platform.map(str::to_string),
        route: route.map(str::to_string),
    }
}

#[test]
fn selects_flow_by_route_then_platform_then_default() {
    let flows = vec![
        meta("test-pack", "flow-default", Some("slack"), Some("slack-main")),
        meta("test-pack", "flow-alt", Some("slack"), Some("slack-alt")),
    ];
    let mut defaults = StrMap::new();
    defaults.insert("test-pack".to_string(), "flow-default".to_string());
    let registry = FlowIndex::new(flows, &defaults);

    let selected = registry.select_flow(Some("slack-alt"), "slack").unwrap();
    assert_eq!(registry.flows[selected].flow_id, "flow-alt");

    let selected = registry.select_flow(None, "slack").unwrap();
    assert_eq!(registry.flows[selected].flow_id, "flow-default");
}

#[test]
fn unknown_platform_falls_back_to_smallest_default() {
    let flows = vec![
        meta("b-pack", "flow-b", Some("teams"), None),
        meta("a-pack", "flow-a", Some("teams"), None),
    ];
    let mut defaults = StrMap::new();
    defaults.insert("b-pack".to_string(), "flow-b".to_string());
    let registry = FlowIndex::new(flows, &defaults);
    assert_eq!(registry.flows[0].pack_id, "a-pack");
    let selected = registry.select_flow(None, "webex").unwrap();
    assert_eq!(registry.flows[selected].flow_id, "flow-b");

    let empty = FlowIndex::new(Vec::new(), &StrMap::new());
    assert!(empty.is_empty());
    assert_eq!(
        empty.select_flow(None, "slack"),
        Err("no flows registered for platform slack".to_string())
    );
}

#[test]
fn flows_sort_by_pack_flow_and_route() {
    let sorted = sort_flows(vec![
        meta("p", "b", None, Some("r2")),
        meta("p", "b", None, None),
        meta("p", "a", None, Some("r1")),
    ]);
    let keys: Vec<(String, Option<String>)> = sorted
        .iter()
        .map(|m| (m.flow_id.clone(), m.route.clone()))
        .collect();
    assert_eq!(
        keys,
        vec![
            ("a".to_string(), Some("r1".to_string())),
            ("b".to_string(), None),
            ("b".to_string(), Some("r2".to_string())),
        ]
    );
}

fn render_all(templates: &[String], context: &str) -> Vec<String> {
    let mut hbs = handlebars::Handlebars::new();
    hbs.register_escape_fn(handlebars::no_escape);
    let ctx: serde_json::Value = serde_json::from_str(context).expect("context json");
    templates
        .iter()
        .map(|t| hbs.render_template(t, &ctx).expect("render"))
        .collect()
}

#[test]
fn render_card_applies_templates() {
    let card = CardNode {
        title: Some("Ticket for {{envelope.chat_id}}".into()),
        body: vec![
            CardBlock::Text {
                text: "Score: {{state.score}}".into(),
                markdown: Some(true),
            },
            CardBlock::Fact {
                label: "Link".into(),
                value: "{{payload.url}}".into(),
            },
        ],
        actions: vec![
            CardAction::OpenUrl {
                title: "Open".into(),
                url: "{{payload.url}}".into(),
                jwt: Some(false),
            },
            CardAction::Postback {
                title: "Ack".into(),
            },
        ],
    };
    let context = r#"{"envelope": {"chat_id": "C123"}, "state": {"score": 42}, "payload": {"url": "https://example.com"}}"#;
    let templates = card_templates(&card);
    assert_eq!(templates.len(), 7);
    let rendered_texts = render_all(&templates, context);
    let rendered = assemble_card(&card, &rendered_texts);

    assert_eq!(rendered.title.as_deref(), Some("Ticket for C123"));
    assert_eq!(rendered.body.len(), 2);
    assert_eq!(rendered.actions.len(), 2);
    match &rendered.body[0] {
        RenderedBlock::Text { text, markdown } => {
            assert_eq!(text, "Score: 42");
            assert!(*markdown);
        }
        _ => panic!("expected text block"),
    }
    match &rendered.body[1] {
        RenderedBlock::Fact { value, .. } => assert_eq!(value, "https://example.com"),
        _ => panic!("expected fact block"),
    }
    match &rendered.actions[0] {
        RenderedAction::OpenUrl { url, jwt, .. } => {
            assert_eq!(url, "https://example.com");
            assert!(!*jwt);
        }
        _ => panic!("expected open url action"),
    }
    assert_eq!(
        rendered.actions[1],
        RenderedAction::Postback {
            title: "Ack".to_string(),
            index: 1
        }
    );
}

fn node(routes: &[&str]) -> RunnerNode {
    RunnerNode {
        has_qa: false,
        tool: None,
        template: None,
        card: None,
        routes: routes.iter().map(|r| r.to_string()).collect(),
    }
}

#[test]
fn flow_validation_and_steps() {
    let mut nodes = StrMap::new();
    nodes.insert("start".to_string(), node(&["next"]));
    nodes.insert("next".to_string(), node(&["end"]));
    let flow = RunnerFlow {
        id: "flow-1".to_string(),
        title: None,
        kind: "messaging".to_string(),
        entry: "start".to_string(),
        nodes,
    };
    assert_eq!(flow.validate(), Ok(()));
    assert_eq!(flow.step("start").unwrap().next, Hop::Goto("next".to_string()));
    assert_eq!(flow.step("next").unwrap().next, Hop::Stop);
    assert_eq!(
        flow.step("missing").map(|s| s.next),
        Err("node not found: missing".to_string())
    );

    let broken = RunnerFlow {
        id: "flow-2".to_string(),
        title: None,
        kind: "messaging".to_string(),
        entry: "nowhere".to_string(),
        nodes: {
            let mut n = StrMap::new();
            n.insert("start".to_string(), node(&[]));
            n
        },
    };
    assert_eq!(
        broken.validate(),
        Err("flow flow-2 entry point `nowhere` not found in nodes".to_string())
    );
}

#[test]
fn sessions_and_teams() {
    assert_eq!(session_write(true, false), SessionWrite::Update);
    assert_eq!(session_write(false, true), SessionWrite::Create);
    assert_eq!(session_write(false, false), SessionWrite::Skip);
    assert_eq!(team_or_default(None), "default");
    assert_eq!(team_or_default(Some("support")), "support");
}

fn payload(members: Vec<(&str, Json)>) -> Json {
    let mut m = StrMap::new();
    for (k, v) in members {
        m.insert(k.to_string(), v);
    }
    Json::Object(m)
}

#[test]
fn envelopes_from_channel_messages() {
    let channel = ChannelMessage {
        tenant: "acme".to_string(),
        channel_id: "slack".to_string(),
        session_id: "chat".to_string(),
        payload: payload(vec![
            ("msg_id", Json::Str("m1".to_string())),
            ("timestamp", Json::Str("2025-01-01T00:00:00Z".to_string())),
            ("metadata", payload(vec![("route", Json::Str("slack-alt".to_string()))])),
            ("headers", payload(vec![("x", Json::Bool(true))])),
        ]),
    };
    let env = message_from_channel(channel).expect("envelope");
    assert_eq!(env.platform, Platform::Slack);
    assert_eq!(env.chat_id, "chat");
    assert_eq!(env.msg_id, "m1");
    assert_eq!(env.user_id, "unknown");
    assert_eq!(env.timestamp, "2025-01-01T00:00:00Z");
    assert_eq!(env.context.get("route"), Some(&Json::Str("slack-alt".to_string())));
    assert!(env.context.get("headers").is_some());

    let bad = ChannelMessage {
        tenant: "acme".to_string(),
        channel_id: "fax".to_string(),
        session_id: "chat".to_string(),
        payload: Json::Null,
    };
    let err = message_from_channel(bad).unwrap_err();
    assert_eq!(err, EnvelopeError::InvalidPlatform("fax".to_string()));
    assert_eq!(err.message(), "invalid platform: fax");
    let blank = ChannelMessage {
        tenant: "acme".to_string(),
        channel_id: "teams".to_string(),
        session_id: " ".to_string(),
        payload: Json::Null,
    };
    assert_eq!(message_from_channel(blank).unwrap_err(), EnvelopeError::MissingChatId);
}

fn obj(members: Vec<(&str, Json)>) -> Json {
    let mut m = StrMap::new();
    for (k, v) in members {
        m.insert(k.to_string(), v);
    }
    Json::Object(m)
}

fn text(s: &str) -> Json {
    Json::Str(s.to_string())
}

fn render_outcomes(value: &Json, context: serde_json::Value) -> Vec<Result<String, String>> {
    let hbs = handlebars::Handlebars::new();
    template_strings(value)
        .iter()
        .map(|t| hbs.render_template(t, &context).map_err(|e| e.to_string()))
        .collect()
}

fn member<'a>(v: &'a Json, k: &str) -> &'a Json {
    match v {
        Json::Object(m) => m.get(k).expect("member"),
        _ => panic!("not an object"),
    }
}

fn element(v: &Json, i: usize) -> &Json {
    match v {
        Json::Array(a) => &a[i],
        _ => panic!("not an array"),
    }
}

#[test]
fn render_json_strings_substitutes_nested_templates() {
    let mut value = obj(vec![
        ("greeting", text("Hello {{state.user}}")),
        ("items", Json::Array(vec![text("{{envelope.chat_id}}"), text("{{state.extra}}")])),
    ]);
    let ctx: serde_json::Value = serde_json::from_str(
        r#"{"state":{"user":"Alice","extra":"item-2"},"envelope":{"chat_id":"chat-1"}}"#,
    )
    .expect("context");
    let rendered = render_outcomes(&value, ctx);
    render_json_strings(&mut value, &rendered).unwrap();
    assert_eq!(member(&value, "greeting"), &text("Hello Alice"));
    assert_eq!(element(member(&value, "items"), 0), &text("chat-1"));
    assert_eq!(element(member(&value, "items"), 1), &text("item-2"));
}

#[test]
fn render_json_strings_leaves_non_strings() {
    let mut value = obj(vec![
        ("count", Json::Number("3".to_string())),
        ("flags", Json::Array(vec![Json::Bool(true), Json::Bool(false)])),
        ("note", text("Hi {{state.name}}")),
    ]);
    let ctx: serde_json::Value = serde_json::from_str(r#"{"state":{"name":"Bob"}}"#).expect("context");
    let rendered = render_outcomes(&value, ctx);
    render_json_strings(&mut value, &rendered).unwrap();
    assert_eq!(member(&value, "count"), &Json::Number("3".to_string()));
    assert_eq!(element(member(&value, "flags"), 0), &Json::Bool(true));
    assert_eq!(member(&value, "note"), &text("Hi Bob"));
}

#[test]
fn render_json_strings_stops_at_the_first_failure() {
    let mut value = Json::Array(vec![text("a"), text("{{#if}}"), text("c")]);
    let before = to_json_text(&value);
    let rendered = vec![Ok("A".to_string()), Err("bad template".to_string()), Err("later".to_string())];
    assert_eq!(render_json_strings(&mut value, &rendered), Err("bad template".to_string()));
    assert_eq!(to_json_text(&value), before);
    let strings = template_strings(&value);
    let own: Vec<Result<String, String>> = strings.into_iter().map(Ok).collect();
    render_json_strings(&mut value, &own).unwrap();
    assert_eq!(to_json_text(&value), before);
}

#[test]
fn runner_config_defaults_and_overrides() {
    let c = RunnerConfig::from_config("dev", "/srv/greentic", None, None).expect("config");
    assert_eq!(c.env, "dev");
    assert_eq!(c.nats_url, "nats://127.0.0.1:4222");
    assert_eq!(c.packs_root, "/srv/greentic/packs");
    assert_eq!(c.tool_endpoint, "http://localhost:18081");
    let nats = ServiceTransport::Nats { url: "nats://bus:4222".to_string() };
    let tools = ServiceTransport::Http { url: "http://tools:9000/".to_string() };
    let c = RunnerConfig::from_config("prod", "root/", Some(&nats), Some(&tools)).expect("config");
    assert_eq!(c.nats_url, "nats://bus:4222");
    assert_eq!(c.packs_root, "root/packs");
    assert_eq!(c.tool_endpoint, "http://tools:9000/");
    let http = ServiceTransport::Http { url: "http://events".to_string() };
    assert_eq!(
        RunnerConfig::from_config("dev", "/r", Some(&http), None).map(|c| c.env),
        Err("services.events_transport must use NATS for runner".to_string())
    );
    assert_eq!(nats_url_from_config(Some(&ServiceTransport::Noop)), Ok(None));
    assert_eq!(tool_endpoint_from_config(Some(&nats)), None);
}

#[test]
fn tool_calls_go_to_the_endpoint() {
    let tool = ToolRef { tool: "weather".to_string(), action: "forecast".to_string() };
    assert_eq!(tool_url("http://localhost:18081//", &tool), "http://localhost:18081/weather/forecast");
    assert_eq!(tool_url("http://tools", &tool), "http://tools/weather/forecast");
    assert_eq!(tool_attempts(None), 2);
    assert_eq!(tool_attempts(Some(0)), 1);
    assert_eq!(tool_failure_message(tool_attempts(Some(3))), "tool call failed after 4 attempts");
}

#[test]
fn stub_flow_is_a_valid_single_template_flow() {
    let f = stub_flow();
    assert_eq!(f.validate(), Ok(()));
    assert_eq!(f.id, "stub-flow");
    assert_eq!(f.kind, "qa");
    let start = f.nodes.get("start").expect("start node");
    assert_eq!(start.template.as_ref().map(|t| t.template.as_str()), Some("conformance stub"));
    assert_eq!(start.routes, vec!["end".to_string()]);
    assert_eq!(f.nodes.len(), 1);
}

#[test]
fn conformance_envelopes_carry_the_public_url() {
    let mut context = StrMap::new();
    context.insert("source".to_string(), Json::Str("e2e".to_string()));
    let env = MessageEnvelope {
        tenant: "acme".to_string(),
        platform: Platform::Slack,
        chat_id: "chat-1".to_string(),
        user_id: "user-1".to_string(),
        thread_id: None,
        msg_id: "msg-1".to_string(),
        text: Some("hi".to_string()),
        timestamp: "2024-01-01T00:00:00Z".to_string(),
        context,
    };
    let env = with_public_base_url(env, "https://example.invalid");
    assert_eq!(env.context.get("public_base_url"), Some(&Json::Str("https://example.invalid".to_string())));
    assert_eq!(env.context.get("PUBLIC_BASE_URL"), Some(&Json::Str("https://example.invalid".to_string())));
    assert_eq!(env.context.get("source"), Some(&Json::Str("e2e".to_string())));
    assert_eq!(env.chat_id, "chat-1");
}

#[test]
fn default_envelopes_fill_in_fixture_values_and_round_trip() {
    let req = RequestFields { chat_id: None, user_id: Some("u-9".to_string()), thread_id: None, msg_id: None, text: Some("hello".to_string()) };
    let env = default_envelope("acme", req, &vec![None, Some(Platform::Teams), Some(Platform::Webex)]);
    assert_eq!(env.platform, Platform::Teams);
    assert_eq!(env.chat_id, "chat-1");
    assert_eq!(env.user_id, "u-9");
    assert_eq!(env.msg_id, "msg-1");
    assert_eq!(env.timestamp, "2024-01-01T00:00:00Z");
    assert_eq!(env.context.get("source"), Some(&Json::Str("e2e".to_string())));
    let slack = default_envelope("acme", RequestFields { chat_id: Some("C7".to_string()), user_id: None, thread_id: None, msg_id: None, text: None }, &vec![None]);
    assert_eq!(slack.platform, Platform::Slack);
    assert_eq!(slack.chat_id, "C7");

    let channel = stub_channel_message("acme", env);
    assert_eq!(channel.channel_id, "teams");
    assert_eq!(channel.session_id, "chat-1");
    let back = message_from_channel(channel).expect("envelope");
    assert_eq!(back.platform, Platform::Teams);
    assert_eq!(back.chat_id, "chat-1");
    assert_eq!(back.user_id, "u-9");
    assert_eq!(back.msg_id, "msg-1");
    assert_eq!(back.text.as_deref(), Some("hello"));
    assert_eq!(back.thread_id, None);
    assert_eq!(back.timestamp, "2024-01-01T00:00:00Z");
    assert_eq!(back.context.get("source"), Some(&Json::Str("e2e".to_string())));
}
