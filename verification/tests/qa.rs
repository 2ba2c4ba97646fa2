use greentic_messaging::json::Json;
use greentic_messaging::qa::{
    agent_request, agent_url, max_words_message, missing_questions, qa_answers_from_text,
    qa_apply_defaults, qa_max_words_violation, qa_merge_extracted, qa_state, NumberPattern,
    Question,
};
use greentic_messaging::runner::AgentCfg;
use greentic_messaging::strmap::StrMap;

fn question(id: &str, answer_type: Option<&str>, max_words: Option<usize>) -> Question {
    Question {
        id: id.to_string(),
        answer_type: answer_type.map(str::to_string),
        max_words,
    }
}

#[test]
fn run_qa_populates_defaults_and_text() {
    let questions = vec![
        question("name", None, Some(3)),
        question("quantity", Some("number"), None),
    ];
    let mut state = qa_state(Json::Null);
    qa_apply_defaults(&mut state, vec![("name".to_string(), Json::Str("guest".to_string()))]);
    assert_eq!(missing_questions(&questions, &state), vec!["quantity".to_string()]);
    qa_answers_from_text(&questions, &mut state, "I need 4 adapters", NumberPattern::Digits);
    assert_eq!(state.get("name"), Some(&Json::Str("guest".to_string())));
    assert_eq!(state.get("quantity"), Some(&Json::Number("4".to_string())));
    assert!(missing_questions(&questions, &state).is_empty());
}

#[test]
fn run_qa_errors_when_max_words_exceeded() {
    let questions = vec![question("desc", None, Some(1))];
    let mut initial = StrMap::new();
    initial.insert("desc".to_string(), Json::Str("too many words".to_string()));
    let state = qa_state(Json::Object(initial));
    let violation = qa_max_words_violation(&questions, &state);
    assert_eq!(violation, Some(0));
    let message = max_words_message("desc", 1);
    assert_eq!(message, "answer 'desc' exceeds max_words 1");
    assert!(message.contains("max_words"));
}

#[test]
fn text_answers_take_leading_words() {
    let questions = vec![
        question("city", None, None),
        question("count", Some("number"), None),
    ];
    let mut state = qa_state(Json::Null);
    qa_answers_from_text(&questions, &mut state, "  deliver to New York City please ", NumberPattern::Digits);
    assert_eq!(state.get("city"), Some(&Json::Str("deliver to New".to_string())));
    assert_eq!(state.get("count"), None);
    let mut big = qa_state(Json::Null);
    qa_answers_from_text(&questions, &mut big, "order 99999999999999999999 now", NumberPattern::Digits);
    let mut escaped = qa_state(Json::Null);
    qa_answers_from_text(&questions, &mut escaped, "order 12 now", NumberPattern::EscapedDigits);
    assert_eq!(escaped.get("count"), None);
    qa_answers_from_text(&questions, &mut escaped, r"order \\dd now", NumberPattern::EscapedDigits);
    assert_eq!(escaped.get("count"), Some(&Json::Number("1".to_string())));
    assert_eq!(big.get("count"), Some(&Json::Number("1".to_string())));
}

#[test]
fn agent_answers_and_requests() {
    let mut state = qa_state(Json::Null);
    qa_apply_defaults(&mut state, vec![("a".to_string(), Json::Bool(true))]);
    let mut extracted = StrMap::new();
    extracted.insert("a".to_string(), Json::Bool(false));
    extracted.insert("b".to_string(), Json::Null);
    qa_merge_extracted(&mut state, Json::Object(extracted));
    assert_eq!(state.get("a"), Some(&Json::Bool(false)));
    assert_eq!(state.get("b"), Some(&Json::Null));
    qa_merge_extracted(&mut state, Json::Str("ignored".to_string()));
    assert_eq!(state.len(), 2);

    let agent = AgentCfg {
        kind: None,
        model: Some("m".to_string()),
        task: None,
        endpoint: None,
    };
    assert_eq!(agent_url(&agent), "http://localhost:18080/agent/extract");
    match agent_request(&agent, Some("hello".to_string())) {
        Json::Object(body) => {
            assert_eq!(body.get("type"), Some(&Json::Str("ollama".to_string())));
            assert_eq!(body.get("model"), Some(&Json::Str("m".to_string())));
            assert_eq!(body.get("task"), Some(&Json::Str("extract keys".to_string())));
            assert_eq!(body.get("text"), Some(&Json::Str("hello".to_string())));
        }
        other => panic!("unexpected request {other:?}"),
    }
}
