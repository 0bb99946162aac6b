use dar_extensions::json::{Json, Member};
use dar_extensions::slack::config::SlackConfig;
use dar_extensions::slack::tools::{
    check_send, limit, outbound_allowed, query, sent_text, valid_id, valid_timestamp, SendError,
    ToolKind, MAX_RESULTS,
};

fn convert(value: serde_json::Value) -> Json {
    match value {
        serde_json::Value::Null => Json::Null,
        serde_json::Value::Bool(b) => Json::Bool(b),
        serde_json::Value::Number(n) => {
            if let Some(u) = n.as_u64() {
                Json::Unsigned(u)
            } else if let Some(i) = n.as_i64() {
                Json::Negative(i)
            } else {
                Json::Decimal(n.to_string())
            }
        }
        serde_json::Value::String(s) => Json::Text(s),
        serde_json::Value::Array(list) => Json::Array(list.into_iter().map(convert).collect()),
        serde_json::Value::Object(map) => Json::Object(
            map.into_iter()
                .map(|(name, value)| Member {
                    name,
                    value: convert(value),
                })
                .collect(),
        ),
    }
}

fn json(text: &str) -> Json {
    convert(serde_json::from_str(text).unwrap())
}

#[test]
fn registered_tool_names_are_codex_compatible() {
    for kind in [ToolKind::Send, ToolKind::Users, ToolKind::Channels] {
        assert!(kind.name().chars().all(
            |character| character.is_ascii_alphanumeric() || matches!(character, '_' | '-')
        ));
    }
}

#[test]
fn limits_and_queries_are_read() {
    assert_eq!(limit(&json(r#"{"limit":5}"#)), 5);
    assert_eq!(limit(&json(r#"{"limit":100000}"#)), MAX_RESULTS);
    assert_eq!(query(&json(r#"{"query":" bob "}"#)).as_deref(), Some("bob"));
    assert_eq!(query(&json(r#"{"query":"  "}"#)), None);
}

#[test]
fn ids_and_timestamps_are_checked() {
    assert!(valid_id("C0123ABC"));
    assert!(!valid_id("C/1"));
    assert!(valid_id(&"C".repeat(32)));
    assert!(!valid_id(&"C".repeat(33)));
    assert!(valid_timestamp("1234.5678"));
    assert!(!valid_timestamp("soon"));
}

#[test]
fn slack_send_requests_are_checked() {
    let cfg = SlackConfig::default();
    assert!(outbound_allowed(&cfg, "C1"));
    let plan = check_send(&cfg, &json(r#"{"channel":"C1","text":"**hi**","thread_ts":"1.2"}"#)).unwrap();
    assert_eq!(plan.channel, "C1");
    assert!(!plan.is_user);
    assert_eq!(plan.parts, vec!["*hi*"]);
    assert_eq!(plan.thread_ts.as_deref(), Some("1.2"));
    for (args, error) in [
        (r#"{"text":"hi"}"#, SendError::InvalidChannel),
        (r#"{"channel":"C1","text":" "}"#, SendError::InvalidText),
        (r#"{"channel":"C1","text":"hi","thread_ts":"x"}"#, SendError::InvalidThread),
        (r#"{"channel":"U1","text":"hi"}"#, SendError::UserNotAllowed),
    ] {
        assert_eq!(check_send(&cfg, &json(args)).unwrap_err(), error, "{args}");
        assert!(!error.message().is_empty());
    }
    assert!(sent_text("C1", "1.2").contains("C1"));
}
