use dar_extensions::json::{Json, Member};
use dar_extensions::telegram::channel::{
    attempts, authorized, backend_missing, check_send, next_offset, plan_reply, resolve_backend,
    resolve_token, sent_text, split_message, triage, SendError, TelegramConfig, Triage,
    TELEGRAM_MAX_CHARS,
};
use dar_extensions::telegram::markdown::ParseMode;
use dar_extensions::telegram::session::ResetCommand;

fn convert(value: serde_json::Value) -> Json {
    match value {
        serde_json::Value::Null => Json::Null,
        serde_json::Value::Bool(b) => Json::Bool(b),
        serde_json::Value::Number(n) => {
            if let Some(u) = n.as_u64() {
                Json::Unsigned(u)
            } else if let Some(i) = n.as_i64() {
                Json::Negative(i)
            } else {
                Json::Decimal(n.to_string())
            }
        }
        serde_json::Value::String(s) => Json::Text(s),
        serde_json::Value::Array(list) => Json::Array(list.into_iter().map(convert).collect()),
        serde_json::Value::Object(map) => Json::Object(
            map.into_iter()
                .map(|(name, value)| Member {
                    name,
                    value: convert(value),
                })
                .collect(),
        ),
    }
}

fn json(text: &str) -> Json {
    convert(serde_json::from_str(text).unwrap())
}


#[test]
fn lib_empty_allowlist_permits_anyone() {
    assert!(authorized(Some(5), &[]));
    assert!(authorized(None, &[]));
}

#[test]
fn allowlist_gates_by_user_id() {
    assert!(authorized(Some(5), &[5, 9]));
    assert!(!authorized(Some(7), &[5, 9]));
    assert!(!authorized(None, &[5]));
}

#[test]
fn split_message_chunks_on_limit() {
    let small = "hello";
    assert_eq!(split_message(small), vec!["hello".to_string()]);
    assert!(split_message("").is_empty());

    let big: String = "x".repeat(TELEGRAM_MAX_CHARS + 10);
    let chunks = split_message(&big);
    assert_eq!(chunks.len(), 2);
    assert_eq!(chunks[0].chars().count(), TELEGRAM_MAX_CHARS);
    assert_eq!(chunks[1].chars().count(), 10);
}

#[test]
fn telegram_send_rejects_empty_text() {
    let error = check_send(&json(r#"{ "chat_id": 123, "text": "   " }"#)).unwrap_err();
    assert_eq!(error, SendError::EmptyText);
    assert_eq!(error.code(), "invalid_args");
    assert_eq!(
        error.message(),
        "telegram_send_message requires non-empty string 'text'"
    );
}

#[test]
fn send_requests_name_a_chat() {
    for args in [
        r#"{"text":"hi"}"#,
        r#"{"chat_id":"1","text":"hi"}"#,
        r#"{"chat_id":1.5,"text":"hi"}"#,
        r#"{"chat_id":9223372036854775808,"text":"hi"}"#,
    ] {
        assert_eq!(
            check_send(&json(args)).unwrap_err(),
            SendError::InvalidChat,
            "{args}"
        );
    }
    let request = check_send(&json(r#"{"chat_id":-100,"text":" hi "}"#)).unwrap();
    assert_eq!(request.chat_id, -100);
    assert_eq!(request.chunks, vec!["hi"]);
    assert_eq!(sent_text(-100), "sent Telegram message to chat -100");
}

#[test]
fn messages_are_triaged() {
    assert_eq!(triage(Some(1), None, &[]), Triage::Ignore);
    assert_eq!(triage(Some(1), Some("/new"), &[2]), Triage::Refuse);
    assert_eq!(
        triage(Some(2), Some("/new@bot"), &[2]),
        Triage::Reset(ResetCommand::New)
    );
    assert_eq!(triage(Some(2), Some("/new please"), &[2]), Triage::Answer);
    assert_eq!(next_offset(41), 42);
}

#[test]
fn tokens_and_backends_fall_back() {
    let mut cfg = TelegramConfig::default();
    assert_eq!(resolve_token(&cfg, None), None);
    assert_eq!(resolve_token(&cfg, Some("")), None);
    assert_eq!(resolve_token(&cfg, Some("env")).as_deref(), Some("env"));
    cfg.bot_token = Some("own".to_string());
    assert_eq!(resolve_token(&cfg, Some("env")).as_deref(), Some("own"));
    assert_eq!(cfg.sessions.idle_minutes, 360);

    assert_eq!(resolve_backend(Some("x"), Some("runner"), true), "x");
    assert_eq!(resolve_backend(None, Some("runner"), true), "runner");
    assert_eq!(resolve_backend(Some(""), Some("runner"), false), "pi");
    assert_eq!(resolve_backend(None, Some(""), true), "pi");
    assert_eq!(resolve_backend(None, None, false), "pi");
    assert_eq!(backend_missing("x"), "chat backend 'x' not registered");
}

#[test]
fn a_short_reply_is_shown_in_its_message() {
    let plan = plan_reply("**completed**", Some(42));
    assert_eq!(plan.edit, Some(42));
    assert_eq!(plan.delete, None);
    assert_eq!(plan.chunks.len(), 1);
    let tries = attempts(&plan.chunks[0], plan.edit);
    assert_eq!(tries.len(), 3);
    assert_eq!(tries[0].edit, Some(42));
    assert_eq!(tries[0].text, "*completed*");
    assert_eq!(tries[0].parse_mode, ParseMode::MarkdownV2);
    assert_eq!(tries[1].edit, None);
    assert_eq!(tries[1].text, "*completed*");
    assert_eq!(tries[2].edit, None);
    assert_eq!(tries[2].text, "**completed**");
    assert_eq!(tries[2].parse_mode, ParseMode::Plain);
}

#[test]
fn a_long_reply_replaces_its_message() {
    let plan = plan_reply(&vec!["x".repeat(1000); 10].join("\n"), Some(42));
    assert!(plan.chunks.len() > 1);
    assert_eq!(plan.edit, None);
    assert_eq!(plan.delete, Some(42));
    let fresh = plan_reply("hi", None);
    assert_eq!((fresh.edit, fresh.delete), (None, None));
    assert_eq!(attempts(&fresh.chunks[0], None).len(), 2);
}
