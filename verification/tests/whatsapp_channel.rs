use dar_extensions::json::{Json, Member};
use dar_extensions::keyed::Keyed;
use dar_extensions::whatsapp::channel::{
    adapt_markdown, authorized, callback_url, check_send, credential, status_allowed, tool_preview,
    tool_status_allowed, triage, turn_failed, SendError, Triage, Turn, TurnEvent, WebhookConfig,
    WhatsAppConfig,
};
use dar_extensions::whatsapp::graph::{
    chunks, delivery_error, messages_url, plan_reply, Outbound, MAX_CHARS,
};
use dar_extensions::whatsapp::session::{is_reset, valid_wa_id, Pointer, SessionStore};

fn convert(value: serde_json::Value) -> Json {
    match value {
        serde_json::Value::Null => Json::Null,
        serde_json::Value::Bool(b) => Json::Bool(b),
        serde_json::Value::Number(n) => {
            if let Some(u) = n.as_u64() {
                Json::Unsigned(u)
            } else if let Some(i) = n.as_i64() {
                Json::Negative(i)
            } else {
                Json::Decimal(n.to_string())
            }
        }
        serde_json::Value::String(s) => Json::Text(s),
        serde_json::Value::Array(list) => Json::Array(list.into_iter().map(convert).collect()),
        serde_json::Value::Object(map) => Json::Object(
            map.into_iter()
                .map(|(name, value)| Member {
                    name,
                    value: convert(value),
                })
                .collect(),
        ),
    }
}

fn json(text: &str) -> Json {
    convert(serde_json::from_str(text).unwrap())
}

#[test]
fn unicode_chunks_at_chars() {
    let s = "💬".repeat(MAX_CHARS + 1);
    let got = chunks(&s);
    assert_eq!(got.len(), 2);
    assert_eq!(got[0].chars().count(), MAX_CHARS);
}

#[test]
fn rejects_path_ids() {
    assert!(!valid_wa_id("../x"));
    assert!(valid_wa_id("33612345678"));
}

#[test]
fn adapts_markdown() {
    assert_eq!(adapt_markdown("# **Hi**\n**yes**"), "*Hi*\n*yes*");
}

#[test]
fn rate_limits_statuses() {
    let mut last = Keyed::new();
    let now = 10_000;
    assert!(status_allowed(&mut last, "1", now));
    assert!(!status_allowed(&mut last, "1", now + 1_000));
    assert!(status_allowed(&mut last, "1", now + 2_000));
}

#[test]
fn disabled_tool_status_never_consumes_rate_limit() {
    let mut last = Keyed::new();
    assert!(!tool_status_allowed(false, &mut last, "1", 10_000));
    assert!(last.is_empty());
}

#[test]
fn replies_refer_to_the_message_first() {
    let long = "a".repeat(MAX_CHARS + 1);
    assert_eq!(
        plan_reply(&long, Some("wamid-1")),
        vec![
            Outbound {
                body: "a".repeat(MAX_CHARS),
                reply_to: Some("wamid-1".to_string()),
            },
            Outbound {
                body: "a".to_string(),
                reply_to: None,
            },
        ]
    );
    assert_eq!(plan_reply("", Some("wamid-1")).len(), 1);
    assert_eq!(
        messages_url("123", "v20.0"),
        "https://graph.facebook.com/v20.0/123/messages"
    );
}

#[test]
fn partial_deliveries_say_how_far_they_came() {
    let text = delivery_error(1, 3, "boom");
    assert_eq!(text, "partial delivery: 1 of 3 chunks accepted; boom");
}

#[test]
fn defaults_are_those_of_the_documentation() {
    let cfg = WhatsAppConfig::default();
    assert_eq!(cfg.api_version, "v20.0");
    assert!(cfg.tool_status);
    assert_eq!(cfg.sessions.idle_minutes, 360);
    assert_eq!(cfg.webhook.port, 8090);
    assert_eq!(cfg.webhook.path, "/whatsapp/webhook");
    assert!(cfg.webhook.has_valid_path());
    let relative = WebhookConfig {
        path: "hook".to_string(),
        ..WebhookConfig::default()
    };
    assert!(!relative.has_valid_path());
}

#[test]
fn blank_credentials_fall_back_to_the_environment() {
    assert_eq!(credential(Some("a"), Some("b")).as_deref(), Some("a"));
    assert_eq!(credential(Some("  "), Some("b")).as_deref(), Some("b"));
    assert_eq!(credential(None, Some("")), None);
}

#[test]
fn listed_users_alone_may_write() {
    assert!(authorized("1", &[]));
    assert!(authorized("1", &["1".to_string()]));
    assert!(!authorized("2", &["1".to_string()]));
    assert_eq!(triage("2", "hi", &["1".to_string()]), Triage::Refuse);
    assert_eq!(triage("x", "hi", &[]), Triage::Ignore);
    assert_eq!(triage("1", " /new ", &[]), Triage::Reset);
    assert_eq!(triage("1", "/new please", &[]), Triage::Answer);
    assert!(is_reset("/reset"));
}

#[test]
fn whatsapp_send_requests_are_checked() {
    let allowed = vec!["1".to_string()];
    let ok = check_send(&json(r#"{"wa_id":"1","text":"hi"}"#), &allowed).unwrap();
    assert_eq!((ok.wa_id.as_str(), ok.text.as_str()), ("1", "hi"));
    let error = check_send(&json(r#"{"wa_id":"x","text":"hi"}"#), &allowed).unwrap_err();
    assert_eq!(error, SendError::InvalidRecipient);
    assert_eq!(error.code(), "invalid_args");
    let error = check_send(&json(r#"{"wa_id":"1","text":" "}"#), &allowed).unwrap_err();
    assert_eq!(error, SendError::EmptyText);
    let error = check_send(&json(r#"{"wa_id":"2","text":"hi"}"#), &allowed).unwrap_err();
    assert_eq!(error, SendError::NotAuthorized);
    assert_eq!(error.code(), "not_authorized");
    assert_eq!(error.message(), "WhatsApp recipient is not authorized");
}

#[test]
fn previews_show_the_target() {
    assert_eq!(
        tool_preview("read", r#"{"path":"/etc/hosts"}"#),
        "read · /etc/hosts"
    );
    assert_eq!(tool_preview("noop", "{}"), "noop");
    assert_eq!(tool_preview("weird", "not json"), "weird");
}

#[test]
fn turns_end_in_an_answer_or_a_reason() {
    let mut turn = Turn::new();
    turn.on_event(TurnEvent::Text("agent ".to_string()));
    turn.on_event(TurnEvent::Text("reply".to_string()));
    assert!(!turn.is_done());
    turn.on_event(TurnEvent::Finished);
    assert!(turn.is_done());
    assert_eq!(turn.into_result(), Ok("agent reply".to_string()));

    let mut silent = Turn::new();
    silent.on_event(TurnEvent::Finished);
    assert_eq!(silent.into_result(), Ok("(no response)".to_string()));

    for (event, reason) in [
        (TurnEvent::Failed(None), "unknown"),
        (TurnEvent::Failed(Some("boom".to_string())), "boom"),
        (TurnEvent::Closed(None), "backend closed"),
        (TurnEvent::Ended, "backend event stream closed"),
        (TurnEvent::Shutdown, "shutdown requested"),
    ] {
        let mut turn = Turn::new();
        turn.on_event(event);
        assert_eq!(turn.into_result(), Err(reason.to_string()));
    }
    assert_eq!(turn_failed("boom"), "(turn failed: boom)");
}

#[test]
fn sessions_rotate_after_silence() {
    assert!(SessionStore::new("root", "../x").is_err());
    let store = SessionStore::new("root", "3361").unwrap();
    assert_eq!(store.pointer(), "root/3361/current.json");
    let first = store.prepare(None, 360, 1_000, 0);
    assert!(!first.rotated);
    assert_eq!(first.pointer.generation, "1000-000000");
    let live = store.prepare(Some(&first.pointer), 360, 1_060, 1);
    assert!(!live.rotated);
    assert_eq!(
        live.pointer,
        Pointer {
            generation: "1000-000000".to_string(),
            last_inbound: 1_060,
        }
    );
    let later = store.prepare(Some(&live.pointer), 360, 1_060 + 360 * 60, 1);
    assert!(later.rotated);
    assert_eq!(store.session_dir(&later.pointer.generation), "root/3361/22660-000001");
}

#[test]
fn the_path_follows_the_configured_address() {
    assert_eq!(
        callback_url(Some("https://bot.example//"), "/webhook").as_deref(),
        Some("https://bot.example/webhook")
    );
    assert_eq!(
        callback_url(Some(" https://bot.example"), "/w").as_deref(),
        Some(" https://bot.example/w")
    );
    assert_eq!(callback_url(Some("/"), "/w").as_deref(), Some("/w"));
    assert_eq!(callback_url(Some(" \t"), "/w"), None);
    assert_eq!(callback_url(None, "/w"), None);
}
