use dar_extensions::json::{Json, Member};
use dar_extensions::slack::addressing::{route, ConversationKind, InboundMessage, RouteDecision};
use dar_extensions::slack::api::SlackIdentity;
use dar_extensions::slack::commands::Command;
use dar_extensions::slack::config::SlackConfig;
use dar_extensions::slack::events::{
    dedupe_key, inbound, incoming, slash_command, Envelope, File, Incoming,
};
use dar_extensions::slack::runtime::{
    accepted_message, accepted_message_log, ack, append_artifact, attachment_name,
    attachment_note, choose_lane, command_allowed, current_session_dir, delivery_destination, dispose, files_to_fetch,
    generation_dir, generation_file, message_command, next_delay,
    next_generation, next_session_dir, on_envelope, ping_reply, plan_message, read_generation, should_log_socket_mode_hello,
    slash_step, stop_reply, trim_dedupe, work_key, Artifact, Disposition, EnvelopeStep, GenerationError, Lane, MessagePlan, Seen, SlashStep, Turn,
    TurnEvent, Work, MAX_DEDUPE_ENTRIES, MAX_KEYED_WORKERS,
};
use dar_extensions::slack::session::ConversationKey;

fn convert(value: serde_json::Value) -> Json {
    match value {
        serde_json::Value::Null => Json::Null,
        serde_json::Value::Bool(b) => Json::Bool(b),
        serde_json::Value::Number(n) => {
            if let Some(u) = n.as_u64() {
                Json::Unsigned(u)
            } else if let Some(i) = n.as_i64() {
                Json::Negative(i)
            } else {
                Json::Decimal(n.to_string())
            }
        }
        serde_json::Value::String(s) => Json::Text(s),
        serde_json::Value::Array(list) => Json::Array(list.into_iter().map(convert).collect()),
        serde_json::Value::Object(map) => Json::Object(
            map.into_iter()
                .map(|(name, value)| Member {
                    name,
                    value: convert(value),
                })
                .collect(),
        ),
    }
}

fn json(text: &str) -> Json {
    convert(serde_json::from_str(text).unwrap())
}

fn read_envelope(text: &str) -> Envelope {
    let value: serde_json::Value = serde_json::from_str(text).unwrap();
    let field = |name: &str| value[name].as_str().unwrap_or("").to_string();
    Envelope {
        envelope_id: field("envelope_id"),
        kind: field("type"),
        payload: convert(value["payload"].clone()),
    }
}

#[test]
fn ack_with_ephemeral_payload() {
    assert!(ack("x", Some("ok")).contains("ephemeral"));
}

#[test]
fn socket_mode_hello_logs_once_per_connection() {
    let hello = read_envelope(r#"{"type":"hello"}"#);
    let other = read_envelope(r#"{"type":"disconnect"}"#);
    let mut hello_logged = false;

    assert!(should_log_socket_mode_hello(&hello, &mut hello_logged));
    assert!(!should_log_socket_mode_hello(&hello, &mut hello_logged));
    assert!(!should_log_socket_mode_hello(&other, &mut hello_logged));
}

#[test]
fn dedupe_prefers_event_id_over_socket_envelope() {
    let envelope = read_envelope(r#"{
        "envelope_id":"socket-retry", "type":"events_api",
        "payload":{"event_id":"Ev1", "team_id":"T1", "event":{}}
    }"#);
    assert_eq!(dedupe_key(&envelope).as_deref(), Some("event:Ev1"));
}

#[test]
fn dedupe_is_bounded() {
    let mut dedupe = Seen::default();
    for index in 0..=MAX_DEDUPE_ENTRIES {
        dedupe.insert(&index.to_string(), 0);
    }
    trim_dedupe(&mut dedupe);
    assert_eq!(dedupe.len(), MAX_DEDUPE_ENTRIES);
}

#[test]
fn standard_event_uses_payload_team_id() {
    let envelope = read_envelope(r#"{
        "type":"events_api", "payload":{"event_id":"Ev1", "team_id":"T1",
        "event":{"type":"message","channel":"D1","user":"U1","ts":"1.2","text":"hello"}}
    }"#);
    let event = incoming(&envelope).expect("standard Events API message routes");
    assert_eq!(event.team_id, "T1");
}

#[test]
fn filters_bot_messages_and_reads_files() {
    let envelope = read_envelope(r#"{"type":"events_api","payload":{"event":{"type":"message","channel":"D1","user":"U1","ts":"1.2","files":[{"name":"x.png","mimetype":"image/png","url_private_download":"https://files.slack.com/x"}]}}}"#);
    assert_eq!(incoming(&envelope).unwrap().files.len(), 1);
}

#[test]
fn reaction_added_without_thread_ts_keeps_target_for_api_lookup() {
    let envelope = read_envelope(r#"{
        "type":"events_api", "payload":{"team_id":"T1", "event":{
            "type":"reaction_added", "user":"U1", "reaction":"eyes",
            "item":{"type":"message", "channel":"C1", "ts":"1.2"}
        }}
    }"#);
    let event = incoming(&envelope).expect("message reaction routes");
    assert_eq!(
        event.text,
        "[SYSTEM] User U1 reacted with eyes on message 1.2"
    );
    assert_eq!(event.thread_ts, None);
    assert!(event.is_reaction);
    let mentioned = format!("<@B1> {}", event.text);
    assert!(matches!(
        route(
            &SlackConfig::default(),
            &[],
            &InboundMessage {
                text: &mentioned,
                ..inbound(&event, "B1")
            }
        ),
        RouteDecision::Dispatch { .. }
    ));
}

#[test]
fn reaction_removed_routes_and_rejects_non_message_items() {
    let envelope = read_envelope(r#"{
        "type":"events_api", "payload":{"event":{
            "type":"reaction_removed", "user":"U1", "reaction":"eyes",
            "item":{"type":"message", "channel":"C1", "ts":"1.2"}
        }}
    }"#);
    assert_eq!(
        incoming(&envelope).unwrap().text,
        "[SYSTEM] User U1 removed reaction eyes on message 1.2"
    );
    let file_reaction = read_envelope(r#"{
        "type":"events_api", "payload":{"event":{
            "type":"reaction_added", "user":"U1", "reaction":"eyes",
            "item":{"type":"file", "channel":"C1", "ts":"1.2"}
        }}
    }"#);
    assert!(incoming(&file_reaction).is_none());
}

#[test]
fn bang_command_strips_bot_mention_before_routing() {
    let incoming = Incoming {
        team_id: "T".into(),
        channel_id: "C".into(),
        sender_id: "U".into(),
        text: "<@B1> !stop".into(),
        ts: "1.0".into(),
        thread_ts: Some("0.1".into()),
        kind: ConversationKind::Channel,
        files: vec![],
        is_reaction: false,
    };
    assert_eq!(
        message_command(
            &incoming,
            &SlackIdentity {
                user_id: "B1".into(),
                team_id: "T".into(),
                bot_id: None,
            },
            &[]
        ),
        Some(Command::Stop)
    );
}

#[test]
fn accepted_message_log_uses_only_safe_identifiers() {
    let incoming = Incoming {
        team_id: "T1".into(),
        channel_id: "D1\nsecret".into(),
        sender_id: "U1\tuser".into(),
        text: "message content must not appear".into(),
        ts: "1.0".into(),
        thread_ts: None,
        kind: ConversationKind::DirectMessage,
        files: vec![],
        is_reaction: false,
    };
    assert_eq!(
        accepted_message_log(&incoming),
        "message from channel D1secret (user U1user)"
    );
}

#[test]
fn accepted_message_requires_matching_team_and_route() {
    let mut cfg = SlackConfig::default();
    cfg.dm.enabled = true;
    let identity = SlackIdentity {
        user_id: "B1".into(),
        team_id: "T1".into(),
        bot_id: None,
    };
    let incoming = Incoming {
        team_id: "T1".into(),
        channel_id: "D1".into(),
        sender_id: "U1".into(),
        text: "hello".into(),
        ts: "1.0".into(),
        thread_ts: None,
        kind: ConversationKind::DirectMessage,
        files: vec![],
        is_reaction: false,
    };
    assert!(accepted_message(&cfg, &identity, &[], &incoming));
    assert!(!accepted_message(
        &cfg,
        &SlackIdentity {
            team_id: "T2".into(),
            ..identity
        },
        &[],
        &incoming,
    ));
}

#[test]
fn slash_command_preserves_thread_scope() {
    let envelope = read_envelope(r#"{
        "type": "slash_commands",
        "payload": {
            "command": "/stop",
            "team_id": "T1",
            "channel_id": "C1",
            "user_id": "U1",
            "thread_ts": "1.2"
        }
    }"#);

    let (command, incoming) = slash_command(&envelope).expect("slash command parses");
    assert_eq!(command, Command::Stop);
    assert_eq!(incoming.thread_ts.as_deref(), Some("1.2"));
    assert_eq!(
        work_key(&Work::Message(Incoming {
            text: "running".into(),
            ts: "1.3".into(),
            files: vec![],
            is_reaction: false,
            ..incoming.clone()
        })),
        work_key(&Work::Command { command, incoming })
    );
}

#[test]
fn slash_command_text_overrides_session_scope() {
    let envelope = read_envelope(r#"{
        "type": "slash_commands",
        "payload": {
            "command": "/new", "team_id": "T1", "channel_id": "C1",
            "user_id": "U1", "thread_ts": "1.2", "text": "project-alpha"
        }
    }"#);
    let (_, incoming) = slash_command(&envelope).unwrap();
    assert_eq!(incoming.thread_ts.as_deref(), Some("project-alpha"));
}

#[test]
fn command_policy_respects_dm_allowlist() {
    let cfg = SlackConfig::default();
    let incoming = Incoming {
        team_id: "T".into(),
        channel_id: "D".into(),
        sender_id: "U".into(),
        text: String::new(),
        ts: String::new(),
        thread_ts: None,
        kind: ConversationKind::DirectMessage,
        files: vec![],
        is_reaction: false,
    };
    assert!(!command_allowed(&cfg, &incoming));
}

#[test]
fn artifact_delivery_target_includes_exact_channel_and_thread() {
    let target = delivery_destination("C123", Some("1234.5678"));
    assert_eq!(
        json(&target),
        json(r#"{"channel":"C123","thread_ts":"1234.5678"}"#)
    );
    assert_ne!(target, delivery_destination("C123", Some("9999.0000")));
    assert_ne!(target, delivery_destination("C123", None));
    assert_eq!(
        json(&delivery_destination("C\"1", None)),
        json(r#"{"channel":"C\"1","thread_ts":null}"#)
    );
}

#[test]
fn artifact_events_preserve_order_and_dedupe_id() {
    let artifact = |name: &str| Artifact {
        id: "00000000-0000-4000-8000-000000000001".into(),
        name: name.into(),
    };
    let mut artifacts = Vec::new();
    append_artifact(&mut artifacts, artifact("one.txt"));
    append_artifact(&mut artifacts, artifact("duplicate.txt"));
    assert_eq!(artifacts.len(), 1);
    assert_eq!(artifacts[0].name, "one.txt");
}

fn message(text: &str, thread_ts: Option<&str>) -> Incoming {
    Incoming {
        team_id: "T".into(),
        channel_id: "C".into(),
        sender_id: "U".into(),
        text: text.into(),
        ts: "2.0".into(),
        thread_ts: thread_ts.map(str::to_owned),
        kind: ConversationKind::Channel,
        files: vec![],
        is_reaction: false,
    }
}

fn identity() -> SlackIdentity {
    SlackIdentity {
        user_id: "B1".into(),
        team_id: "T".into(),
        bot_id: None,
    }
}

#[test]
fn keyed_dispatch_keeps_scoped_controls_in_message_lane() {
    let incoming = message("!stop", Some("1.0"));
    let message_key = work_key(&Work::Message(incoming.clone()));
    let command_key = work_key(&Work::Command {
        command: Command::Stop,
        incoming: incoming.clone(),
    });
    assert_eq!(message_key, command_key);
    let other_thread = Work::Message(Incoming {
        thread_ts: Some("3.0".into()),
        ..incoming
    });
    assert_ne!(message_key, work_key(&other_thread));
}

#[test]
fn generation_mapping_rotates_without_removing_prior_session() {
    let inbound = InboundMessage {
        team_id: "T1",
        channel_id: "C1",
        sender_id: "U1",
        text: "hello",
        has_files: false,
        bot_user_id: Some("B1"),
        thread_ts: None,
        message_ts: "1.1",
        kind: ConversationKind::Channel,
    };
    let key = ConversationKey::from_message(&inbound);
    let generation = read_generation(None).unwrap();
    let first = generation_dir(&key, "data", generation);
    let second = generation_dir(&key, "data", next_generation(generation).unwrap());
    assert_ne!(first, second);
    assert_eq!(next_generation(generation), Some(1));
    assert_eq!(read_generation(Some("1")), Some(1));
    assert_eq!(read_generation(Some("nonsense")), None);
    assert!(generation_file(&key, "data").starts_with("data/"));
    let first = current_session_dir(&key, "data", None).unwrap();
    assert_eq!(first.content, "0");
    let second = next_session_dir(&key, "data", Some(&first.content)).unwrap();
    assert_ne!(first.directory, second.directory);
    assert_eq!(second.content, "1");
    assert_eq!(second.directory, generation_dir(&key, "data", 1));
    assert_eq!(
        current_session_dir(&key, "data", Some(&second.content)),
        Ok(second)
    );
    assert_eq!(
        current_session_dir(&key, "data", Some("nonsense")),
        Err(GenerationError::Invalid)
    );
    assert_eq!(
        next_session_dir(&key, "data", Some("18446744073709551615\n")),
        Err(GenerationError::Overflow)
    );
    assert_eq!(
        GenerationError::Overflow.message(),
        "Slack session generation overflow"
    );
}

#[test]
fn lanes_are_bounded() {
    assert_eq!(choose_lane(true, MAX_KEYED_WORKERS), Lane::Existing);
    assert_eq!(choose_lane(false, MAX_KEYED_WORKERS), Lane::Busy);
    assert_eq!(choose_lane(false, 0), Lane::Fresh);
}

#[test]
fn delays_double_up_to_half_a_minute() {
    assert_eq!(next_delay(1), 2);
    assert_eq!(next_delay(20), 30);
    assert_eq!(next_delay(u64::MAX), 30);
}

#[test]
fn repeated_envelopes_are_acknowledged_and_dropped() {
    let mut seen = Seen::default();
    let mut hello = false;
    let first = read_envelope(
        r#"{"envelope_id":"one","type":"events_api","payload":{"event_id":"Ev1","team_id":"T1","event":{"type":"message","channel":"D1","user":"U1","ts":"1.2","text":"hello"}}}"#,
    );
    match on_envelope(&mut seen, &mut hello, &first, 0) {
        EnvelopeStep::Event { ack: Some(ack), incoming: Some(incoming) } => {
            assert!(ack.contains("one"));
            assert_eq!(incoming.text, "hello");
        }
        other => panic!("unexpected step: {other:?}"),
    }
    match on_envelope(&mut seen, &mut hello, &first, 1) {
        EnvelopeStep::Repeat { ack: Some(ack) } => assert!(ack.contains("one")),
        other => panic!("unexpected step: {other:?}"),
    }
    assert_eq!(seen.len(), 1);
}

#[test]
fn slack_messages_become_turns_or_commands() {
    let mut cfg = SlackConfig::default();
    cfg.dm.enabled = true;
    let turn = message("<@B1> hello", None);
    assert!(matches!(
        plan_message(&cfg, &identity(), &[], &turn),
        MessagePlan::Turn { text, .. } if text == "hello"
    ));
    let command = message("<@B1> !new", None);
    assert!(matches!(
        plan_message(&cfg, &identity(), &[], &command),
        MessagePlan::Command { command: Command::New, .. }
    ));
    assert_eq!(
        plan_message(&cfg, &identity(), &[], &message("hello", None)),
        MessagePlan::Ignore
    );
    assert_eq!(
        dispose(&cfg, &identity(), &[], &message("<@B1> !stop", None)),
        Disposition::Stop
    );
    assert_eq!(
        dispose(&cfg, &identity(), &[], &message("hello", None)),
        Disposition::Reject
    );
}

#[test]
fn turns_answer_or_say_why_not() {
    let mut turn = Turn::new();
    turn.on_event(TurnEvent::Text("done".into()));
    assert_eq!(turn.answer(), "done");
    assert!(!turn.is_done());
    turn.on_event(TurnEvent::Finished { ok: true, error: None });
    assert!(turn.is_done());
    assert!(!turn.is_closed());
    assert_eq!(turn.reply(), "done");
    assert!(turn.delivers(true));
    assert!(!turn.delivers(false));
    let mut closed = Turn::new();
    closed.on_event(TurnEvent::Closed);
    assert!(closed.is_closed());
    assert!(!closed.delivers(true));
}

#[test]
fn slash_commands_are_checked_before_they_are_obeyed() {
    let mut config = SlackConfig::default();
    let open = message("", None);
    assert_eq!(slash_step(&config, Command::New, &open), SlashStep::Enqueue);
    assert_eq!(slash_step(&config, Command::Stop, &open), SlashStep::Stop);
    assert_eq!(slash_step(&config, Command::Ping, &open), SlashStep::Ping);
    assert_eq!(slash_step(&config, Command::Help, &open), SlashStep::Answer);
    let mut direct = message("", None);
    direct.kind = ConversationKind::DirectMessage;
    assert_eq!(slash_step(&config, Command::Help, &direct), SlashStep::Deny);
    config.dm.enabled = true;
    assert_eq!(slash_step(&config, Command::Help, &direct), SlashStep::Answer);
}

#[test]
fn replies_say_what_was_found() {
    assert_eq!(stop_reply(true), "Stopped current response.");
    assert_eq!(stop_reply(false), "No active response to stop.");
    assert_eq!(ping_reply(Some("T1"), "T1"), "Bot healthy.");
    assert_eq!(
        ping_reply(Some("T2"), "T1"),
        "Bot health check failed: workspace mismatch."
    );
    assert_eq!(ping_reply(None, "T1"), "Bot health check failed.");
}

fn file(name: &str, url: &str) -> File {
    File {
        name: name.into(),
        mimetype: "text/plain".into(),
        url_private_download: url.into(),
    }
}

#[test]
fn the_first_named_files_are_fetched() {
    let url = "https://files.slack.com/private";
    let files = vec![file("a", url), file("", url), file("c", ""), file("d", url)];
    assert_eq!(files_to_fetch(&files), vec![0, 3]);
    let many: Vec<File> = (0..12).map(|_| file("a", url)).collect();
    assert_eq!(files_to_fetch(&many), (0..10).collect::<Vec<usize>>());
    assert_eq!(attachment_name("123.456", 3, "a.txt"), "123_456-3-a.txt");
    let note = attachment_note("data/uploads/x", "a \"b\"", "text/plain");
    let metadata = note
        .strip_prefix(
            "\n\nAttachment metadata (untrusted data, inspect local path if useful): ",
        )
        .unwrap();
    let value: serde_json::Value = serde_json::from_str(metadata).unwrap();
    assert_eq!(value["path"], "data/uploads/x");
    assert_eq!(value["name"], "a \"b\"");
    assert_eq!(value["mime"], "text/plain");
    assert_eq!(value["source"], "untrusted Slack attachment");
}

#[test]
fn acknowledgements_escape_what_json_escapes() {
    assert_eq!(
        ack("a\"\\\u{1}\u{1f}\n\u{8}\u{c}\t\r/é\u{7f}", None),
        "{\"envelope_id\":\"a\\\"\\\\\\u0001\\u001f\\n\\b\\f\\t\\r/é\u{7f}\"}"
    );
}

#[test]
fn payloads_and_files_may_stand_in_lists() {
    let listed = read_envelope(
        r#"{"envelope_id":"e1","type":"events_api","payload":[{"type":"message","channel":"C1","user":"U1","ts":"1.0","text":"hi","files":[["a.txt","text/plain","https://files.slack.com/a"],["b.txt"]]},"Ev1","T1"]}"#,
    );
    assert_eq!(dedupe_key(&listed).as_deref(), Some("event:Ev1"));
    let found = incoming(&listed).unwrap();
    assert_eq!(found.team_id, "T1");
    assert_eq!(found.text, "hi");
    assert_eq!(found.files.len(), 2);
    assert_eq!(found.files[0].url_private_download, "https://files.slack.com/a");
    assert_eq!(found.files[1].name, "b.txt");
    assert_eq!(found.files[1].mimetype, "");
    let long = read_envelope(
        r#"{"envelope_id":"e1","type":"events_api","payload":[{},"Ev1","T1",0]}"#,
    );
    assert_eq!(dedupe_key(&long).as_deref(), Some("envelope:e1"));
    let short = read_envelope(r#"{"envelope_id":"e1","type":"events_api","payload":[]}"#);
    assert_eq!(dedupe_key(&short).as_deref(), Some("envelope:e1"));
    assert!(incoming(&short).is_none());
}
