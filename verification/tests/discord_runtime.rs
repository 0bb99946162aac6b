use dar_extensions::discord::addressing::{route, InboundMessage, RouteDecision};
use dar_extensions::discord::commands::Command;
use dar_extensions::discord::config::{ChannelConfig, DiscordConfig, GuildConfig};
use dar_extensions::discord::runtime::{
    context_key, final_reply, gateway_requests_reconnect, heartbeat_interval, is_current_turn, on_event,
    plan_message, read_message, ready_user_id, reconnect_delay, thread_session, GatewayEvent, Link,
    LinkStep, MessagePlan, Threads,
};
use dar_extensions::discord::session::SessionKey;
use dar_extensions::discord::tools::{
    channel_is_listed, check_send, find_named, read_body, single_match, snowflake, SendError, Target,
};
use dar_extensions::json::{Json, Member};
use dar_extensions::keyed::Keyed;

fn convert(value: serde_json::Value) -> Json {
    match value {
        serde_json::Value::Null => Json::Null,
        serde_json::Value::Bool(b) => Json::Bool(b),
        serde_json::Value::Number(n) => {
            if let Some(u) = n.as_u64() {
                Json::Unsigned(u)
            } else if let Some(i) = n.as_i64() {
                Json::Negative(i)
            } else {
                Json::Decimal(n.to_string())
            }
        }
        serde_json::Value::String(s) => Json::Text(s),
        serde_json::Value::Array(list) => Json::Array(list.into_iter().map(convert).collect()),
        serde_json::Value::Object(map) => Json::Object(
            map.into_iter()
                .map(|(name, value)| Member {
                    name,
                    value: convert(value),
                })
                .collect(),
        ),
    }
}

fn json(text: &str) -> Json {
    convert(serde_json::from_str(text).unwrap())
}

fn listed(name: &str) -> GuildConfig {
    let mut channels = Keyed::new();
    channels.insert(name.into(), ChannelConfig::default());
    GuildConfig {
        channels,
        ..Default::default()
    }
}

fn config() -> DiscordConfig {
    let mut guilds = Keyed::new();
    guilds.insert("g1".into(), listed("c1"));
    DiscordConfig {
        guilds,
        ..Default::default()
    }
}

#[test]
fn reconnect_backoff_is_capped() {
    let mut delay = 1;
    for expected in [2, 4, 8, 16, 30, 30] {
        delay = reconnect_delay(delay);
        assert_eq!(delay, expected);
    }
}

#[test]
fn gateway_reconnect_opcodes_are_detected() {
    assert!(gateway_requests_reconnect(&json(r#"{"op": 7}"#)));
    assert!(gateway_requests_reconnect(&json(r#"{"op": 9}"#)));
    assert!(!gateway_requests_reconnect(&json(r#"{"op": 0}"#)));
}

#[test]
fn thread_create_routes_messages_through_the_parent_channel_config() {
    let mut threads = Threads::default();
    threads.update_thread(&json(r#"{"id":"t1", "parent_id":"c1"}"#));
    let parent_id = threads.parent("t1");
    assert!(matches!(
        route(
            &config(),
            Some("b1"),
            &InboundMessage {
                guild_id: Some("g1"),
                channel_id: "t1",
                parent_channel_id: parent_id,
                thread_engaged: false,
                author_id: "u1",
                author_is_bot: false,
                webhook_id: None,
                text: "<@b1> hello",
                has_attachments: false,
            },
        ),
        RouteDecision::Dispatch { session_key, .. }
            if session_key == SessionKey::guild_thread("g1", "t1")
    ));
}

#[test]
fn gateway_events_keep_the_threads() {
    let mut threads = Threads::default();
    assert_eq!(
        on_event(
            &mut threads,
            &json(r#"{"op":0,"t":"GUILD_CREATE","d":{"threads":[{"id":"t1","parent_id":"c1"}]}}"#)
        ),
        GatewayEvent::Threads
    );
    assert_eq!(threads.parent("t1"), Some("c1"));
    on_event(
        &mut threads,
        &json(r#"{"op":0,"t":"THREAD_DELETE","d":{"id":"t1"}}"#),
    );
    assert_eq!(threads.parent("t1"), None);
    assert_eq!(
        on_event(&mut threads, &json(r#"{"op":7}"#)),
        GatewayEvent::Reconnect
    );
    let ready = json(r#"{"op":0,"t":"READY","d":{"user":{"id":"b1"}}}"#);
    assert_eq!(on_event(&mut threads, &ready), GatewayEvent::Ready);
    assert_eq!(ready_user_id(&ready).as_deref(), Some("b1"));
    assert_eq!(
        heartbeat_interval(&json(r#"{"op":10,"d":{"heartbeat_interval":45000}}"#)),
        Some(45000)
    );
}

#[test]
fn discord_messages_become_turns_or_commands() {
    let mut threads = Threads::default();
    let ask = read_message(
        &mut threads,
        &json(
            r#"{"id":"m1","guild_id":"g1","channel_id":"c1","author":{"id":"u1"},"content":"<@b1> hello"}"#,
        ),
    );
    assert_eq!(
        plan_message(&config(), Some("b1"), &ask, false),
        MessagePlan::Turn {
            prompt: "hello".into(),
            session_key: SessionKey::guild_channel("g1", "c1"),
            message_id: "m1".into(),
        }
    );
    assert_eq!(thread_session(&ask), None);
    let reset = read_message(
        &mut threads,
        &json(
            r#"{"id":"m2","guild_id":"g1","channel_id":"c1","author":{"id":"u1"},"content":"<@b1> /new"}"#,
        ),
    );
    assert_eq!(
        plan_message(&config(), Some("b1"), &reset, false),
        MessagePlan::Command {
            command: Command::Reset,
            session_key: SessionKey::guild_channel("g1", "c1"),
            message_id: "m2".into(),
        }
    );
    let bot = read_message(
        &mut threads,
        &json(
            r#"{"id":"m3","guild_id":"g1","channel_id":"c1","author":{"id":"u1","bot":true},"content":"<@b1> hello"}"#,
        ),
    );
    assert_eq!(
        plan_message(&config(), Some("b1"), &bot, false),
        MessagePlan::Ignore
    );
    assert_eq!(final_reply("done"), "done");
    assert!(is_current_turn(Some(3), 3));
    assert!(!is_current_turn(Some(4), 3));
}

#[test]
fn user_ids_are_discord_snowflakes() {
    assert!(snowflake("123456789012345678"));
    assert!(!snowflake("alice"));
    assert!(!snowflake(""));
}

#[test]
fn invalid_targets_return_agent_errors() {
    let missing = check_send(&json(r#"{"text": "hello"}"#)).unwrap_err();
    assert_eq!(missing, SendError::NoSingleTarget);
    assert_eq!(missing.code(), "invalid_args");
    let invalid_user = check_send(&json(r#"{"user": "alice", "text": "hello"}"#)).unwrap_err();
    assert_eq!(invalid_user, SendError::InvalidUser);
    assert_eq!(invalid_user.code(), "invalid_target");
    let empty = check_send(&json(r#"{"channel": "c1", "text": " "}"#)).unwrap_err();
    assert_eq!(empty, SendError::InvalidText);
    assert!(!empty.message().is_empty());
    let fine = check_send(&json(r#"{"channel": "c1", "text": "hello"}"#)).unwrap();
    assert_eq!(fine.target, Target::Channel("c1".into()));
    assert_eq!(fine.text, "hello");
}

#[test]
fn channels_are_found_among_the_listed() {
    assert!(channel_is_listed(&config(), "c1"));
    assert!(!channel_is_listed(&config(), "c2"));
    let channels = match json(r#"[{"id":"c1","name":"general"},{"id":"c2","name":"general"}]"#) {
        Json::Array(list) => list,
        _ => unreachable!(),
    };
    let mut found = Vec::new();
    find_named(&listed("c1"), &channels, "general", &mut found);
    assert_eq!(found, vec!["c1"]);
    assert_eq!(single_match("general", &found), Ok("c1".to_string()));
    assert!(single_match("general", &vec![]).is_err());
    assert!(single_match("general", &vec!["a".into(), "b".into()]).is_err());
}

#[test]
fn what_may_be_answered_is_kept_as_context() {
    let cfg = config();
    let mut threads = Threads::default();
    let mut key = |text: &str| context_key(&cfg, &read_message(&mut threads, &json(text)));
    assert_eq!(
        key(r#"{"id":"1","guild_id":"g1","channel_id":"c1","author":{"id":"u1"},"content":"hi"}"#),
        Some("guild:g1:channel:c1".to_string())
    );
    assert_eq!(
        key(r#"{"id":"1","channel_id":"d1","author":{"id":"u1"},"content":"hi"}"#),
        Some("dm:u1".to_string())
    );
    assert_eq!(
        key(r#"{"id":"1","guild_id":"g1","channel_id":"c2","author":{"id":"u1"},"content":"hi"}"#),
        None
    );
    assert_eq!(
        key(r#"{"id":"1","channel_id":"d1","author":{"id":"u1","bot":true},"content":"hi"}"#),
        None
    );
}

#[test]
fn frames_are_read_as_text() {
    let mut threads = Threads::default();
    let mut link = Link::new();
    assert_eq!(link.on_text(&mut threads, "{"), None);
    assert_eq!(
        link.on_text(&mut threads, r#"{"op":10,"d":{"heartbeat_interval":45000}}"#),
        Some((LinkStep::Identify { interval: 45000 }, None))
    );
    assert_eq!(link.on_text(&mut threads, "hello"), None);
    assert_eq!(
        link.on_text(
            &mut threads,
            r#"{"op":0,"s":1,"t":"THREAD_CREATE","d":{"id":"t1","parent_id":"c1"}}"#
        ),
        Some((LinkStep::Nothing, None))
    );
    let (step, message) = link
        .on_text(
            &mut threads,
            r#"{"op":0,"s":2,"t":"MESSAGE_CREATE","d":{"id":"m1","channel_id":"t1","guild_id":"g1",
                "content":"hi","author":{"id":"u1","bot":false},
                "thread":{"id":"t2","parent_id":"c2"}}}"#,
        )
        .unwrap();
    assert_eq!(step, LinkStep::Message);
    let message = message.unwrap();
    assert_eq!(message.id.as_deref(), Some("m1"));
    assert_eq!(message.parent_channel_id.as_deref(), Some("c1"));
    assert_eq!(message.author_id, "u1");
    assert_eq!(message.content, "hi");
    assert_eq!(threads.parent("t2"), Some("c2"));
    assert_eq!(link.sequence(), Some(2));
    assert_eq!(
        link.on_text(&mut threads, r#"{"op":7}"#),
        Some((LinkStep::Reconnect, None))
    );
}

#[test]
fn answers_are_read_as_json() {
    assert_eq!(read_body(r#"{"id":"7"}"#), Some(json(r#"{"id":"7"}"#)));
    assert_eq!(read_body("[1,-2,1.5]"), Some(json("[1,-2,1.5]")));
    assert_eq!(read_body("<html>"), None);
    assert_eq!(read_body(""), None);
}

#[test]
fn a_connection_begins_with_a_greeting() {
    let mut threads = Threads::default();
    let mut link = Link::new();
    let hello = json(r#"{"op":10,"d":{"heartbeat_interval":45000}}"#);
    assert_eq!(
        Link::new().on_value(&mut threads, &json(r#"{"op":0,"s":1,"t":"READY"}"#)),
        LinkStep::NoGreeting
    );
    assert_eq!(
        link.on_value(&mut threads, &hello),
        LinkStep::Identify { interval: 45000 }
    );
    assert_eq!(link.sequence(), None);
    let ready = json(r#"{"op":0,"s":1,"t":"READY","d":{"user":{"id":"b1"}}}"#);
    assert_eq!(link.on_value(&mut threads, &ready), LinkStep::Nothing);
    assert_eq!(link.sequence(), Some(1));
    assert_eq!(link.bot_user_id(), Some("b1"));
    let thread = json(r#"{"op":0,"s":2,"t":"THREAD_CREATE","d":{"id":"t1","parent_id":"c1"}}"#);
    assert_eq!(link.on_value(&mut threads, &thread), LinkStep::Nothing);
    assert_eq!(threads.parent("t1"), Some("c1"));
    let message = json(r#"{"op":0,"s":3,"t":"MESSAGE_CREATE","d":{}}"#);
    assert_eq!(link.on_value(&mut threads, &message), LinkStep::Message);
    let reconnect = json(r#"{"op":7,"s":9}"#);
    assert_eq!(link.on_value(&mut threads, &reconnect), LinkStep::Reconnect);
    assert_eq!(link.sequence(), Some(3));
}

#[test]
fn direct_messages_are_handed_on_as_they_came() {
    let mut threads = Threads::default();
    let ask = read_message(
        &mut threads,
        &json(r#"{"id":"m1","channel_id":"d1","author":{"id":"u1"},"content":"  <@b1> hi \n"}"#),
    );
    assert_eq!(
        plan_message(&config(), Some("b1"), &ask, false),
        MessagePlan::Turn {
            prompt: "  <@b1> hi \n".into(),
            session_key: SessionKey::dm("u1"),
            message_id: "m1".into(),
        }
    );
    let stop = read_message(
        &mut threads,
        &json(r#"{"id":"m2","channel_id":"d1","author":{"id":"u1"},"content":" /stop "}"#),
    );
    assert_eq!(
        plan_message(&config(), Some("b1"), &stop, false),
        MessagePlan::Command {
            command: Command::Abort,
            session_key: SessionKey::dm("u1"),
            message_id: "m2".into(),
        }
    );
}
