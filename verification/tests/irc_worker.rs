use dar_extensions::irc::addressing::{classify, Conversation, Verdict};
use dar_extensions::irc::config::{self, dm_authorized, IrcConfig};
use dar_extensions::irc::loop_guard::LoopGuard;
use dar_extensions::irc::proto::{Message, PrivMsg};
use dar_extensions::irc::worker::{
    buffer_ambient, build_prompt, check_send_args, classify_line, fold_line, gate, next_backoff,
    note_context, rejection, sender_is_bot, should_ack, valid_irc_target, wants_reset, Gate, Incoming, Outbox, PendingReply,
    SendArgsError, Turn, TurnEvent,
};

fn pm(sender: &str, target: &str, text: &str) -> PrivMsg {
    PrivMsg {
        sender: sender.into(),
        target: target.into(),
        text: text.into(),
    }
}

fn reply_incoming(sender: &str, bot_nick: &str, text: &str) -> Incoming {
    // A DM addressed to the bot: verdict Reply, keyed by sender.
    let p = pm(sender, bot_nick, text);
    let (verdict, conv) = classify(&p, bot_nick, true);
    Incoming {
        pm: p,
        conv,
        verdict,
        bot_nick: bot_nick.to_string(),
    }
}

/// A `#room` channel message classified against `bot_nick`: `Reply` when
/// `text` leads with the mention, `ContextOnly` otherwise (the shape of the
/// second and later lines of a channel paste).
fn channel_incoming(sender: &str, bot_nick: &str, text: &str) -> Incoming {
    let p = pm(sender, "#room", text);
    let (verdict, conv) = classify(&p, bot_nick, true);
    Incoming {
        pm: p,
        conv,
        verdict,
        bot_nick: bot_nick.to_string(),
    }
}

/// The debounce window is configurable and disable-able via `0`.
#[test]
fn debounce_config_resolves_and_disables_at_zero() {
    let default = IrcConfig::default();
    assert_eq!(default.effective_debounce(), config::DEFAULT_DEBOUNCE_MS);
    let off = IrcConfig {
        debounce_ms: Some(0),
        ..IrcConfig::default()
    };
    assert_eq!(off.effective_debounce(), 0);
}

#[test]
fn sender_is_bot_with_empty_humans_treats_all_as_bots() {
    // Fail-closed: with no known humans, every sender counts toward the cap.
    assert!(sender_is_bot("anyone", &[]));
}

#[test]
fn irc_send_rejects_line_injection_targets() {
    assert!(valid_irc_target("#team"));
    assert!(valid_irc_target("alice"));
    assert!(!valid_irc_target("#team\r\nJOIN #other"));
    assert!(!valid_irc_target("#team other"));
    assert!(!valid_irc_target(""));
}

#[test]
fn should_ack_all_messages_when_enabled() {
    let humans = vec!["alice".to_string()];
    let cfg = IrcConfig {
        humans: humans.clone(),
        ..IrcConfig::default()
    };
    assert!(cfg.effective_ack());
    assert!(!sender_is_bot("alice", &humans));
    assert!(should_ack(cfg.effective_ack()));
    // A2A classification still feeds loop guard, but no longer excludes ack.
    assert!(sender_is_bot("otheragent", &humans));
    assert!(should_ack(cfg.effective_ack()));
}

#[test]
fn should_ack_off_suppresses_all_messages() {
    let cfg = IrcConfig {
        ack: Some(false),
        ..IrcConfig::default()
    };
    assert!(!cfg.effective_ack());
    assert!(!should_ack(cfg.effective_ack()));
}

#[test]
fn should_ack_empty_humans() {
    // Fail-closed classification still makes every sender a bot for the loop
    // guard, but does not affect acknowledgements.
    let cfg = IrcConfig::default();
    assert!(cfg.effective_ack());
    assert!(sender_is_bot("anyone", &cfg.humans));
    assert!(should_ack(cfg.effective_ack()));
}

#[test]
fn sender_is_bot_recognizes_listed_humans() {
    let humans = vec!["alice".to_string(), "Bob".to_string()];
    assert!(!sender_is_bot("alice", &humans));
    assert!(!sender_is_bot("BOB", &humans)); // case-insensitive
    assert!(sender_is_bot("otheragent", &humans));
}

/// End-to-end wiring of the loop-guard non-negotiable: drive a realistic
/// bot-to-bot exchange through classify() -> sender_is_bot() -> should_respond()
/// with the DEFAULT (empty) config and assert the hard cap actually fires.
/// This is the production path that the loop_guard unit tests bypass.
#[test]
fn bot_to_bot_cap_fires_end_to_end_with_default_config() {
    let cfg = IrcConfig::default(); // empty allowed_users AND empty humans
    let bot_nick = "darbot";
    let mut guard = LoopGuard::new(cfg.effective_max_bot_turns());

    // Another agent repeatedly addresses our bot in a channel.
    let mut allowed_replies = 0u32;
    for _ in 0..(cfg.effective_max_bot_turns() + 10) {
        let pm = PrivMsg {
            sender: "otheragent".into(),
            target: "#agents".into(),
            text: format!("{bot_nick}: your turn"),
        };
        let (verdict, conv) = classify(&pm, bot_nick, true);
        assert_eq!(verdict, Verdict::Reply);
        let Conversation::Channel(ch) = &conv else {
            panic!("expected channel conversation");
        };
        let is_bot = sender_is_bot(&pm.sender, &cfg.humans);
        assert!(is_bot, "unknown sender must be treated as a bot");
        if guard.should_respond(is_bot, ch) {
            allowed_replies += 1;
        }
    }
    // The cap must engage: only max_bot_turns replies, never unbounded.
    assert_eq!(allowed_replies, cfg.effective_max_bot_turns());
}

/// The non-negotiable for DMs: two bots DMing each other must hit the same
/// hard cap as in a channel, instead of spiraling unboundedly. Drive a
/// realistic bot-to-bot DM exchange through classify() -> sender_is_bot() ->
/// should_respond() keyed by the DM guard key and assert the cap fires.
#[test]
fn bot_to_bot_dm_cap_fires_end_to_end() {
    let cfg = IrcConfig::default(); // empty humans => unknown sender is a bot
    let bot_nick = "darbot";
    let mut guard = LoopGuard::new(cfg.effective_max_bot_turns());

    let mut allowed_replies = 0u32;
    for _ in 0..(cfg.effective_max_bot_turns() + 10) {
        // Another agent DMs our bot (target is our own nick => DM).
        let pm = PrivMsg {
            sender: "otheragent".into(),
            target: bot_nick.into(),
            text: "keep going".into(),
        };
        let (verdict, conv) = classify(&pm, bot_nick, true);
        assert_eq!(verdict, Verdict::Reply);
        let Conversation::Dm(_) = &conv else {
            panic!("expected DM conversation");
        };
        // DM allowlist is empty => authorized, so the guard is the only stop.
        assert!(dm_authorized(&pm.sender, &cfg.allowed_users));
        let is_bot = sender_is_bot(&pm.sender, &cfg.humans);
        assert!(is_bot, "unknown DM sender must count as a bot");
        if guard.should_respond(is_bot, &conv.guard_key()) {
            allowed_replies += 1;
        }
    }
    // The DM path must be bounded, never unbounded.
    assert_eq!(allowed_replies, cfg.effective_max_bot_turns());
}

/// A DM guard key and a same-named channel must not collide: capping a DM
/// from nick `room` must not mute channel `#room` or vice versa.
#[test]
fn dm_and_channel_guard_keys_are_isolated() {
    let chan = Conversation::Channel("#room".into());
    let dm = Conversation::Dm("room".into());
    assert_ne!(chan.guard_key(), dm.guard_key());
}

/// A known human keeps the exchange uncapped and resets the counter, while a
/// populated DM allowlist does NOT affect channel bot classification.
#[test]
fn known_human_resets_cap_independent_of_dm_allowlist() {
    let cfg = IrcConfig {
        allowed_users: vec!["carol".to_string()], // DM gate only
        humans: vec!["alice".to_string()],
        ..IrcConfig::default()
    };
    let mut guard = LoopGuard::new(2);

    let bot_msg = sender_is_bot("otheragent", &cfg.humans);
    let human_msg = sender_is_bot("alice", &cfg.humans);
    assert!(bot_msg);
    assert!(!human_msg);
    // A human NOT on the DM allowlist is still correctly seen as a human.
    assert!(!sender_is_bot("alice", &cfg.humans));

    assert!(guard.should_respond(bot_msg, "#room"));
    assert!(guard.should_respond(bot_msg, "#room"));
    assert!(!guard.should_respond(bot_msg, "#room")); // capped
    assert!(guard.should_respond(human_msg, "#room")); // human resets
    assert_eq!(guard.count("#room"), 0);
    assert!(guard.should_respond(bot_msg, "#room")); // allowed again
}

/// Folds follow-ups into a burst until one belongs elsewhere.
fn coalesce(
    conv: &Conversation,
    sender: &str,
    lines: &mut Vec<String>,
    followups: Vec<Incoming>,
) -> Option<Incoming> {
    for next in followups {
        if let Some(carry) = fold_line(lines, conv, sender, "darbot", next) {
            return Some(carry);
        }
    }
    None
}

#[test]
fn coalesce_folds_rapid_same_conversation_lines() {
    let conv = Conversation::Dm("thinh".into());
    let mut lines = vec!["First, verify".to_string()];
    let carry = coalesce(
        &conv,
        "thinh",
        &mut lines,
        vec![
            reply_incoming("thinh", "darbot", "Deepseek is..."),
            reply_incoming("thinh", "darbot", "Test with 40 tweets"),
        ],
    );
    assert!(carry.is_none(), "no cross-conversation leftover expected");
    assert_eq!(
        lines,
        vec!["First, verify", "Deepseek is...", "Test with 40 tweets"]
    );
    let mut ambient = Vec::new();
    assert_eq!(
        build_prompt(&mut ambient, "thinh", &lines),
        "<thinh> First, verify\nDeepseek is...\nTest with 40 tweets"
    );
}

#[test]
fn coalesce_returns_cross_conversation_line_as_carry() {
    let conv = Conversation::Dm("thinh".into());
    let mut lines = vec!["hello".to_string()];
    let carry = coalesce(
        &conv,
        "thinh",
        &mut lines,
        vec![reply_incoming("alice", "darbot", "other DM")],
    );
    let carried = carry.expect("cross-conversation line must be carried, not dropped");
    assert_eq!(carried.pm.sender, "alice");
    assert_eq!(lines, vec!["hello"]);
}

#[test]
fn coalesce_folds_channel_paste_from_same_sender() {
    let conv = Conversation::Channel("#room".into());
    let mut lines = vec!["darbot: first line".to_string()];
    let carry = coalesce(
        &conv,
        "thinh",
        &mut lines,
        vec![
            channel_incoming("thinh", "darbot", "plain follow-up line"),
            channel_incoming("thinh", "darbot", "darbot: more"),
        ],
    );
    assert!(carry.is_none(), "same-sender channel burst must fully fold");
    assert_eq!(
        lines,
        vec!["darbot: first line", "plain follow-up line", "more"]
    );
}

#[test]
fn coalesce_carries_different_sender_channel_line() {
    let conv = Conversation::Channel("#room".into());
    let mut lines = vec!["darbot: first line".to_string()];
    let carry = coalesce(
        &conv,
        "thinh",
        &mut lines,
        vec![channel_incoming("alice", "darbot", "darbot: butting in")],
    );
    let carried = carry.expect("different-sender channel line must be carried, not dropped");
    assert_eq!(carried.pm.sender, "alice");
    assert_eq!(lines, vec!["darbot: first line"]);
}

#[test]
fn coalesce_sender_match_is_case_insensitive() {
    let conv = Conversation::Channel("#room".into());
    let mut lines = vec!["darbot: first line".to_string()];
    let carry = coalesce(
        &conv,
        "thinh",
        &mut lines,
        vec![channel_incoming("THINH", "darbot", "darbot: more")],
    );
    assert!(carry.is_none(), "case-insensitive same-sender line must fold in");
    assert_eq!(lines, vec!["darbot: first line", "more"]);
}

#[test]
fn reply_is_queued_when_no_link_then_flushed_on_reconnect() {
    let mut outbox = Outbox::new();
    outbox.settle(
        PendingReply {
            target: "thinh".to_string(),
            text: "the final answer".to_string(),
        },
        false,
    );
    assert_eq!(outbox.len(), 1);
    let all = outbox.take_all();
    assert_eq!(outbox.len(), 0);
    assert_eq!(all.len(), 1);
    assert_eq!(all[0].target, "thinh");
    assert_eq!(all[0].text, "the final answer");
    for reply in all {
        outbox.settle(reply, true);
    }
    assert_eq!(outbox.len(), 0, "a reply that was sent waits no longer");
}

#[test]
fn overheard_lines_stand_before_the_request() {
    let mut ambient = Vec::new();
    buffer_ambient(&mut ambient, &pm("alice", "#room", "one"), 2);
    buffer_ambient(&mut ambient, &pm("bob", "#room", "two"), 2);
    buffer_ambient(&mut ambient, &pm("alice", "#room", "three"), 2);
    assert_eq!(ambient, vec!["<bob> two", "<alice> three"]);
    let prompt = build_prompt(&mut ambient, "carol", &vec!["do it".to_string()]);
    assert_eq!(
        prompt,
        "Recent channel context:\n<bob> two\n<alice> three\n\nNow carol addresses you:\ndo it"
    );
    assert!(ambient.is_empty());
}

#[test]
fn backoff_doubles_up_to_a_minute() {
    assert_eq!(next_backoff(2), 4);
    assert_eq!(next_backoff(32), 60);
    assert_eq!(next_backoff(60), 60);
    assert_eq!(next_backoff(u64::MAX), 60);
}

#[test]
fn turns_come_to_a_reply() {
    let mut turn = Turn::new();
    turn.on_event(TurnEvent::Text("half ".to_string()));
    turn.on_event(TurnEvent::Other);
    turn.on_event(TurnEvent::Text("done".to_string()));
    assert!(!turn.is_done());
    turn.on_event(TurnEvent::Finished);
    assert!(turn.is_done());
    assert!(!turn.drops_session());
    assert_eq!(turn.into_reply(), "half done");

    let mut failed = Turn::new();
    failed.on_event(TurnEvent::Failed(Some("boom".to_string())));
    assert_eq!(failed.into_reply(), "(turn failed: boom)");

    let mut closed = Turn::new();
    closed.on_event(TurnEvent::Closed(None));
    assert!(closed.drops_session());
    assert_eq!(closed.into_reply(), "(session closed: )");

    let mut silent = Turn::new();
    silent.on_event(TurnEvent::Finished);
    assert_eq!(silent.into_reply(), "(no response)");
}

#[test]
fn send_arguments_are_checked() {
    assert_eq!(
        check_send_args(" #team ", "hello"),
        Ok(("#team".to_string(), "hello".to_string()))
    );
    assert_eq!(check_send_args("#team", "  "), Err(SendArgsError::Empty));
    assert_eq!(
        check_send_args("#team other", "hello"),
        Err(SendArgsError::Target)
    );
}

#[test]
fn rejections_name_the_target() {
    let message = Message::parse(":srv 404 darbot #team :Cannot send to channel").unwrap();
    assert!(rejection(&message, "#team").is_some());
    assert!(rejection(&message, "#other").is_none());
    let message = Message::parse(":srv 372 darbot #team :motd").unwrap();
    assert!(rejection(&message, "#team").is_none());
}

#[test]
fn the_gate_asks_for_permission_and_counts_bots() {
    let cfg = IrcConfig {
        allowed_users: vec!["alice".to_string()],
        ..IrcConfig::default()
    };
    let mut guard = LoopGuard::new(1);
    assert_eq!(
        gate(&cfg, &mut guard, &reply_incoming("mallory", "darbot", "hi")),
        Gate::Unauthorized
    );
    let ask = channel_incoming("otherbot", "darbot", "darbot: go");
    assert_eq!(gate(&cfg, &mut guard, &ask), Gate::Answer("#room".to_string()));
    assert_eq!(gate(&cfg, &mut guard, &ask), Gate::Silent);
}

#[test]
fn resets_are_asked_for_by_those_who_may() {
    let mut cfg = IrcConfig::default();
    let ask = channel_incoming("alice", "darbot", "darbot: /new");
    assert!(wants_reset(&cfg, &ask));
    assert!(!wants_reset(&cfg, &channel_incoming("alice", "darbot", "darbot: /new please")));
    assert!(!wants_reset(&cfg, &channel_incoming("alice", "darbot", "/new")));
    assert!(wants_reset(&cfg, &reply_incoming("alice", "darbot", "/reset")));
    cfg.sessions.reset_users.push("Bob".to_string());
    assert!(!wants_reset(&cfg, &ask));
    assert!(wants_reset(&cfg, &reply_incoming("bob", "darbot", "/reset")));
}

#[test]
fn lines_of_the_server_are_classified() {
    let cfg = IrcConfig::default();
    let line = |text: &str| classify_line(&cfg, &Message::parse(text).unwrap(), "darbot");
    let asked = line(":alice!u@h PRIVMSG #room :darbot: hello").unwrap();
    assert_eq!(asked.verdict, Verdict::Reply);
    assert_eq!(asked.conv, Conversation::Channel("#room".into()));
    assert_eq!(asked.pm.sender, "alice");
    let overheard = line(":alice!u@h PRIVMSG #room :hello").unwrap();
    assert_eq!(overheard.verdict, Verdict::ContextOnly);
    let direct = line(":alice!u@h PRIVMSG darbot :hello").unwrap();
    assert_eq!(direct.conv, Conversation::Dm("alice".into()));
    assert!(line(":darbot!u@h PRIVMSG #room :hello").is_none());
    assert!(line("PING :token").is_none());
}

#[test]
fn overheard_humans_reset_the_count() {
    let cfg = IrcConfig {
        humans: vec!["alice".into()],
        ..IrcConfig::default()
    };
    let mut guard = LoopGuard::new(3);
    assert!(guard.should_respond(true, "#room"));
    note_context(&cfg, &mut guard, &channel_incoming("other", "darbot", "hm"));
    assert_eq!(guard.count("#room"), 1);
    note_context(&cfg, &mut guard, &channel_incoming("Alice", "darbot", "hm"));
    assert_eq!(guard.count("#room"), 0);
}

#[test]
fn unsent_replies_wait_in_their_order() {
    let reply = |text: &str| PendingReply {
        target: "#room".to_string(),
        text: text.to_string(),
    };
    let mut outbox = Outbox::new();
    for text in ["a", "b", "c", "d"] {
        outbox.settle(reply(text), false);
    }
    for reply in outbox.take_all() {
        let sent = reply.text == "b" || reply.text == "d";
        outbox.settle(reply, sent);
    }
    let texts: Vec<String> = outbox.take_all().into_iter().map(|reply| reply.text).collect();
    assert_eq!(texts, ["a", "c"]);
}
