use dar_extensions::irc::addressing::{classify, is_mention, strip_mention, Conversation, Verdict};
use dar_extensions::irc::proto::PrivMsg;

fn pm(sender: &str, target: &str, text: &str) -> PrivMsg {
    PrivMsg {
        sender: sender.into(),
        target: target.into(),
        text: text.into(),
    }
}

#[test]
fn addressing_dm_is_reply() {
    let (v, conv) = classify(&pm("alice", "darbot", "hello"), "darbot", true);
    assert_eq!(v, Verdict::Reply);
    assert_eq!(conv, Conversation::Dm("alice".into()));
}

#[test]
fn addressing_channel_without_mention_is_context_only() {
    let (v, conv) = classify(&pm("alice", "#room", "just chatting"), "darbot", true);
    assert_eq!(v, Verdict::ContextOnly);
    assert_eq!(conv, Conversation::Channel("#room".into()));
}

#[test]
fn addressing_channel_with_colon_mention_is_reply() {
    let (v, _) = classify(
        &pm("alice", "#room", "darbot: do the thing"),
        "darbot",
        true,
    );
    assert_eq!(v, Verdict::Reply);
}

#[test]
fn addressing_channel_with_comma_mention_is_reply() {
    let (v, _) = classify(&pm("alice", "#room", "darbot, hi"), "darbot", true);
    assert_eq!(v, Verdict::Reply);
}

#[test]
fn addressing_mention_is_case_insensitive() {
    let (v, _) = classify(&pm("alice", "#room", "DARBOT: hey"), "darbot", true);
    assert_eq!(v, Verdict::Reply);
}

#[test]
fn addressing_substring_nick_is_not_a_mention() {
    // "darbotic" must not count as addressing "darbot".
    let (v, _) = classify(&pm("alice", "#room", "darbotic things"), "darbot", true);
    assert_eq!(v, Verdict::ContextOnly);
}

#[test]
fn addressing_self_authored_is_ignored() {
    let (v, _) = classify(
        &pm("darbot", "#room", "darbot: my own message"),
        "darbot",
        true,
    );
    assert_eq!(v, Verdict::Ignore);
    let (v2, _) = classify(&pm("DarBot", "#room", "hi"), "darbot", true);
    assert_eq!(v2, Verdict::Ignore);
}

#[test]
fn channel_without_mention_and_gate_off_is_reply() {
    let (v, conv) = classify(&pm("alice", "#room", "just chatting"), "darbot", false);
    assert_eq!(v, Verdict::Reply);
    assert_eq!(conv, Conversation::Channel("#room".into()));
}

#[test]
fn channel_without_mention_and_gate_on_is_context_only() {
    let (v, _) = classify(&pm("alice", "#room", "just chatting"), "darbot", true);
    assert_eq!(v, Verdict::ContextOnly);
}

#[test]
fn addressing_strip_mention_removes_address() {
    assert_eq!(strip_mention("darbot: do it", "darbot"), "do it");
    assert_eq!(strip_mention("darbot, please", "darbot"), "please");
    assert_eq!(
        strip_mention("no address here", "darbot"),
        "no address here"
    );
    // Substring of the nick must not be stripped.
    assert_eq!(
        strip_mention("darbotic things", "darbot"),
        "darbotic things"
    );
}

#[test]
fn at_nick_leading_is_a_mention() {
    // `@dale you here?` is a mention of `dale`.
    assert!(is_mention("@dale you here?", "dale"));
    // `@darbot` alone is a mention of `darbot`.
    assert!(is_mention("@darbot", "darbot"));
}

#[test]
fn inline_nick_is_not_a_mention_anymore() {
    // Nick appearing mid-sentence (not addressing the bot) is no longer a mention.
    assert!(!is_mention("yo dale you here?", "dale"));
    assert!(!is_mention("hey darbot can you help", "darbot"));
}

#[test]
fn inline_nick_substring_is_not_a_mention() {
    // "darbotic" must not count as addressing "darbot".
    assert!(!is_mention("darbotic things", "darbot"));
}

#[test]
fn leading_whitespace_addressing_is_a_mention() {
    assert!(is_mention("  darbot: hi", "darbot"));
}

#[test]
fn bare_leading_nick_without_separator_is_not_a_mention() {
    assert!(!is_mention("darbot do it", "darbot"));
}

#[test]
fn at_prefixed_substring_is_not_a_mention() {
    assert!(!is_mention("@darbotic", "darbot"));
}

#[test]
fn strip_mention_at_prefix_forms() {
    // `@dale: do it` → `do it`
    assert_eq!(strip_mention("@dale: do it", "dale"), "do it");
    // `@dale do it` → `do it`
    assert_eq!(strip_mention("@dale do it", "dale"), "do it");
    // Inline nick: text is unchanged.
    assert_eq!(
        strip_mention("yo dale you here?", "dale"),
        "yo dale you here?"
    );
}

#[test]
fn addressing_conversation_keys_are_distinct_and_safe() {
    assert_eq!(Conversation::Channel("#room".into()).key(), "chan__room");
    assert_eq!(Conversation::Dm("alice".into()).key(), "dm_alice");
}

#[test]
fn is_mention_on_non_char_boundary_does_not_panic() {
    // "Findev" is 6 bytes, but byte index 6 in this message falls inside
    // the 3-byte em dash "—" (bytes 4..7). A naive `split_at` would panic.
    assert!(!is_mention("Yes — saw it. Findev reported:", "Findev"));
}

#[test]
fn strip_mention_on_non_char_boundary_returns_unchanged() {
    let text = "Yes — saw it. Findev reported:";
    assert_eq!(strip_mention(text, "Findev"), text);
}

#[test]
fn is_mention_on_short_multibyte_message_does_not_panic() {
    // Already handled by the length guard, but cheap to pin.
    assert!(!is_mention("👀", "Findev"));
}

#[test]
fn addressing_reply_target_routes_correctly() {
    assert_eq!(
        Conversation::Channel("#room".into()).reply_target("alice"),
        "#room"
    );
    assert_eq!(
        Conversation::Dm("alice".into()).reply_target("alice"),
        "alice"
    );
}

#[test]
fn text_that_does_not_begin_with_the_nick_is_unchanged() {
    assert_eq!(strip_mention("  yo dale you here?", "dale"), "  yo dale you here?");
    assert_eq!(strip_mention("\t dalek: hello ", "dale"), "\t dalek: hello ");
    assert_eq!(strip_mention("   ", "dale"), "   ");
    assert_eq!(strip_mention("  dale:  hello ", "dale"), "hello ");
}
