use dar_extensions::addressing::{classify, strip_mention};
use dar_extensions::irc::addressing::{Conversation, Verdict};
use dar_extensions::irc::proto::PrivMsg;

fn pm(sender: &str, target: &str, text: &str) -> PrivMsg {
    PrivMsg {
        sender: sender.into(),
        target: target.into(),
        text: text.into(),
    }
}

#[test]
fn dm_is_reply() {
    let (v, conv) = classify(&pm("alice", "darbot", "hello"), "darbot");
    assert_eq!(v, Verdict::Reply);
    assert_eq!(conv, Conversation::Dm("alice".into()));
}

#[test]
fn channel_without_mention_is_context_only() {
    let (v, conv) = classify(&pm("alice", "#room", "just chatting"), "darbot");
    assert_eq!(v, Verdict::ContextOnly);
    assert_eq!(conv, Conversation::Channel("#room".into()));
}

#[test]
fn channel_with_colon_mention_is_reply() {
    let (v, _) = classify(&pm("alice", "#room", "darbot: do the thing"), "darbot");
    assert_eq!(v, Verdict::Reply);
}

#[test]
fn channel_with_comma_mention_is_reply() {
    let (v, _) = classify(&pm("alice", "#room", "darbot, hi"), "darbot");
    assert_eq!(v, Verdict::Reply);
}

#[test]
fn mention_is_case_insensitive() {
    let (v, _) = classify(&pm("alice", "#room", "DARBOT: hey"), "darbot");
    assert_eq!(v, Verdict::Reply);
}

#[test]
fn substring_nick_is_not_a_mention() {
    // "darbotic" must not count as addressing "darbot".
    let (v, _) = classify(&pm("alice", "#room", "darbotic things"), "darbot");
    assert_eq!(v, Verdict::ContextOnly);
}

#[test]
fn self_authored_is_ignored() {
    let (v, _) = classify(&pm("darbot", "#room", "darbot: my own message"), "darbot");
    assert_eq!(v, Verdict::Ignore);
    let (v2, _) = classify(&pm("DarBot", "#room", "hi"), "darbot");
    assert_eq!(v2, Verdict::Ignore);
}

#[test]
fn strip_mention_removes_address() {
    assert_eq!(strip_mention("darbot: do it", "darbot"), "do it");
    assert_eq!(strip_mention("darbot, please", "darbot"), "please");
    assert_eq!(strip_mention("no address here", "darbot"), "no address here");
}

#[test]
fn conversation_keys_are_distinct_and_safe() {
    assert_eq!(Conversation::Channel("#room".into()).key(), "chan__room");
    assert_eq!(Conversation::Dm("alice".into()).key(), "dm_alice");
}

#[test]
fn reply_target_routes_correctly() {
    assert_eq!(
        Conversation::Channel("#room".into()).reply_target("alice"),
        "#room"
    );
    assert_eq!(
        Conversation::Dm("alice".into()).reply_target("alice"),
        "alice"
    );
}
