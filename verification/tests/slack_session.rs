use dar_extensions::slack::addressing::{ConversationKind, InboundMessage};
use dar_extensions::slack::session::ConversationKey;

fn message<'a>(
    kind: ConversationKind,
    sender: &'a str,
    channel: &'a str,
    thread: Option<&'a str>,
) -> InboundMessage<'a> {
    InboundMessage {
        team_id: "T/../unsafe",
        channel_id: channel,
        sender_id: sender,
        text: "x",
        has_files: false,
        bot_user_id: None,
        thread_ts: thread,
        message_ts: "1",
        kind,
    }
}

#[test]
fn separates_dms_by_workspace_and_user() {
    let first = ConversationKey::from_message(&message(
        ConversationKind::DirectMessage,
        "U1",
        "D1",
        None,
    ));
    let second = ConversationKey::from_message(&message(
        ConversationKind::DirectMessage,
        "U2",
        "D2",
        None,
    ));
    assert_ne!(first, second);
    assert_ne!(
        first.directory("data"),
        second.directory("data")
    );
}

#[test]
fn separates_channel_root_and_thread() {
    let root =
        ConversationKey::from_message(&message(ConversationKind::Channel, "U1", "C1", None));
    let thread = ConversationKey::from_message(&message(
        ConversationKind::Channel,
        "U1",
        "C1",
        Some("1.1"),
    ));
    assert_ne!(root, thread);
}

#[test]
fn separates_dm_root_and_thread_sessions() {
    let root = ConversationKey::from_message(&message(
        ConversationKind::DirectMessage,
        "U1",
        "D1",
        None,
    ));
    let thread = ConversationKey::from_message(&message(
        ConversationKind::DirectMessage,
        "U1",
        "D1",
        Some("1.1"),
    ));
    assert_eq!(root.as_str(), "workspace:T/../unsafe:dm:U1:root");
    assert_eq!(thread.as_str(), "workspace:T/../unsafe:dm:U1:thread:1.1");
}

#[test]
fn directory_cannot_contain_slack_path_segments() {
    let key = ConversationKey::from_message(&message(
        ConversationKind::DirectMessage,
        "U/../x",
        "D",
        None,
    ));
    let directory = key.directory("data");
    assert_eq!(directory.split('/').count(), 3);
    assert!(!directory.contains(".."));
}
