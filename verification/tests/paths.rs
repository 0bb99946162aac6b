use dar_extensions::irc::session::Store;
use dar_extensions::paths::{find_single_name, join, join_number};
use dar_extensions::slack::addressing::{ConversationKind, InboundMessage};
use dar_extensions::slack::attachments::upload_path;
use dar_extensions::slack::runtime::{generation_dir, generation_file};
use dar_extensions::slack::session::ConversationKey;
use dar_extensions::telegram::session::SessionStore;

#[test]
fn names_are_joined_by_one_slash() {
    for (directory, name) in [
        ("data", "a"),
        ("data/", "a"),
        ("data//", "a"),
        ("/", "a"),
        ("", "a"),
        ("", ""),
        ("data", ""),
        ("data", "/etc"),
        ("data", "a/b"),
        ("d\u{e9}", "\u{e9}"),
    ] {
        let expected = std::path::Path::new(directory).join(name);
        assert_eq!(join(directory, name), expected.to_str().unwrap());
    }
    assert_eq!(join_number("data", 12), "data/12");
}

#[test]
fn the_empty_path_is_no_root() {
    let key = ConversationKey::from_message(&InboundMessage {
        team_id: "T",
        channel_id: "C",
        sender_id: "U",
        text: "",
        has_files: false,
        bot_user_id: None,
        thread_ts: None,
        message_ts: "1",
        kind: ConversationKind::Channel,
    });
    assert!(key.directory("").starts_with("sessions/"));
    assert_eq!(generation_file(&key, ""), format!("{}/current", key.directory("")));
    assert_eq!(generation_dir(&key, "", 3), format!("{}/3", key.directory("")));
    assert_eq!(upload_path("", "x.png").unwrap(), "data/uploads/x.png");
    assert_eq!(upload_path("/", "x.png").unwrap(), "/data/uploads/x.png");
    assert_eq!(SessionStore::new("", 7).pointer_path(), "7/current.json");
    assert_eq!(SessionStore::new("s/", -7).generation_dir("g"), "s/-7/g");
    assert_eq!(Store::new("", "x").base(), "x");
    assert_eq!(Store::new("root", "x").base(), "root/x");
}

#[test]
fn a_path_may_be_a_single_name() {
    assert_eq!(find_single_name("a"), Some("a"));
    assert_eq!(find_single_name("a/."), Some("a"));
    assert_eq!(find_single_name("../a"), None);
    assert_eq!(find_single_name("/a"), None);
    assert_eq!(find_single_name(""), None);
}
