use dar_extensions::irc::proto::{Message, PrivMsg};

#[test]
fn parses_privmsg_with_prefix_and_trailing() {
    let m = Message::parse(":alice!a@host PRIVMSG #room :hello world").unwrap();
    assert_eq!(m.prefix.as_deref(), Some("alice!a@host"));
    assert_eq!(m.command, "PRIVMSG");
    assert_eq!(m.params, vec!["#room", "hello world"]);
    assert_eq!(m.sender_nick(), Some("alice"));
}

#[test]
fn parses_ping() {
    let m = Message::parse("PING :server.example").unwrap();
    assert_eq!(m.prefix, None);
    assert_eq!(m.command, "PING");
    assert_eq!(m.params, vec!["server.example"]);
}

#[test]
fn parses_numeric_replies() {
    let welcome = Message::parse(":srv 001 darbot :Welcome to the network").unwrap();
    assert_eq!(welcome.command, "001");
    assert_eq!(welcome.params, vec!["darbot", "Welcome to the network"]);

    let collision = Message::parse(":srv 433 * darbot :Nickname is already in use").unwrap();
    assert_eq!(collision.command, "433");
    assert_eq!(collision.params[1], "darbot");
}

#[test]
fn malformed_lines_do_not_panic() {
    assert!(Message::parse("").is_none());
    assert!(Message::parse("   ").is_none());
    assert!(Message::parse(":").is_none());
    assert!(Message::parse(":onlyprefix").is_none());
    // Bare command with no params is fine.
    let m = Message::parse("QUIT").unwrap();
    assert_eq!(m.command, "QUIT");
    assert!(m.params.is_empty());
}

#[test]
fn privmsg_extraction() {
    let m = Message::parse(":bob!b@h PRIVMSG darbot :hi there").unwrap();
    let pm = PrivMsg::from_message(&m).unwrap();
    assert_eq!(pm.sender, "bob");
    assert_eq!(pm.target, "darbot");
    assert_eq!(pm.text, "hi there");
}

#[test]
fn non_privmsg_yields_none() {
    let m = Message::parse("PING :x").unwrap();
    assert!(PrivMsg::from_message(&m).is_none());
}

#[test]
fn ctcp_action_normalized_to_text() {
    let m = Message::parse(":bob!b@h PRIVMSG #room :\u{1}ACTION waves hello\u{1}").unwrap();
    let pm = PrivMsg::from_message(&m).unwrap();
    assert_eq!(pm.text, "* bob waves hello");
}

#[test]
fn plain_text_passes_through() {
    let m = Message::parse(":bob!b@h PRIVMSG #room :just talking").unwrap();
    let pm = PrivMsg::from_message(&m).unwrap();
    assert_eq!(pm.text, "just talking");
}
