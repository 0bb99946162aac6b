use dar_extensions::slack::commands::{parse, reply, Command};

#[test]
fn parses_supported_commands() {
    assert_eq!(parse("/new"), Some(Command::New));
    assert_eq!(parse("!new"), Some(Command::New));
    assert_eq!(parse("/unknown"), None);
}

#[test]
fn every_command_has_a_reply() {
    for command in [Command::New, Command::Stop, Command::Help, Command::Ping] {
        assert!(!reply(command).is_empty());
    }
    assert_eq!(parse(" !stop "), Some(Command::Stop));
    assert_eq!(parse("stop"), Some(Command::Stop));
    assert_eq!(parse("!"), None);
    assert_eq!(parse("  "), None);
}
