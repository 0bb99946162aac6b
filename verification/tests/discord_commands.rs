use dar_extensions::discord::commands::{parse, Command};

#[test]
fn parses_command_aliases_only() {
    assert_eq!(parse("/reset"), Some(Command::Reset));
    assert_eq!(parse(" /new "), Some(Command::Reset));
    assert_eq!(parse("/abort"), Some(Command::Abort));
    assert_eq!(parse("/stop"), Some(Command::Abort));
    assert_eq!(parse("/reset please"), None);
}
