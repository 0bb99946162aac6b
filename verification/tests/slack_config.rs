use dar_extensions::slack::config::{
    ChannelConfig, ConfigError, SlackConfig, ThreadPolicy, MAX_PATTERN_BYTES,
};

#[test]
fn defaults_match_single_bot_behavior() {
    let config = SlackConfig::default();
    assert!(!config.dm.enabled);
    assert!(config.channels.is_empty());
    assert!(!config.show_thinking);
    assert_eq!(ChannelConfig::default().thread_policy, ThreadPolicy::Always);
}

#[test]
fn validation_rejects_bad_pattern() {
    let config = SlackConfig {
        mention_patterns: vec!["[".into()],
        ..SlackConfig::default()
    };
    assert!(config.validate().is_err());
}

#[test]
fn missing_tokens_do_not_echo_secret_values() {
    let error = SlackConfig::default()
        .tokens(None, None)
        .err()
        .unwrap()
        .message();
    assert!(error.contains("SLACK_BOT_TOKEN"));
    assert!(!error.contains("xoxb-"));
}

#[test]
fn slack_tokens_fall_back_to_the_environment() {
    let config = SlackConfig {
        bot_token: Some("xoxb-own".into()),
        ..SlackConfig::default()
    };
    let tokens = config.tokens(Some("xoxb-env"), Some("xapp-env")).ok().unwrap();
    assert_eq!(tokens.bot, "xoxb-own");
    assert_eq!(tokens.app, "xapp-env");
    assert_eq!(config.tokens(None, None).err(), Some(ConfigError::NoAppToken));
    assert_eq!(
        SlackConfig::default().tokens(None, Some("xapp-env")).err(),
        Some(ConfigError::NoBotToken)
    );
    assert_eq!(
        SlackConfig::default().tokens(None, None).err(),
        Some(ConfigError::NoTokens)
    );
}

#[test]
fn patterns_are_checked() {
    let with = |pattern: String| SlackConfig {
        mention_patterns: vec![pattern],
        ..SlackConfig::default()
    };
    assert!(with("(?i)^bot".into()).validate().is_ok());
    assert_eq!(
        with("[".into()).validate(),
        Err(ConfigError::InvalidPattern)
    );
    assert_eq!(
        with("x".repeat(MAX_PATTERN_BYTES + 1)).validate(),
        Err(ConfigError::PatternTooLong)
    );
    assert_eq!(
        with("bot".into()).compiled_mention_patterns().unwrap(),
        vec!["bot"]
    );
}
