use dar_extensions::irc::config::{
    dm_authorized, ChannelEntry, IrcConfig, IrcEnv, DEFAULT_CONTEXT_WINDOW, DEFAULT_MAX_BOT_TURNS,
    DEFAULT_PORT,
};

#[test]
fn config_empty_allowlist_permits_anyone() {
    assert!(dm_authorized("alice", &[]));
    assert!(dm_authorized("", &[]));
}

#[test]
fn allowlist_gates_by_nick_case_insensitively() {
    let allowed = vec!["Alice".to_string(), "bob".to_string()];
    assert!(dm_authorized("alice", &allowed));
    assert!(dm_authorized("ALICE", &allowed));
    assert!(dm_authorized("BoB", &allowed));
    assert!(!dm_authorized("carol", &allowed));
}

#[test]
fn defaults_are_sane() {
    let cfg = IrcConfig::default();
    assert_eq!(cfg.effective_port(), 6697);
    assert!(cfg.tls());
    assert_eq!(cfg.effective_max_bot_turns(), DEFAULT_MAX_BOT_TURNS);
    assert_eq!(cfg.effective_context_window(), DEFAULT_CONTEXT_WINDOW);
    assert!(cfg.channels.is_empty());
}

#[test]
fn explicit_tls_is_not_overridden_by_default_resolution() {
    // An explicit `tls: false` in yaml must survive resolution.
    let cfg = IrcConfig {
        tls: Some(false),
        ..IrcConfig::default()
    };
    assert!(!cfg.tls());
    // Unset yaml resolves to the default (true).
    let cfg = IrcConfig::default();
    assert!(cfg.tls());
}

#[test]
fn username_realname_fall_back_to_nick() {
    let cfg = IrcConfig {
        nick: Some("darbot".into()),
        ..IrcConfig::default()
    };
    assert_eq!(cfg.effective_username(), "darbot");
    assert_eq!(cfg.effective_realname(), "darbot");
}

#[test]
fn unset_default_resolves_to_true() {
    let cfg = IrcConfig::default();
    assert!(cfg.mention_required_for("#any"));
}

#[test]
fn ack_defaults_to_true_when_unset() {
    let cfg = IrcConfig::default();
    assert!(cfg.effective_ack());
}

#[test]
fn ack_honors_explicit_false() {
    let cfg = IrcConfig {
        ack: Some(false),
        ..IrcConfig::default()
    };
    assert!(!cfg.effective_ack());
}

#[test]
fn explicit_default_valued_numerics_survive_env_fallback() {
    let env = IrcEnv {
        max_bot_turns: Some("0".to_string()),
        ..IrcEnv::default()
    };
    let cfg = IrcConfig {
        max_bot_turns: Some(DEFAULT_MAX_BOT_TURNS),
        port: Some(DEFAULT_PORT),
        context_window: Some(DEFAULT_CONTEXT_WINDOW),
        ..IrcConfig::default()
    }
    .with_env_fallbacks(&env);
    assert_eq!(
        cfg.effective_max_bot_turns(),
        DEFAULT_MAX_BOT_TURNS,
        "explicit yaml value must not be clobbered by env"
    );
}

#[test]
fn ack_honors_env_fallback() {
    let env = IrcEnv {
        ack: Some("false".to_string()),
        ..IrcEnv::default()
    };
    let cfg = IrcConfig::default().with_env_fallbacks(&env);
    assert!(!cfg.effective_ack(), "IRC_ACK=false must disable the ack");
}

#[test]
fn explicit_ack_is_not_overridden_by_env() {
    let env = IrcEnv {
        ack: Some("true".to_string()),
        ..IrcEnv::default()
    };
    let cfg = IrcConfig {
        ack: Some(false),
        ..IrcConfig::default()
    }
    .with_env_fallbacks(&env);
    assert!(
        !cfg.effective_ack(),
        "explicit yaml ack:false must not be clobbered by env"
    );
}

fn channel(name: &str, mention_required: Option<bool>) -> ChannelEntry {
    ChannelEntry {
        name: name.to_string(),
        mention_required,
    }
}

#[test]
fn channels_override_the_global_setting() {
    let cfg = IrcConfig {
        mention_required: Some(true),
        channels: vec![channel("#team", None), channel("#public", Some(false))],
        ..IrcConfig::default()
    };
    assert!(cfg.mention_required_for("#team"));
    assert!(!cfg.mention_required_for("#public"));
    assert!(!cfg.mention_required_for("#PUBLIC"));
    assert_eq!(cfg.channel_names(), vec!["#team", "#public"]);

    let cfg = IrcConfig {
        mention_required: Some(false),
        channels: vec![channel("#x", None)],
        ..IrcConfig::default()
    };
    assert!(!cfg.mention_required_for("#x"));
    assert!(!cfg.mention_required_for("#nope"));
}

#[test]
fn the_environment_fills_what_is_unset() {
    let env = IrcEnv {
        server: Some("irc.example".to_string()),
        port: Some("7000".to_string()),
        tls: Some("false".to_string()),
        channels: Some("#a, #b".to_string()),
        debounce_ms: Some("nonsense".to_string()),
        ..IrcEnv::default()
    };
    let cfg = IrcConfig::default().with_env_fallbacks(&env);
    assert_eq!(cfg.server.as_deref(), Some("irc.example"));
    assert_eq!(cfg.effective_port(), 7000);
    assert!(!cfg.tls());
    assert_eq!(cfg.channel_names(), vec!["#a", "#b"]);
    assert_eq!(cfg.debounce_ms, None);
}
