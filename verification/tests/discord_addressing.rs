use dar_extensions::discord::addressing::{route, strip_mention, InboundMessage, RouteDecision};
use dar_extensions::discord::config::{token, ChannelConfig, DiscordConfig, GuildConfig};
use dar_extensions::discord::session::SessionKey;
use dar_extensions::keyed::Keyed;

fn guild(first: ChannelConfig) -> GuildConfig {
    let mut channels = Keyed::new();
    channels.insert("c1".into(), first);
    channels.insert("thread".into(), ChannelConfig::default());
    GuildConfig {
        channels,
        ..Default::default()
    }
}

fn with_guild(guild: GuildConfig) -> DiscordConfig {
    let mut guilds = Keyed::new();
    guilds.insert("g1".into(), guild);
    DiscordConfig {
        guilds,
        ..Default::default()
    }
}

fn config() -> DiscordConfig {
    with_guild(guild(ChannelConfig::default()))
}

fn message<'a>(
    guild_id: Option<&'a str>,
    channel_id: &'a str,
    text: &'a str,
) -> InboundMessage<'a> {
    InboundMessage {
        guild_id,
        channel_id,
        parent_channel_id: None,
        thread_engaged: false,
        author_id: "u1",
        author_is_bot: false,
        webhook_id: None,
        text,
        has_attachments: false,
    }
}

#[test]
fn gating_matrix_handles_mentions_dms_threads_allowlists_and_bots() {
    let cfg = config();
    assert_eq!(
        route(&cfg, Some("b1"), &message(Some("g1"), "c1", "hello")),
        RouteDecision::Ignore
    );
    assert_eq!(
        route(&cfg, Some("b1"), &message(None, "dm", "hello")),
        RouteDecision::Dispatch {
            text: "hello".into(),
            session_key: SessionKey::dm("u1")
        }
    );
    assert_eq!(
        route(
            &cfg,
            Some("b1"),
            &message(Some("g1"), "thread", "<@b1> hello")
        ),
        RouteDecision::Dispatch {
            text: "hello".into(),
            session_key: SessionKey::guild_channel("g1", "thread")
        }
    );
    let mut restricted = guild(ChannelConfig::default());
    restricted.users.push("u2".into());
    let restricted = with_guild(restricted);
    assert_eq!(
        route(
            &restricted,
            Some("b1"),
            &message(Some("g1"), "c1", "<@b1> hello")
        ),
        RouteDecision::Ignore
    );
    let mut bot = message(Some("g1"), "c1", "<@b1> hello");
    bot.author_is_bot = true;
    assert_eq!(route(&cfg, Some("b1"), &bot), RouteDecision::Ignore);
    let mut webhook = message(Some("g1"), "c1", "<@b1> hello");
    webhook.webhook_id = Some("hook");
    assert_eq!(route(&cfg, Some("b1"), &webhook), RouteDecision::Ignore);
}

#[test]
fn disabled_and_distinct_channels_do_not_route_or_share_sessions() {
    let cfg = with_guild(guild(ChannelConfig {
        enabled: false,
        ..Default::default()
    }));
    assert_eq!(
        route(&cfg, Some("b1"), &message(Some("g1"), "c1", "<@b1> hello")),
        RouteDecision::Ignore
    );
    let mut disabled = guild(ChannelConfig::default());
    disabled.enabled = false;
    let cfg = with_guild(disabled);
    assert_eq!(
        route(&cfg, Some("b1"), &message(Some("g1"), "c1", "<@b1> hello")),
        RouteDecision::Ignore
    );
    let cfg = with_guild(guild(ChannelConfig {
        users: vec!["u2".into()],
        ..Default::default()
    }));
    assert_eq!(
        route(&cfg, Some("b1"), &message(Some("g1"), "c1", "<@b1> hello")),
        RouteDecision::Ignore
    );
    let cfg = with_guild(guild(ChannelConfig {
        require_mention: false,
        ..Default::default()
    }));
    assert!(matches!(
        route(&cfg, Some("b1"), &message(Some("g1"), "c1", "hello")),
        RouteDecision::Dispatch { .. }
    ));
    let cfg = config();
    let first = route(&cfg, Some("b1"), &message(Some("g1"), "c1", "<@b1> hello"));
    let second = route(
        &cfg,
        Some("b1"),
        &message(Some("g1"), "thread", "<@b1> hello"),
    );
    assert_ne!(first, second);
}

#[test]
fn attachment_only_message_bypasses_mention_gating() {
    assert_eq!(
        route(&config(), Some("b1"), &message(Some("g1"), "c1", "")),
        RouteDecision::Ignore
    );
    let mut captioned = message(Some("g1"), "c1", "a picture");
    captioned.has_attachments = true;
    assert_eq!(
        route(&config(), Some("b1"), &captioned),
        RouteDecision::Ignore
    );
    let mut attachment = message(Some("g1"), "c1", "");
    attachment.has_attachments = true;
    assert!(matches!(
        route(&config(), Some("b1"), &attachment),
        RouteDecision::Dispatch { text, .. } if text.is_empty()
    ));
}

#[test]
fn engaged_threads_need_no_mention() {
    let mut reply = message(Some("g1"), "t1", "hello");
    reply.parent_channel_id = Some("c1");
    assert_eq!(route(&config(), Some("b1"), &reply), RouteDecision::Ignore);
    reply.thread_engaged = true;
    assert_eq!(
        route(&config(), Some("b1"), &reply),
        RouteDecision::Dispatch {
            text: "hello".into(),
            session_key: SessionKey::guild_thread("g1", "t1")
        }
    );
    assert_eq!(
        strip_mention("<@!b1> hello", Some("b1")),
        (true, "hello".to_string())
    );
}

#[test]
fn missing_token_is_clear() {
    assert!(token(&DiscordConfig::default(), None)
        .unwrap_err()
        .message()
        .contains("DISCORD_BOT_TOKEN"));
}

#[test]
fn discord_tokens_fall_back_to_the_environment() {
    let own = DiscordConfig {
        bot_token: Some("own".into()),
        ..Default::default()
    };
    assert_eq!(token(&own, Some("env")).unwrap(), "own");
    assert_eq!(token(&DiscordConfig::default(), Some("env")).unwrap(), "env");
    assert_eq!(DiscordConfig::default().sessions.idle_minutes, 360);
}
