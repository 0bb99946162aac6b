use dar_extensions::keyed::Keyed;
use dar_extensions::slack::addressing::{
    route, strip_mention, ConversationKind, InboundMessage, RouteDecision,
};
use dar_extensions::slack::config::{
    ChannelConfig, DirectMessageConfig, SlackConfig, ThreadPolicy,
};

fn channel_config() -> SlackConfig {
    let mut channels = Keyed::new();
    channels.insert("C1".into(), ChannelConfig::default());
    SlackConfig {
        channels,
        ..SlackConfig::default()
    }
}

fn channel<'a>(text: &'a str, thread_ts: Option<&'a str>) -> InboundMessage<'a> {
    InboundMessage {
        team_id: "T1",
        channel_id: "C1",
        sender_id: "U1",
        text,
        has_files: false,
        bot_user_id: Some("B1"),
        thread_ts,
        message_ts: "1.2",
        kind: ConversationKind::Channel,
    }
}

#[test]
fn channel_requires_and_removes_mention() {
    assert_eq!(
        route(&channel_config(), &[], &channel("hello", None)),
        RouteDecision::Ignore
    );
    assert_eq!(
        route(&channel_config(), &[], &channel("<@B1> hello", None)),
        RouteDecision::Dispatch {
            text: "hello".into(),
            reply_thread_ts: Some("1.2".into())
        }
    );
}

#[test]
fn attachment_only_channel_bypasses_mention_requirement() {
    let mut attachment = channel("", None);
    attachment.has_files = true;
    assert!(matches!(
        route(&channel_config(), &[], &attachment),
        RouteDecision::Dispatch { text, .. } if text.is_empty()
    ));
    assert_eq!(
        route(&channel_config(), &[], &channel("", None)),
        RouteDecision::Ignore
    );
    let mut captioned_attachment = channel("caption", None);
    captioned_attachment.has_files = true;
    assert_eq!(
        route(&channel_config(), &[], &captioned_attachment),
        RouteDecision::Ignore
    );
}

#[test]
fn configured_channels_reject_absent_channel() {
    let mut message = channel("<@B1> hello", None);
    message.channel_id = "C2";
    assert_eq!(
        route(&channel_config(), &[], &message),
        RouteDecision::Ignore
    );
}

#[test]
fn denied_dm_is_not_routed() {
    let config = SlackConfig {
        dm: DirectMessageConfig {
            enabled: true,
            users: vec!["U2".into()],
            ..Default::default()
        },
        ..SlackConfig::default()
    };
    let message = InboundMessage {
        kind: ConversationKind::DirectMessage,
        ..channel("private", None)
    };
    assert_eq!(route(&config, &[], &message), RouteDecision::Ignore);
}

fn direct_message<'a>(text: &'a str, thread_ts: Option<&'a str>) -> InboundMessage<'a> {
    InboundMessage {
        kind: ConversationKind::DirectMessage,
        ..channel(text, thread_ts)
    }
}

#[test]
fn dm_default_routes_root_directly_and_follows_existing_thread() {
    let mut config = SlackConfig::default();
    config.dm.enabled = true;

    assert_eq!(
        route(&config, &[], &direct_message("hello", None)),
        RouteDecision::Dispatch {
            text: "hello".into(),
            reply_thread_ts: None,
        }
    );
    assert_eq!(
        route(&config, &[], &direct_message("hello", Some("9.0"))),
        RouteDecision::Dispatch {
            text: "hello".into(),
            reply_thread_ts: Some("9.0".into()),
        }
    );
}

#[test]
fn dm_explicit_thread_policies_control_reply_placement() {
    for (policy, root, thread) in [
        (ThreadPolicy::Always, Some("1.2"), Some("9.0")),
        (ThreadPolicy::Never, None, None),
    ] {
        let mut config = SlackConfig::default();
        config.dm.enabled = true;
        config.dm.thread_policy = policy;
        assert_eq!(
            route(&config, &[], &direct_message("hello", None)),
            RouteDecision::Dispatch {
                text: "hello".into(),
                reply_thread_ts: root.map(str::to_owned),
            }
        );
        assert_eq!(
            route(&config, &[], &direct_message("hello", Some("9.0"))),
            RouteDecision::Dispatch {
                text: "hello".into(),
                reply_thread_ts: thread.map(str::to_owned),
            }
        );
    }
}

#[test]
fn thread_policy_matrix() {
    for (policy, root, thread) in [
        (ThreadPolicy::Always, Some("1.2"), Some("9.0")),
        (ThreadPolicy::Never, None, None),
        (ThreadPolicy::Follow, None, Some("9.0")),
    ] {
        let mut config = channel_config();
        config.channels.insert(
            "C1".into(),
            ChannelConfig {
                thread_policy: policy,
                ..ChannelConfig::default()
            },
        );
        let root_result = route(&config, &[], &channel("<@B1> x", None));
        let thread_result = route(&config, &[], &channel("<@B1> x", Some("9.0")));
        assert_eq!(
            root_result,
            RouteDecision::Dispatch {
                text: "x".into(),
                reply_thread_ts: root.map(str::to_owned)
            }
        );
        assert_eq!(
            thread_result,
            RouteDecision::Dispatch {
                text: "x".into(),
                reply_thread_ts: thread.map(str::to_owned)
            }
        );
    }
}

#[test]
fn patterns_count_as_mentions() {
    let patterns = vec!["(?i)^bot[:,] *".to_string()];
    assert_eq!(
        strip_mention("Bot: hello", Some("B1"), &patterns),
        (true, "hello".to_string())
    );
    assert_eq!(
        strip_mention("robot hello", Some("B1"), &patterns),
        (false, "robot hello".to_string())
    );
    assert_eq!(
        strip_mention("héllo <@B1> there", Some("B1"), &[]).0,
        true
    );
}
