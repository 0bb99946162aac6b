use dar_extensions::irc::config::{ChannelEntry, IrcConfig};
use dar_extensions::irc::conn::{
    after_welcome, apply_nick_change, handshake, link_step, privmsg_line, suffix_for, LinkStep,
    MissingSetting, Registration, RegistrationStep, MAX_NICK_ATTEMPTS,
};
use dar_extensions::irc::proto::Message;

#[test]
fn collision_suffix_grows() {
    assert_eq!(suffix_for(1), "_");
    assert_eq!(suffix_for(2), "__");
    assert_eq!(suffix_for(3), "___");
    assert_eq!(suffix_for(4), "4");
}

#[test]
fn registration_gives_up_after_max_nick_attempts() {
    let mut registration = Registration::new("darbot");
    let mut asked = 0;
    for _ in 0..(MAX_NICK_ATTEMPTS + 5) {
        match registration.step(":srv 433 * darbot :Nickname is already in use") {
            RegistrationStep::Send(line) => {
                asked += 1;
                assert!(line.starts_with("NICK darbot"), "unexpected line: {line}");
            }
            RegistrationStep::NickUnavailable => {
                assert_eq!(asked, MAX_NICK_ATTEMPTS);
                return;
            }
            other => panic!("unexpected step: {other:?}"),
        }
    }
    panic!("must give up after the attempt cap");
}

#[test]
fn registration_answers_pings_and_ends_with_a_welcome() {
    let mut registration = Registration::new("darbot");
    assert_eq!(
        registration.step("PING :tok"),
        RegistrationStep::Send("PONG :tok".to_string())
    );
    assert_eq!(
        registration.step(":srv NOTICE * :looking up"),
        RegistrationStep::Wait
    );
    assert_eq!(
        registration.step(":srv 433 * darbot :taken"),
        RegistrationStep::Send("NICK darbot_".to_string())
    );
    assert_eq!(
        registration.step(":srv 001 darbot_ :Welcome"),
        RegistrationStep::Welcomed
    );
    assert_eq!(registration.nick(), "darbot_");
}

#[test]
fn registration_reports_a_refusal() {
    let mut registration = Registration::new("darbot");
    match registration.step(":srv 464 * :Password incorrect") {
        RegistrationStep::Rejected(reason) => {
            assert!(reason.contains("Password incorrect"), "{reason}")
        }
        other => panic!("unexpected step: {other:?}"),
    }
}

#[test]
fn nick_change_for_own_nick_updates_live_nick() {
    let msg = Message::parse(":darbot!u@h NICK :darbot_").unwrap();
    assert_eq!(apply_nick_change("darbot", &msg), "darbot_");
}

#[test]
fn nick_change_for_another_nick_is_ignored() {
    let msg = Message::parse(":someoneelse!u@h NICK :newname").unwrap();
    assert_eq!(apply_nick_change("darbot", &msg), "darbot");
}

#[test]
fn link_answers_pings_and_delivers_the_rest() {
    assert_eq!(
        link_step("darbot", "PING :abc").0,
        LinkStep::Pong("PONG :abc".to_string())
    );
    assert_eq!(link_step("darbot", "").0, LinkStep::Skip);
    let (step, nick) = link_step("darbot", ":darbot!u@h NICK :other");
    assert_eq!(nick, "other");
    assert_eq!(
        step,
        LinkStep::Deliver(Message::parse(":darbot!u@h NICK :other").unwrap())
    );
}

#[test]
fn messages_name_their_target() {
    assert_eq!(privmsg_line("#room", "hi there"), "PRIVMSG #room :hi there");
}

#[test]
fn handshake_needs_server_and_nick() {
    assert_eq!(
        handshake(&IrcConfig::default()).unwrap_err(),
        MissingSetting::Server
    );
    let cfg = IrcConfig {
        server: Some("irc.example".to_string()),
        ..IrcConfig::default()
    };
    assert_eq!(handshake(&cfg).unwrap_err(), MissingSetting::Nick);
    let cfg = IrcConfig {
        nick: Some("darbot".to_string()),
        server_password: Some("pw".to_string()),
        ..cfg
    };
    assert_eq!(
        handshake(&cfg).unwrap(),
        vec!["PASS pw", "NICK darbot", "USER darbot 0 * :darbot"]
    );
}

#[test]
fn channels_are_joined_after_the_welcome() {
    let cfg = IrcConfig {
        nickserv_password: Some("pw".to_string()),
        channels: vec![ChannelEntry {
            name: "#room".to_string(),
            mention_required: None,
        }],
        ..IrcConfig::default()
    };
    assert_eq!(
        after_welcome(&cfg),
        vec!["PRIVMSG NickServ :IDENTIFY pw", "JOIN #room"]
    );
}
