//! What holds of how the bot enters a server, and of which messages it takes up.

use crate::generations;
use crate::irc::addressing;
use crate::irc::addressing::{ConversationView, Verdict};
use crate::irc::config;
use crate::irc::config::IrcConfig;
use crate::irc::conn;
use crate::irc::conn::Reply;
use crate::irc::laws;
use crate::irc::proto;
use crate::irc::proto::{MessageView, PrivMsgView};
use crate::irc::session;
use crate::irc::session::{ActionView, RootEntry};
use crate::irc::worker;
use crate::irc::worker::IncomingView;
use crate::text;
use vstd::prelude::*;

verus! {

// ---- Registration -----------------------------------------------------------

/// A registration says the password first, where there is one, and then the nick and the
/// user, whose names are the nick where they are not set.
pub proof fn registrations_say_password_nick_and_user(cfg: IrcConfig, nick: String)
    requires
        cfg.nick == Some(nick),
    ensures
        ({
            let said = conn::handshake_lines(cfg);
            let name = if cfg.username is Some {
                cfg.username->0@
            } else {
                nick@
            };
            let full_name = if cfg.realname is Some {
                cfg.realname->0@
            } else {
                nick@
            };
            let two = seq!["NICK "@ + nick@, "USER "@ + name + " 0 * :"@ + full_name];
            &&& cfg.server_password is None ==> said == two
            &&& cfg.server_password is Some && cfg.server_password->0@.len() == 0 ==> said == two
            &&& cfg.server_password is Some && cfg.server_password->0@.len() > 0 ==> said == seq![
                "PASS "@ + cfg.server_password->0@,
            ] + two
        }),
{
    let said = conn::handshake_lines(cfg);
    let name = if cfg.username is Some {
        cfg.username->0@
    } else {
        nick@
    };
    let full_name = if cfg.realname is Some {
        cfg.realname->0@
    } else {
        nick@
    };
    let two = seq!["NICK "@ + nick@, "USER "@ + name + " 0 * :"@ + full_name];
    assert(Seq::<Seq<char>>::empty() + two =~= two);
}

/// Every channel is joined, each by a line of its own and in order.
pub proof fn every_channel_is_joined(names: Seq<Seq<char>>, more: Seq<Seq<char>>, name: Seq<char>)
    ensures
        conn::join_lines(names).len() == names.len(),
        conn::join_lines(seq![name]) == seq!["JOIN "@ + name],
        conn::join_lines(names + more) == conn::join_lines(names) + conn::join_lines(more),
{
    assert(conn::join_lines(seq![name]) =~= seq!["JOIN "@ + name]);
    assert(conn::join_lines(names + more) =~= conn::join_lines(names) + conn::join_lines(more));
}

/// What the answers of a server mean: a ping, the welcome, a nick that is taken, or a
/// refusal; anything else means nothing.
pub proof fn answers_mean_what_their_numbers_say(command: Seq<char>)
    ensures
        conn::reply_of(command) == Reply::Ping <==> command == "PING"@,
        conn::reply_of(command) == Reply::Welcome <==> command == "001"@,
        conn::reply_of(command) == Reply::Collision <==> command == "433"@ || command == "436"@
            || command == "437"@,
        conn::reply_of(command) == Reply::Refusal <==> command == "464"@ || command == "465"@,
{
    reveal_strlit("PING");
    reveal_strlit("001");
    reveal_strlit("433");
    reveal_strlit("436");
    reveal_strlit("437");
    reveal_strlit("464");
    reveal_strlit("465");
    assert("PING"@[0] == 'P' && "001"@[0] == '0' && "433"@[0] == '4' && "436"@[0] == '4'
        && "437"@[0] == '4' && "464"@[0] == '4' && "465"@[0] == '4');
    assert("433"@[1] == '3' && "436"@[1] == '3' && "437"@[1] == '3' && "464"@[1] == '6'
        && "465"@[1] == '6');
}

/// The nick changes exactly where the server tells of a change of the bot's own nick, and
/// is the new one then.
pub proof fn only_the_own_nick_changes(nick: Seq<char>, m: MessageView, new: Seq<char>)
    requires
        m.params.len() > 0 && m.params[0] == new && new.len() > 0,
        m.prefix is Some,
    ensures
        text::same_ignoring_case(m.command, "NICK"@) && text::same_ignoring_case(
            proto::nick_of(m.prefix->0),
            nick,
        ) ==> conn::nick_after(nick, m) == new,
        !(text::same_ignoring_case(m.command, "NICK"@) && text::same_ignoring_case(
            proto::nick_of(m.prefix->0),
            nick,
        )) ==> conn::nick_after(nick, m) == nick,
{
}

// ---- Messages ---------------------------------------------------------------

/// A message is one to read exactly where it is a `PRIVMSG` with a sender, a target and a
/// text, and all three are read.
pub proof fn messages_have_sender_target_and_text(m: MessageView)
    ensures
        proto::privmsg_in(m) is Some <==> text::same_ignoring_case(m.command, "PRIVMSG"@)
            && m.prefix is Some && proto::nick_of(m.prefix->0).len() > 0 && m.params.len() >= 2,
        proto::privmsg_in(m) matches Some(pm) ==> pm.sender == proto::nick_of(m.prefix->0)
            && pm.target == m.params[0] && pm.text == proto::readable(pm.sender, m.params[1]),
{
}

/// Whether a channel asks for a mention: as it says itself, else as all do, else it does.
pub open spec fn asks_for_mention(cfg: IrcConfig, channel: Seq<char>) -> bool {
    let own = config::channel_setting(cfg.channels@, channel);
    if own is Some {
        own->0
    } else {
        cfg.mention_required is None || cfg.mention_required->0
    }
}

/// A message of the bot itself is never taken up. Any other is: a direct one is answered,
/// and one to a channel is answered where it is addressed or no mention is asked for, and
/// else kept as context. It belongs to the channel, or to its sender.
pub proof fn messages_of_others_are_taken_up(
    cfg: IrcConfig,
    m: MessageView,
    bot: Seq<char>,
    pm: PrivMsgView,
)
    requires
        proto::privmsg_in(m) == Some(pm),
    ensures
        text::same_ignoring_case(pm.sender, bot) <==> worker::incoming_from(cfg, m, bot) is None,
        !text::same_ignoring_case(pm.sender, bot) ==> {
            let to_channel = pm.target.len() > 0 && (pm.target[0] == '#' || pm.target[0] == '&'
                || pm.target[0] == '+' || pm.target[0] == '!');
            let answered = !to_channel || !asks_for_mention(cfg, pm.target)
                || addressing::mentions(pm.text, bot);
            worker::incoming_from(cfg, m, bot) == Some(
                IncomingView {
                    pm,
                    conv: if to_channel {
                        ConversationView::Channel(pm.target)
                    } else {
                        ConversationView::Dm(pm.sender)
                    },
                    verdict: if answered {
                        Verdict::Reply
                    } else {
                        Verdict::ContextOnly
                    },
                    bot_nick: bot,
                },
            )
        },
{
}

/// A reset is a request that is one of the two commands and nothing else, to the bot, from
/// someone who may: anyone where nobody is listed.
pub proof fn resets_come_from_those_who_may(cfg: IrcConfig, m: IncomingView, said: Seq<char>)
    requires
        said == text::trimmed(addressing::request_in(m.pm.text, m.bot_nick)),
    ensures
        said != "/new"@ && said != "/reset"@ ==> !worker::resets(cfg, m),
        !(m.verdict is Reply) ==> !worker::resets(cfg, m),
        cfg.sessions.reset_users@.len() > 0 && !config::lists_nick(
            cfg.sessions.reset_users@,
            m.pm.sender,
        ) ==> !worker::resets(cfg, m),
        m.verdict is Reply && (said == "/new"@ || said == "/reset"@) && (
        cfg.sessions.reset_users@.len() == 0 || config::lists_nick(
            cfg.sessions.reset_users@,
            m.pm.sender,
        )) ==> worker::resets(cfg, m),
{
}

/// Direct messages are for those who are listed, or for all where nobody is; channels are
/// for all.
pub proof fn direct_messages_are_for_the_listed(cfg: IrcConfig, nick: Seq<char>, name: Seq<char>)
    ensures
        worker::authorized(cfg, ConversationView::Channel(name)),
        cfg.allowed_users@.len() == 0 ==> worker::authorized(cfg, ConversationView::Dm(nick)),
        cfg.allowed_users@.len() > 0 ==> (worker::authorized(cfg, ConversationView::Dm(nick))
            <==> exists|i: int|
            0 <= i < cfg.allowed_users@.len() && text::same_ignoring_case(
                #[trigger] cfg.allowed_users@[i]@,
                nick,
            )),
{
}

/// A message goes on with a burst where it is of the same conversation and the same
/// sender, whatever the case of the letters of the nick.
pub proof fn bursts_are_of_one_sender(
    next: IncomingView,
    conv: ConversationView,
    sender: Seq<char>,
)
    ensures
        worker::same_burst(next, conv, sender) ==> next.conv == conv && text::same_ignoring_case(
            next.pm.sender,
            sender,
        ),
        next.conv == conv && next.pm.sender == sender && next.verdict is Reply
            ==> worker::same_burst(next, conv, sender),
        next.conv == conv && next.pm.sender == sender && next.verdict is ContextOnly
            ==> worker::same_burst(next, conv, sender),
        next.conv != conv ==> !worker::same_burst(next, conv, sender),
{
    assert(text::same_ignoring_case(sender, sender));
}

/// Letters compare without regard to their case, and only ASCII letters do.
pub proof fn case_makes_no_difference(a: Seq<char>, b: Seq<char>)
    ensures
        text::same_ignoring_case(a, b) <==> a.len() == b.len() && forall|i: int|
            0 <= i < a.len() ==> same_letter(#[trigger] a[i], b[i]),
{
    if text::same_ignoring_case(a, b) {
        assert(text::lowered(a).len() == text::lowered(b).len());
        assert forall|i: int| 0 <= i < a.len() implies same_letter(#[trigger] a[i], b[i]) by {
            assert(text::lowered(a)[i] == text::lowered(b)[i]);
            lemma_letter(a[i], b[i]);
        }
    }
    if a.len() == b.len() && forall|i: int|
        0 <= i < a.len() ==> same_letter(#[trigger] a[i], b[i]) {
        assert forall|i: int| 0 <= i < a.len() implies text::lowered(a)[i] == text::lowered(
            b,
        )[i] by {
            assert(same_letter(a[i], b[i]));
            lemma_letter(a[i], b[i]);
        }
        assert(text::lowered(a) =~= text::lowered(b));
    }
}

/// Whether two characters are the same, or the capital and the small form of one ASCII
/// letter.
pub open spec fn same_letter(x: char, y: char) -> bool {
    ||| x == y
    ||| 'A' <= x <= 'Z' && y as u32 == x as u32 + 32
    ||| 'A' <= y <= 'Z' && x as u32 == y as u32 + 32
}

proof fn lemma_letter(x: char, y: char)
    ensures
        text::ascii_lower(x) == text::ascii_lower(y) <==> same_letter(x, y),
{
    if 'A' <= x <= 'Z' {
        assert(text::ascii_lower(x) as u32 == x as u32 + 32);
    } else {
        assert(text::ascii_lower(x) == x);
    }
    if 'A' <= y <= 'Z' {
        assert(text::ascii_lower(y) as u32 == y as u32 + 32);
    } else {
        assert(text::ascii_lower(y) == y);
    }
}

/// As many generations are found as there are directories with the name of one.
pub proof fn every_generation_is_counted(entries: Seq<RootEntry>)
    ensures
        session::candidate_count(entries) == entries.filter(
            |e: RootEntry| session::candidate(e),
        ).len(),
    decreases entries.len(),
{
    reveal(Seq::filter);
    if entries.len() > 0 {
        every_generation_is_counted(entries.drop_last());
    }
}

/// Of the entries of a conversation's directory, all but the pointer and its drafts are
/// older files; a directory is a generation by its name, and one that is marked but has
/// another name is malformed.
pub proof fn entries_are_told_by_their_names(name: Seq<char>, entry: RootEntry)
    ensures
        session::is_entry(name) <==> name != session::POINTER@ && !text::begins_with(
            name,
            ".current-"@,
        ),
        session::candidate(entry) <==> entry.is_dir && generations::names_generation(entry.name@),
        session::malformed(entry) <==> entry.is_dir && entry.marked
            && !generations::names_generation(entry.name@),
{
}

// ---- Settings ---------------------------------------------------------------

/// A variable that is not set, or is empty, says nothing; a number, a truth value or a list
/// is read from one that holds it.
pub proof fn variables_are_read_by_their_kind(value: String, n: nat, max: nat)
    ensures
        value@.len() == 0 ==> config::env_value(Some(value)) is None && config::env_list(
            Some(value),
        ).len() == 0,
        value@.len() > 0 ==> config::env_value(Some(value)) == Some(value@),
        config::env_value(None) is None && config::env_list(None).len() == 0,
        value@ == text::decimal(n) && n <= max ==> config::env_number(Some(value), max) == Some(n),
        value@ == text::decimal(n) && n > max ==> config::env_number(Some(value), max) is None,
        value@ == "true"@ ==> config::env_bool(Some(value)) == Some(true),
        value@ == "false"@ ==> config::env_bool(Some(value)) == Some(false),
        value@ != "true"@ && value@ != "false"@ ==> config::env_bool(Some(value)) is None,
        value@.len() > 0 ==> config::env_list(Some(value)) == text::split_on(
            value@,
            ',',
        ).map_values(|p: Seq<char>| text::trimmed(p)).filter(|p: Seq<char>| p.len() > 0),
{
    reveal_strlit("true");
    reveal_strlit("false");
    assert("true"@[0] == 't' && "false"@[0] == 'f');
    text::lemma_numeral_of_decimal(n);
    text::lemma_decimal_digits(n);
    laws::lists_hold_every_entry(text::split_on(value@, ','));
}

/// A message is sent to one word, and a setting counts before its fallback.
pub proof fn targets_are_one_word(target: Seq<char>, a: bool, b: Option<bool>)
    ensures
        worker::is_target(target) <==> target.len() > 0 && forall|i: int|
            0 <= i < target.len() ==> !text::is_white(#[trigger] target[i]),
        config::or_else(Some(a), b) == Some(a),
        config::or_else(None, b) == b,
{
}

/// The replies of a server that refuse a message are those that find no such nick or
/// channel, those that cannot send or join, those on a target or a text that is missing or
/// wrong, and those on a channel that the bot is not on or has no rights in.
pub proof fn messages_are_refused_by_number(command: Seq<char>)
    ensures
        worker::refuses_message(command) <==> seq![
            "401"@,
            "403"@,
            "404"@,
            "405"@,
            "407"@,
            "408"@,
            "411"@,
            "412"@,
            "413"@,
            "414"@,
            "442"@,
            "482"@,
        ].contains(command),
{
    let all = seq![
        "401"@,
        "403"@,
        "404"@,
        "405"@,
        "407"@,
        "408"@,
        "411"@,
        "412"@,
        "413"@,
        "414"@,
        "442"@,
        "482"@,
    ];
    assert(all[0] == "401"@ && all[1] == "403"@ && all[2] == "404"@ && all[3] == "405"@ && all[4]
        == "407"@ && all[5] == "408"@ && all[6] == "411"@ && all[7] == "412"@ && all[8] == "413"@
        && all[9] == "414"@ && all[10] == "442"@ && all[11] == "482"@);
}

/// Where older files are taken over, each entry of a conversation's directory is moved, in
/// order: all but the pointer, its drafts and the generation that it is moved into. Nothing
/// is moved where a session goes on or is begun anew.
pub proof fn older_files_are_moved_in_order(
    before: Seq<Seq<char>>,
    entry: Seq<char>,
    after: Seq<Seq<char>>,
    name: Seq<char>,
    mark: generations::Mark,
)
    ensures
        ({
            let migrate = ActionView::Migrate;
            let stays = entry == "current.json"@ || text::begins_with(entry, ".current-"@) || entry
                == name;
            session::moved_by(migrate, before.push(entry) + after, name) == (if stays {
                session::moved_by(migrate, before, name)
            } else {
                session::moved_by(migrate, before, name).push(entry)
            }) + session::moved_by(migrate, after, name)
        }),
        session::moved_by(ActionView::Migrate, Seq::empty(), name).len() == 0,
        session::moved_by(ActionView::Rotate, before, name).len() == 0,
        session::moved_by(ActionView::Reuse(mark), before, name).len() == 0,
{
    let keep = |e: Seq<char>| session::is_entry(e) && e != name;
    Seq::filter_distributes_over_add(before.push(entry), after, keep);
    reveal(Seq::filter);
    assert(before.push(entry).drop_last() =~= before);
    assert(before.push(entry).last() == entry);
    assert(keep(entry) == (session::is_entry(entry) && entry != name));
}

} // verus!
