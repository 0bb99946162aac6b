//! What holds of every response and request on Slack.

use crate::json;
use crate::json::JsonView;
use crate::slack::addressing;
use crate::slack::addressing::ConversationKind;
use crate::slack::api;
use crate::slack::attachments;
use crate::slack::commands;
use crate::slack::commands::Command;
use crate::slack::config::SlackConfig;
use crate::slack::events;
use crate::slack::events::IncomingView;
use crate::slack::live_answer;
use crate::slack::mrkdwn;
use crate::slack::runtime;
use crate::slack::thinking;
use crate::slack::tools;
use crate::text;
use crate::text_laws;
use crate::urls;
use vstd::prelude::*;

verus! {

// ---- Responses --------------------------------------------------------------

/// A response succeeds exactly where its status says so and it is an object that says so
/// under `ok`, with nothing or a text under `error`.
pub proof fn responses_succeed_where_they_say_so(
    status: u16,
    content_type: Seq<char>,
    bytes: u64,
    body: Option<JsonView>,
)
    ensures
        api::response_fault(status, content_type, bytes, body) is None <==> 200 <= status < 300
            && body is Some && body->0 is Object && json::member(body->0, "ok"@) == Some(
            JsonView::Bool(true),
        ) && (json::member(body->0, "error"@) is None || json::member(body->0, "error"@) == Some(
            JsonView::Null,
        ) || json::text_member(body->0, "error"@) is Some),
        status == 429 ==> api::response_fault(status, content_type, bytes, body) == Some(
            ("rate_limited"@, true),
        ),
        status != 429 && !(200 <= status < 300) ==> api::response_fault(
            status,
            content_type,
            bytes,
            body,
        ) == Some(("http_error"@, true)),
{
}

/// A response that says that it failed is a fault with the code that it gives, or with one
/// for a fault that is not known. It may say when to try again.
pub proof fn refusals_are_told_by_their_code(
    status: u16,
    content_type: Seq<char>,
    bytes: u64,
    body: JsonView,
)
    requires
        200 <= status < 300,
        body is Object,
        json::member(body, "ok"@) == Some(JsonView::Bool(false)),
    ensures
        json::text_member(body, "error"@) matches Some(code) ==> api::response_fault(
            status,
            content_type,
            bytes,
            Some(body),
        ) == Some((code, true)),
        json::member(body, "error"@) is None ==> api::response_fault(
            status,
            content_type,
            bytes,
            Some(body),
        ) == Some(("unknown_error"@, true)),
{
}

/// A download is accepted exactly where its status says that it succeeded and it is not
/// longer than allowed; where it leads elsewhere, fails or is too long, that is told.
pub proof fn downloads_neither_lead_elsewhere_nor_are_too_long(
    status: u16,
    length: Option<u64>,
    most: u64,
)
    ensures
        attachments::download_fault(status, length, most) is None <==> 200 <= status < 300 && (
        length is None || length->0 <= most),
        300 <= status < 400 ==> attachments::download_fault(status, length, most) == Some(
            "attachment_redirect_rejected"@,
        ),
        status < 200 || status >= 400 ==> attachments::download_fault(status, length, most) == Some(
            "attachment_download_failed"@,
        ),
        200 <= status < 300 && length is Some && length->0 > most ==> attachments::download_fault(
            status,
            length,
            most,
        ) == Some("attachment_too_large"@),
{
}

/// Files are fetched from Slack's own host and those below it, and over a secure
/// connection.
pub proof fn files_come_from_slack(scheme: Seq<char>, host: Seq<char>, below: Seq<char>)
    ensures
        attachments::is_slack_address(("https"@, Some("slack.com"@))),
        attachments::is_slack_address(("https"@, Some(below + ".slack.com"@))),
        scheme != "https"@ ==> !attachments::is_slack_address((scheme, Some(host))),
        host != "slack.com"@ && !urls::ends_with(host, ".slack.com"@)
            ==> !attachments::is_slack_address((scheme, Some(host))),
        !attachments::is_slack_address((scheme, None)),
{
    let name = below + ".slack.com"@;
    assert(name.skip(name.len() - ".slack.com"@.len()) =~= ".slack.com"@);
}

// ---- Commands ---------------------------------------------------------------

/// There are four commands, each of one name.
pub proof fn commands_have_one_name_each(name: Seq<char>)
    ensures
        commands::named_command(name) == Some(Command::New) <==> name == "new"@,
        commands::named_command(name) == Some(Command::Stop) <==> name == "stop"@,
        commands::named_command(name) == Some(Command::Help) <==> name == "help"@,
        commands::named_command(name) == Some(Command::Ping) <==> name == "ping"@,
{
    reveal_strlit("new");
    reveal_strlit("stop");
    reveal_strlit("help");
    reveal_strlit("ping");
    assert("new"@[0] == 'n' && "stop"@[0] == 's' && "help"@[0] == 'h' && "ping"@[0] == 'p');
}

/// A slash command is given exactly where its envelope is one, its name is known, and it
/// says in which channel and by whom; it is about the thread that its text names, else
/// about that in which it was given.
pub proof fn slash_commands_say_where_and_who(kind: Seq<char>, payload: JsonView, name: Seq<char>)
    requires
        json::text_member(payload, "command"@) == Some(name),
    ensures
        ({
            let command = commands::named_command(commands::unmarked(text::first_word(name)));
            let channel = json::text_member(payload, "channel_id"@);
            let user = json::text_member(payload, "user_id"@);
            let given = events::given_command(kind, payload);
            &&& given is Some <==> kind == "slash_commands"@ && command is Some && channel is Some
                && user is Some
            &&& given matches Some((c, m)) ==> {
                &&& command == Some(c)
                &&& channel == Some(m.channel_id) && user == Some(m.sender_id)
                &&& json::text_member(payload, "team_id"@) matches Some(team) ==> m.team_id == team
                &&& json::text_member(payload, "text"@) matches Some(s) ==> text::trimmed(s).len()
                    > 0 ==> m.thread_ts == Some(text::trimmed(s))
                &&& json::text_member(payload, "text"@) is None ==> m.thread_ts
                    == json::text_member(payload, "thread_ts"@)
                &&& m.text.len() == 0 && m.files.len() == 0 && !m.is_reaction
            }
        }),
{
}

/// A command may be given where a message would be answered for its sender: in direct
/// messages by those who may send them, in channels by those who may write there.
pub proof fn commands_are_for_those_who_may_write(config: SlackConfig, m: IncomingView)
    ensures
        m.kind == ConversationKind::DirectMessage ==> (runtime::may_command(config, m)
            <==> config.dm.enabled && (config.dm.users@.len() == 0 || text::views(
            config.dm.users@,
        ).contains(m.sender_id))),
        m.kind == ConversationKind::Channel && config.channels@.contains_key(m.channel_id) ==> (
        runtime::may_command(config, m) <==> ({
            let users = text::views(config.channels@[m.channel_id].users@);
            users.len() == 0 || users.contains(m.sender_id)
        })),
{
    if config.channels@.contains_key(m.channel_id) {
        assert(config.channels@ != Map::<Seq<char>, crate::slack::config::ChannelConfig>::empty());
    }
}

/// A reaction addresses the bot; any other message is routed with its own text.
pub proof fn reactions_address_the_bot(m: IncomingView, bot: Seq<char>, patterns: Seq<Seq<char>>)
    ensures
        !m.is_reaction ==> runtime::to_route(m, bot).text == m.text,
        m.is_reaction ==> addressing::addressed(
            runtime::to_route(m, bot).text,
            Some(bot),
            patterns,
        ) == Some(text::trimmed(m.text)),
        runtime::to_route(m, bot).sender_id == m.sender_id,
        runtime::to_route(m, bot).channel_id == m.channel_id,
        runtime::to_route(m, bot).thread_ts == m.thread_ts,
        runtime::to_route(m, bot).message_ts == m.ts,
        runtime::to_route(m, bot).kind == m.kind,
        runtime::to_route(m, bot).has_files <==> m.files.len() > 0,
{
    reveal_strlit("<@");
    reveal_strlit("> ");
    let none = Seq::<char>::empty();
    crate::slack::traffic::the_first_mention_is_taken_out(
        none,
        bot,
        seq![' '] + m.text,
        patterns,
    );
    assert("<@"@ + bot + "> "@ + m.text =~= none + seq!['<', '@'] + bot + seq!['>'] + (seq![' ']
        + m.text));
    text_laws::ascii_white_space(' ');
    text_laws::white_space_around_is_trimmed(seq![' '], m.text, none);
    assert(none + (seq![' '] + m.text) =~= seq![' '] + m.text + none);
}

/// A message of another workspace is never answered; one of the bot's own is answered as it
/// is routed.
pub proof fn other_workspaces_are_ignored(
    config: SlackConfig,
    team: Seq<char>,
    bot: Seq<char>,
    patterns: Seq<Seq<char>>,
    m: IncomingView,
)
    ensures
        m.team_id != team ==> runtime::answered(config, team, bot, patterns, m) is None,
        m.team_id == team ==> runtime::answered(config, team, bot, patterns, m)
            == addressing::routed(config, patterns, runtime::to_route(m, bot)),
{
}

/// A command in a message begins with an exclamation mark, after what addresses the bot.
pub proof fn commands_in_messages_begin_with_a_mark(
    s: Seq<char>,
    bot: Seq<char>,
    patterns: Seq<Seq<char>>,
    rest: Seq<char>,
)
    requires
        addressing::addressed(s, Some(bot), patterns) == Some(rest) || (addressing::addressed(
            s,
            Some(bot),
            patterns,
        ) is None && rest == s),
    ensures
        ({
            let shown = text::trimmed_start(rest);
            &&& shown.len() == 0 || shown[0] != '!' ==> runtime::bang_command(s, bot, patterns)
                is None
            &&& shown.len() > 0 && shown[0] == '!' ==> runtime::bang_command(s, bot, patterns)
                == commands::named_command(commands::unmarked(text::first_word(rest)))
        }),
{
}

/// An envelope is acknowledged by its id, which is written as a text, and with a reply
/// where there is one.
pub proof fn acknowledgements_name_the_envelope(id: Seq<char>, reply: Seq<char>)
    ensures
        runtime::ack_text(id, None) == "{\"envelope_id\":"@ + json::json_string(id) + "}"@,
        runtime::ack_text(id, Some(reply)) == "{\"envelope_id\":"@ + json::json_string(id)
            + ",\"payload\":{\"response_type\":\"ephemeral\",\"text\":"@ + json::json_string(reply)
            + "}}"@,
        id.len() > 0 ==> runtime::plain_ack(id) == Some(runtime::ack_text(id, None)),
        id.len() == 0 ==> runtime::plain_ack(id) is None,
{
}

// ---- Requests to send -------------------------------------------------------

/// Whether a request may go to a channel or a user: to a user where direct messages may be
/// sent to them, to a direct conversation where anyone may have them, and to a channel that
/// is listed, or to any where none is.
pub open spec fn may_go_to(config: SlackConfig, target: Seq<char>) -> bool {
    if target.len() > 0 && target[0] == 'U' {
        config.dm.enabled && (config.dm.users@.len() == 0 || text::views(config.dm.users@).contains(
            target,
        ))
    } else if target.len() > 0 && target[0] == 'D' {
        config.dm.enabled && config.dm.users@.len() == 0
    } else {
        config.channels@.contains_key(target) || config.channels@ == Map::<
            Seq<char>,
            crate::slack::config::ChannelConfig,
        >::empty()
    }
}

/// A request to send is met exactly where its target has the form of an id and may be
/// written to, its text is neither blank nor too long, and its thread, where it names one,
/// has the form of a timestamp. Then the whole text is sent, rendered and cut to size.
pub proof fn sends_go_where_they_may(config: SlackConfig, args: JsonView)
    ensures
        ({
            let target = json::text_member(args, "channel"@);
            let body = json::text_member(args, "text"@);
            let thread = tools::named_thread(args);
            let r = tools::requested_send(config, args);
            &&& r is Ok <==> {
                &&& target is Some && tools::is_id(target->0) && may_go_to(config, target->0)
                &&& body is Some && 0 < text::utf8_units(text::trimmed(body->0)) <= tools::MAX_TEXT
                &&& thread is Some ==> tools::is_timestamp(thread->0)
            }
            &&& r matches Ok(sent) ==> {
                &&& Some(sent.channel) == target
                &&& sent.is_user <==> target->0.len() > 0 && target->0[0] == 'U'
                &&& text::concatenated(sent.parts) == mrkdwn::rendered(text::trimmed(body->0))
                &&& sent.thread_ts == thread
            }
        }),
{
    let body = json::text_member(args, "text"@);
    mrkdwn::chunks_make_up_the_text(
        mrkdwn::rendered(text::trimmed(body->0)),
        tools::MESSAGE_BYTES as nat,
    );
}

/// An id is made of ASCII letters and digits, and a timestamp of digits around one point.
pub proof fn ids_and_timestamps_have_their_form(a: Seq<char>, b: Seq<char>, s: Seq<char>)
    requires
        a.len() > 0 && b.len() > 0,
        forall|i: int| 0 <= i < a.len() ==> '0' <= #[trigger] a[i] <= '9',
        forall|i: int| 0 <= i < b.len() ==> '0' <= #[trigger] b[i] <= '9',
        text::utf8_units(a + seq!['.'] + b) <= 32,
    ensures
        tools::is_timestamp(a + seq!['.'] + b),
        !s.contains('.') ==> !tools::is_timestamp(s),
        tools::is_timestamp(s) ==> forall|i: int|
            0 <= i < s.len() ==> '0' <= #[trigger] s[i] <= '9' || s[i] == '.',
{
    let ts = a + seq!['.'] + b;
    let n = a.len() as int;
    assert forall|j: int| 0 <= j < n implies ts[j] != '.' by {
        assert(ts[j] == a[j]);
    }
    assert(ts[n] == '.');
    text_laws::lemma_next_is(ts, '.', 0, n);
    assert(ts.take(n) =~= a);
    assert(ts.skip(n + 1) =~= b);
    assert forall|i: int| 0 <= i < a.len() implies text::is_digit(#[trigger] a[i]) by {}
    assert forall|i: int| 0 <= i < b.len() implies text::is_digit(#[trigger] b[i]) by {}
    text::lemma_next_at(s, '.', 0);
    let point = text::next_at(s, '.', 0);
    if point < s.len() {
        assert(s.contains(s[point]));
    }
    if tools::is_timestamp(s) {
        assert forall|i: int| 0 <= i < s.len() implies '0' <= #[trigger] s[i] <= '9' || s[i]
            == '.' by {
            if i < point {
                assert(text::is_digit(s.take(point)[i]));
            } else if i > point {
                assert(text::is_digit(s.skip(point + 1)[i - point - 1]));
            }
        }
    }
}

/// The query of a listing is its text, trimmed, where something is left and it is not too
/// long.
pub proof fn queries_are_trimmed(args: JsonView, query: Seq<char>)
    requires
        json::text_member(args, "query"@) == Some(query),
    ensures
        0 < text::utf8_units(text::trimmed(query)) <= 256 ==> tools::listing_query(args) == Some(
            text::trimmed(query),
        ),
        text::utf8_units(text::trimmed(query)) == 0 || text::utf8_units(text::trimmed(query)) > 256
            ==> tools::listing_query(args) is None,
{
}

/// A thought is shown below a heading, with a line for each sentence and each item.
pub proof fn thoughts_are_shown_line_by_line(s: Seq<char>)
    requires
        s.len() > 0,
        forall|i: int|
            0 <= i < s.len() ==> !text::is_white(#[trigger] s[i]) && s[i] != '.' && s[i] != '-',
        s.len() <= thinking::MAX_THINKING_CHARS,
    ensures
        thinking::displayed(s) == "🧠 Thinking:\n"@ + mrkdwn::rendered(s),
{
    reveal_strlit(". ");
    reveal_strlit(" - ");
    assert(text::no_white(s)) by {
        assert forall|i: int| 0 <= i < s.len() implies !text::is_white(#[trigger] s[i]) by {}
    }
    text::lemma_one_word(s);
    text_laws::joining_puts_separators_between(seq![s], seq![s], s, " "@);
    text_laws::ascii_white_space(' ');
    text::lemma_replaced_absent(s, ". "@, ".\n"@, 0);
    assert(s.skip(0) =~= s);
    assert forall|j: int| 0 <= j < s.len() implies s[j] != " - "@[0] by {
        assert(!text::is_white(s[j]));
    }
    text::lemma_replaced_absent(s, " - "@, "\n- "@, 0);
}

/// A thread is named under either of two names, of which the first counts; an id has at
/// most thirty-two letters and digits.
pub proof fn threads_have_two_names(args: JsonView, s: Seq<char>)
    ensures
        json::member(args, "threadTs"@) is None ==> tools::named_thread(args)
            == json::text_member(args, "thread_ts"@),
        json::member(args, "threadTs"@) is Some ==> tools::named_thread(args)
            == json::text_member(args, "threadTs"@),
        tools::is_id(s) <==> text::utf8_units(s) <= 32 && forall|i: int|
            0 <= i < s.len() ==> 'a' <= #[trigger] s[i] <= 'z' || 'A' <= s[i] <= 'Z' || '0' <= s[i]
                <= '9',
{
    if tools::is_id(s) {
        assert forall|i: int| 0 <= i < s.len() implies 'a' <= #[trigger] s[i] <= 'z' || 'A' <= s[i]
            <= 'Z' || '0' <= s[i] <= '9' by {
            assert(text::is_ascii_alnum(s[i]));
        }
    }
}

/// A sentence ends a line of a thought that is shown, and an item begins one.
pub proof fn sentences_and_items_have_their_lines(a: Seq<char>, b: Seq<char>)
    requires
        a.len() > 0 && b.len() > 0,
        forall|i: int|
            0 <= i < a.len() ==> !text::is_white(#[trigger] a[i]) && a[i] != '.' && a[i] != '-',
        forall|i: int|
            0 <= i < b.len() ==> !text::is_white(#[trigger] b[i]) && b[i] != '.' && b[i] != '-',
        a.len() + b.len() + 3 <= thinking::MAX_THINKING_CHARS,
    ensures
        thinking::displayed(a + seq!['.', ' '] + b) == "🧠 Thinking:\n"@ + mrkdwn::rendered(
            a + seq!['.', '\n'] + b,
        ),
        thinking::displayed(a + seq![' ', '-', ' '] + b) == "🧠 Thinking:\n"@ + mrkdwn::rendered(
            a + seq!['\n', '-', ' '] + b,
        ),
{
    reveal_strlit(". ");
    reveal_strlit(".\n");
    reveal_strlit(" - ");
    reveal_strlit("\n- ");
    reveal_strlit(" ");
    let dot = seq!['.', ' '];
    let item = seq![' ', '-', ' '];
    assert(". "@ =~= dot);
    assert(" - "@ =~= item);
    assert(".\n"@ =~= seq!['.', '\n']);
    assert("\n- "@ =~= seq!['\n', '-', ' ']);
    text_laws::ascii_white_space(' ');
    text_laws::ascii_white_space('.');
    text_laws::ascii_white_space('-');
    text_laws::ascii_white_space('\n');
    // A sentence.
    let s = a + dot + b;
    let first = a + seq!['.'];
    assert forall|i: int| 0 <= i < first.len() implies !text::is_white(#[trigger] first[i]) by {
        if i < a.len() {
            assert(first[i] == a[i]);
        }
    }
    lemma_two_words(first, b);
    assert(s =~= first + seq![' '] + b);
    lemma_found(a, dot, b, seq!['.', '\n']);
    let t = a + seq!['.', '\n'] + b;
    lemma_no_item(t);
    // An item.
    let u = a + item + b;
    lemma_three_words(a, seq!['-'], b);
    assert(u =~= a + seq![' '] + seq!['-'] + seq![' '] + b);
    assert forall|j: int| 0 <= j < u.len() implies u[j] != dot[0] by {
        if j < a.len() {
            assert(u[j] == a[j]);
        } else if j >= a.len() + 3 {
            assert(u[j] == b[j - a.len() - 3]);
        }
    }
    text::lemma_replaced_absent(u, dot, seq!['.', '\n'], 0);
    assert(u.skip(0) =~= u);
    lemma_found(a, item, b, seq!['\n', '-', ' ']);
}

proof fn lemma_two_words(a: Seq<char>, b: Seq<char>)
    requires
        a.len() > 0 && b.len() > 0,
        forall|i: int| 0 <= i < a.len() ==> !text::is_white(#[trigger] a[i]),
        forall|i: int| 0 <= i < b.len() ==> !text::is_white(#[trigger] b[i]),
    ensures
        text::collapsed(a + seq![' '] + b) == a + seq![' '] + b,
        text::words(a + seq![' '] + b) == seq![a, b],
{
    reveal_strlit(" ");
    assert(" "@ =~= seq![' ']);
    text::lemma_one_word(a);
    text::lemma_one_more_word(a, b);
    text_laws::joining_puts_separators_between(seq![a], seq![b], a, seq![' ']);
    text_laws::joining_puts_separators_between(seq![a], seq![b], b, seq![' ']);
    assert(seq![a].push(b) =~= seq![a, b]);
    assert(seq![a] + seq![b] =~= seq![a, b]);
}

proof fn lemma_three_words(a: Seq<char>, b: Seq<char>, c: Seq<char>)
    requires
        a.len() > 0 && b.len() > 0 && c.len() > 0,
        forall|i: int| 0 <= i < a.len() ==> !text::is_white(#[trigger] a[i]),
        forall|i: int| 0 <= i < b.len() ==> !text::is_white(#[trigger] b[i]),
        forall|i: int| 0 <= i < c.len() ==> !text::is_white(#[trigger] c[i]),
    ensures
        text::collapsed(a + seq![' '] + b + seq![' '] + c) == a + seq![' '] + b + seq![' '] + c,
{
    reveal_strlit(" ");
    assert(" "@ =~= seq![' ']);
    lemma_two_words(a, b);
    let ab = a + seq![' '] + b;
    text::lemma_one_more_word(ab, c);
    text_laws::joining_puts_separators_between(seq![a, b], seq![c], c, seq![' ']);
    text_laws::joining_puts_separators_between(seq![a], seq![b], a, seq![' ']);
    text_laws::joining_puts_separators_between(seq![a], seq![b], b, seq![' ']);
    assert(seq![a] + seq![b] =~= seq![a, b]);
    assert(seq![a, b].push(c) =~= seq![a, b] + seq![c]);
}

/// A pattern that stands once is replaced where it stands.
proof fn lemma_found(a: Seq<char>, pattern: Seq<char>, b: Seq<char>, with: Seq<char>)
    requires
        pattern.len() > 0,
        forall|i: int| 0 <= i < a.len() ==> #[trigger] a[i] != pattern[0],
        forall|i: int| 0 <= i < b.len() ==> #[trigger] b[i] != pattern[0],
    ensures
        text::replaced(a + pattern + b, pattern, with) == a + with + b,
{
    let s = a + pattern + b;
    assert forall|i: int| 0 <= i < a.len() implies !text_laws::stands_at(s, pattern, i) by {
        if text_laws::stands_at(s, pattern, i) {
            assert(s.subrange(i, i + pattern.len())[0] == pattern[0]);
            assert(s[i] == a[i]);
        }
    }
    text_laws::the_first_occurrence_is_replaced(a, pattern, b, with);
    text::lemma_replaced_absent(b, pattern, with, 0);
    assert(b.skip(0) =~= b);
}

proof fn lemma_no_item(t: Seq<char>)
    requires
        forall|i: int| 0 <= i < t.len() ==> #[trigger] t[i] != ' ',
    ensures
        text::replaced(t, seq![' ', '-', ' '], seq!['\n', '-', ' ']) == t,
{
    text::lemma_replaced_absent(t, seq![' ', '-', ' '], seq!['\n', '-', ' '], 0);
    assert(t.skip(0) =~= t);
}

/// A response that does not say whether it succeeded is told by the names of its members,
/// in order; one that is no JSON by its status, its type and its size.
pub proof fn other_responses_are_told_by_their_shape(
    status: u16,
    content_type: Seq<char>,
    bytes: u64,
    members: Seq<json::MemberView>,
)
    requires
        200 <= status < 300,
        json::member(JsonView::Object(members), "ok"@) is None,
    ensures
        api::response_fault(status, content_type, bytes, Some(JsonView::Object(members))) == Some(
            (
                "invalid_api_shape_fields_"@ + text::joined(
                    api::in_order(members.map_values(|m: json::MemberView| m.name)),
                    "_"@,
                ),
                false,
            ),
        ),
        api::response_fault(status, content_type, bytes, None) == Some(
            (
                "invalid_api_response_status_"@ + text::decimal(status as nat) + "_type_"@
                    + text::capped(api::sanitized(content_type), 40) + "_bytes_"@ + text::decimal(
                    bytes as nat,
                ),
                false,
            ),
        ),
{
    assert(api::member_names(members) =~= members.map_values(|m: json::MemberView| m.name));
}

/// An answer was shown recently where it is shown at all and that is less than the interval
/// ago.
pub proof fn answers_are_shown_at_intervals(a: live_answer::LiveView, shown: u64, now: u64)
    ensures
        a.last_update is None || a.messages.len() == 0 ==> !live_answer::shown_recently(a, now),
        a.messages.len() > 0 && a.last_update == Some(shown) && now < shown
            + live_answer::UPDATE_INTERVAL_MS ==> live_answer::shown_recently(a, now),
        a.last_update == Some(shown) && now >= shown + live_answer::UPDATE_INTERVAL_MS
            ==> !live_answer::shown_recently(a, now),
{
}

/// The bot token is that of the settings, under the first of its two names that is filled,
/// else that of the environment; the app token is that of the settings, else that of the
/// environment.
pub proof fn settings_count_before_the_environment(
    config: SlackConfig,
    env: Option<Seq<char>>,
    s: String,
)
    requires
        !text::is_blank(s@),
    ensures
        config.token == Some(s) ==> config.bot(env) == Some(s@),
        config.token is None && config.bot_token == Some(s) ==> config.bot(env) == Some(s@),
        config.token is None && config.bot_token is None ==> config.bot(env) == text::when_filled(
            env,
        ),
        config.app_token == Some(s) ==> config.app(env) == Some(s@),
        config.app_token is None ==> config.app(env) == text::when_filled(env),
{
}

/// A file is sent under a name that is neither empty nor too long and holds no separator of
/// paths.
pub proof fn files_are_sent_under_plain_names(name: Seq<char>)
    ensures
        api::is_upload_name(name) ==> name.len() > 0 && !name.contains('/') && !name.contains(
            '\\',
        ) && text::utf8_units(name) <= 255,
        name.len() > 0 && text::utf8_units(name) <= 255 && !name.contains('/') && !name.contains(
            '\\',
        ) ==> api::is_upload_name(name),
{
    if name.len() == 0 {
        assert(text::utf8_units(name) == 0);
    } else {
        text::lemma_units_bounds(name);
    }
}

/// A file that holds a numeral, white space around it or not, names the generation of that
/// number; where there is no file it is the first, and any other text names none.
pub proof fn files_name_generations_by_numerals(
    a: Seq<char>,
    n: nat,
    b: Seq<char>,
    other: Seq<char>,
)
    requires
        forall|j: int| 0 <= j < a.len() ==> text::is_white(#[trigger] a[j]),
        forall|j: int| 0 <= j < b.len() ==> text::is_white(#[trigger] b[j]),
        text::numeral(text::trimmed(other)) is None,
    ensures
        n <= u64::MAX ==> runtime::named_generation(Some(a + text::decimal(n) + b)) == Some(n),
        n > u64::MAX ==> runtime::named_generation(Some(a + text::decimal(n) + b)) is None,
        runtime::named_generation(Some(other)) is None,
        runtime::named_generation(None) == Some(0nat),
{
    text_laws::white_space_around_is_trimmed(a, text::decimal(n), b);
    text::lemma_numeral_of_decimal(n);
}

/// An error holds the fault's code in safe characters. It says when to try again where the
/// fault asks to wait, and only there.
pub proof fn errors_tell_of_the_fault(
    e: api::SlackError,
    code: Seq<char>,
    waits: bool,
    retry_after: Option<u64>,
)
    ensures
        !api::reports_fault(e, None, retry_after),
        api::reports_fault(e, Some((code, waits)), retry_after) ==> e.code@ == api::sanitized(code)
            && (waits ==> e.retry_after == retry_after) && (!waits ==> e.retry_after is None),
        e.code@ == api::sanitized(code) && e.retry_after == (if waits {
            retry_after
        } else {
            None
        }) ==> api::reports_fault(e, Some((code, waits)), retry_after),
{
}

/// A token begins with the mark of an app, a bot, a user or a session, and goes on with
/// letters, digits, dashes and underscores.
pub proof fn tokens_are_told_by_their_marks(a: Seq<char>, s: Seq<char>, c: char)
    ensures
        api::token_at(a + s, a.len() as int) <==> text::begins_with(s, "xapp-"@)
            || text::begins_with(s, "xoxa-"@)
            || text::begins_with(s, "xoxb-"@)
            || text::begins_with(s, "xoxo-"@)
            || text::begins_with(s, "xoxp-"@)
            || text::begins_with(s, "xoxr-"@)
            || text::begins_with(s, "xoxs-"@)
            || text::begins_with(s, "xoxc-"@),
        api::in_token(c) <==> 'a' <= c <= 'z' || 'A' <= c <= 'Z' || '0' <= c <= '9' || c == '-' || c
            == '_',
{
    reveal_strlit("xapp-");
    reveal_strlit("xoxa-");
    reveal_strlit("xoxb-");
    reveal_strlit("xoxo-");
    reveal_strlit("xoxp-");
    reveal_strlit("xoxr-");
    reveal_strlit("xoxs-");
    reveal_strlit("xoxc-");
    let n = a.len() as int;
    if s.len() >= 5 {
        let t = s.take(5);
        assert((a + s)[n] == t[0] && (a + s)[n + 1] == t[1] && (a + s)[n + 2] == t[2] && (a + s)[n
            + 3] == t[3] && (a + s)[n + 4] == t[4]);
        assert(t[0] == 'x' && t[1] == 'a' && t[2] == 'p' && t[3] == 'p' && t[4] == '-'
            ==> t =~= "xapp-"@);
        assert(t[0] == 'x' && t[1] == 'o' && t[2] == 'x' && t[3] == 'a' && t[4] == '-'
            ==> t =~= "xoxa-"@);
        assert(t[0] == 'x' && t[1] == 'o' && t[2] == 'x' && t[3] == 'b' && t[4] == '-'
            ==> t =~= "xoxb-"@);
        assert(t[0] == 'x' && t[1] == 'o' && t[2] == 'x' && t[3] == 'o' && t[4] == '-'
            ==> t =~= "xoxo-"@);
        assert(t[0] == 'x' && t[1] == 'o' && t[2] == 'x' && t[3] == 'p' && t[4] == '-'
            ==> t =~= "xoxp-"@);
        assert(t[0] == 'x' && t[1] == 'o' && t[2] == 'x' && t[3] == 'r' && t[4] == '-'
            ==> t =~= "xoxr-"@);
        assert(t[0] == 'x' && t[1] == 'o' && t[2] == 'x' && t[3] == 's' && t[4] == '-'
            ==> t =~= "xoxs-"@);
        assert(t[0] == 'x' && t[1] == 'o' && t[2] == 'x' && t[3] == 'c' && t[4] == '-'
            ==> t =~= "xoxc-"@);
    }
}

} // verus!
