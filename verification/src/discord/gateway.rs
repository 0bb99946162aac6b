//! What holds of all that the gateway sends, and of what the bot is asked for.

use crate::discord::attachments;
use crate::discord::commands;
use crate::discord::commands::Command;
use crate::discord::live_answer;
use crate::discord::runtime;
use crate::discord::runtime::{LinkStep, LinkView};
use crate::discord::session;
use crate::discord::tools;
use crate::discord::tools::{SendError, TargetView};
use crate::json;
use crate::json::JsonView;
use crate::paths;
use crate::text;
use crate::text_laws;
use vstd::prelude::*;

verus! {

// ---- The connection ---------------------------------------------------------

/// A connection begins with a greeting that tells the time between heartbeats: with it the
/// bot identifies itself, and without it nothing begins.
pub proof fn connections_begin_with_a_greeting(
    link: LinkView,
    threads: Map<Seq<char>, Seq<char>>,
    value: JsonView,
)
    requires
        !link.greeted,
    ensures
        ({
            let told = json::inner_member(value, "d"@, "heartbeat_interval"@);
            let (step, after, known) = runtime::link_step(link, threads, value);
            &&& known == threads
            &&& after.sequence == link.sequence && after.bot_user_id == link.bot_user_id
            &&& told matches Some(JsonView::Unsigned(n)) ==> step == LinkStep::Identify {
                interval: n,
            } && after.greeted
            &&& !(told is Some && told->0 is Unsigned) ==> step == LinkStep::NoGreeting
                && !after.greeted
        }),
{
}

/// After the greeting a request to reconnect is followed, and changes nothing. Any other
/// event is taken note of, and the one of a new message is worked on.
pub proof fn events_follow_the_greeting(
    link: LinkView,
    threads: Map<Seq<char>, Seq<char>>,
    value: JsonView,
)
    requires
        link.greeted,
    ensures
        ({
            let op = json::member(value, "op"@);
            let kind = json::text_member(value, "t"@);
            let number = json::integer_of(json::member(value, "s"@));
            let asks = op == Some(JsonView::Unsigned(7)) || op == Some(JsonView::Unsigned(9));
            let (step, after, known) = runtime::link_step(link, threads, value);
            &&& after.greeted
            &&& asks ==> step == LinkStep::Reconnect && after == link && known == threads
            &&& !asks ==> {
                &&& step == LinkStep::Message <==> kind == Some("MESSAGE_CREATE"@)
                &&& step == LinkStep::Message || step == LinkStep::Nothing
                &&& number is None ==> after.sequence == link.sequence
                &&& number is Some ==> after.sequence == Some(number->0 as i64)
                &&& kind == Some("READY"@) ==> after.bot_user_id == json::text_of(
                    json::inner_member(runtime::event_data(value), "user"@, "id"@),
                )
                &&& kind != Some("READY"@) ==> after.bot_user_id == link.bot_user_id
                &&& json::member(value, "d"@) matches Some(data) ==> known
                    == runtime::threads_after(threads, kind, data)
            }
        }),
{
}

/// An event of a thread makes it known or forgotten, an event that lists threads makes all
/// of them known, and no other event changes what is known.
pub proof fn threads_are_known_as_events_tell(
    all: Map<Seq<char>, Seq<char>>,
    data: JsonView,
    kind: Seq<char>,
    id: Seq<char>,
    parent: Seq<char>,
)
    requires
        json::text_member(data, "id"@) == Some(id),
        json::text_member(data, "parent_id"@) == Some(parent),
    ensures
        runtime::threads_after(all, Some("THREAD_CREATE"@), data) == all.insert(id, parent),
        runtime::threads_after(all, Some("THREAD_UPDATE"@), data) == all.insert(id, parent),
        runtime::threads_after(all, Some("THREAD_DELETE"@), data) == all.remove(id),
        kind == "THREAD_LIST_SYNC"@ || kind == "GUILD_CREATE"@ ==> runtime::threads_after(
            all,
            Some(kind),
            data,
        ) == runtime::with_threads(all, json::elements_of(json::member(data, "threads"@))),
        kind != "THREAD_LIST_SYNC"@ && kind != "GUILD_CREATE"@ && kind != "THREAD_CREATE"@ && kind
            != "THREAD_UPDATE"@ && kind != "THREAD_DELETE"@ ==> runtime::threads_after(
            all,
            Some(kind),
            data,
        ) == all,
        runtime::threads_after(all, None, data) == all,
{
    reveal_strlit("THREAD_CREATE");
    reveal_strlit("THREAD_UPDATE");
    reveal_strlit("THREAD_DELETE");
    reveal_strlit("THREAD_LIST_SYNC");
    reveal_strlit("GUILD_CREATE");
    assert("THREAD_CREATE"@[7] == 'C' && "THREAD_UPDATE"@[7] == 'U' && "THREAD_DELETE"@[7] == 'D'
        && "THREAD_LIST_SYNC"@[7] == 'L' && "GUILD_CREATE"@[7] == 'R');
    assert("GUILD_CREATE"@[0] == 'G' && "THREAD_CREATE"@[0] == 'T');
}

/// All that a message says is read: its id, its place, its author and what it holds; where
/// it leaves its text out there is none, and a thread is known by its channel.
pub proof fn messages_are_read_as_they_are(
    all: Map<Seq<char>, Seq<char>>,
    message: JsonView,
    channel: Seq<char>,
)
    requires
        json::text_member(message, "channel_id"@) == Some(channel),
    ensures
        ({
            let m = runtime::read(all, message);
            let author = json::text_of(json::inner_member(message, "author"@, "id"@));
            &&& m.id == json::text_member(message, "id"@)
            &&& m.guild_id == json::text_member(message, "guild_id"@)
            &&& m.channel_id == channel
            &&& all.contains_key(channel) ==> m.parent_channel_id == Some(all[channel])
            &&& !all.contains_key(channel) ==> m.parent_channel_id is None
            &&& author is Some ==> m.author_id == author->0
            &&& author is None ==> m.author_id.len() == 0
            &&& m.author_is_bot <==> json::inner_member(message, "author"@, "bot"@) == Some(
                JsonView::Bool(true),
            )
            &&& m.webhook_id == json::text_member(message, "webhook_id"@)
            &&& json::text_member(message, "content"@) matches Some(said) ==> m.content == said
            &&& json::text_member(message, "content"@) is None ==> m.content.len() == 0
            &&& m.attachments == attachments::described(
                json::elements_of(json::member(message, "attachments"@)),
            )
        }),
{
}

/// A message is routed with all that was read of it. What is asked is the text of a direct
/// message as it came, and of another what routing leaves of it.
pub proof fn messages_are_routed_as_they_are_read(
    m: runtime::IncomingView,
    engaged: bool,
    routed: Seq<char>,
)
    ensures
        ({
            let r = runtime::as_routed(m, engaged);
            &&& r.guild_id == m.guild_id && r.channel_id == m.channel_id
            &&& r.parent_channel_id == m.parent_channel_id && r.thread_engaged == engaged
            &&& r.author_id == m.author_id && r.author_is_bot == m.author_is_bot
            &&& r.from_webhook <==> m.webhook_id is Some
            &&& r.text == m.content
            &&& r.has_attachments <==> m.attachments.len() > 0
        }),
        m.guild_id is None ==> runtime::request_of(m, routed) == m.content,
        m.guild_id is Some ==> runtime::request_of(m, routed) == routed,
{
}

// ---- Commands ---------------------------------------------------------------

/// A message is a command exactly where it is one of four words, whatever white space
/// stands around it: two of them begin a new session, two stop the turn.
pub proof fn commands_stand_alone(blank: Seq<char>, s: Seq<char>)
    requires
        forall|j: int| 0 <= j < blank.len() ==> text::is_white(#[trigger] blank[j]),
    ensures
        commands::given_command(blank + "/reset"@ + blank) == Some(Command::Reset),
        commands::given_command(blank + "/new"@ + blank) == Some(Command::Reset),
        commands::given_command(blank + "/abort"@ + blank) == Some(Command::Abort),
        commands::given_command(blank + "/stop"@ + blank) == Some(Command::Abort),
        commands::given_command(s) is Some <==> text::trimmed(s) == "/reset"@ || text::trimmed(s)
            == "/new"@ || text::trimmed(s) == "/abort"@ || text::trimmed(s) == "/stop"@,
{
    reveal_strlit("/reset");
    reveal_strlit("/new");
    reveal_strlit("/abort");
    reveal_strlit("/stop");
    lemma_word(blank, "/reset"@);
    lemma_word(blank, "/new"@);
    lemma_word(blank, "/abort"@);
    lemma_word(blank, "/stop"@);
    assert("/reset"@[1] == 'r' && "/new"@[1] == 'n' && "/abort"@[1] == 'a' && "/stop"@[1] == 's');
}

proof fn lemma_word(blank: Seq<char>, word: Seq<char>)
    requires
        forall|j: int| 0 <= j < blank.len() ==> text::is_white(#[trigger] blank[j]),
        word.len() > 0,
        '!' <= word[0] <= '~',
        '!' <= word.last() <= '~',
    ensures
        text::trimmed(blank + word + blank) == word,
{
    text_laws::ascii_white_space(word[0]);
    text_laws::ascii_white_space(word.last());
    text_laws::trimmed_text_stays(word);
    text_laws::white_space_around_is_trimmed(blank, word, blank);
}

// ---- Requests to send -------------------------------------------------------

/// The text of a field that is not blank.
pub open spec fn is_given(args: JsonView, name: Seq<char>) -> bool {
    json::text_member(args, name) is Some && text::trimmed(json::text_member(args, name)->0).len()
        > 0
}

/// A request to send is met exactly where it has a text that is not blank and not too long,
/// and names either a channel or a user, the user by digits; then the text and the target
/// are those of the request, trimmed. Each other request is refused for its first fault.
pub proof fn requests_name_one_target(args: JsonView)
    ensures
        ({
            let said = text::trimmed(json::text_member(args, "text"@)->0);
            let channel = text::trimmed(json::text_member(args, "channel"@)->0);
            let user = text::trimmed(json::text_member(args, "user"@)->0);
            let to_channel = is_given(args, "channel"@);
            let to_user = is_given(args, "user"@);
            let digits = user.len() <= 20 && forall|i: int|
                0 <= i < user.len() ==> '0' <= #[trigger] user[i] <= '9';
            let sound = is_given(args, "text"@) && said.len() <= tools::MAX_TEXT;
            &&& !sound <==> tools::requested(args) == Err::<(Seq<char>, TargetView), SendError>(
                SendError::InvalidText,
            )
            &&& sound && to_channel == to_user <==> tools::requested(args) == Err::<
                (Seq<char>, TargetView),
                SendError,
            >(SendError::NoSingleTarget)
            &&& sound && to_channel && !to_user ==> tools::requested(args) == Ok::<
                (Seq<char>, TargetView),
                SendError,
            >((said, TargetView::Channel(channel)))
            &&& sound && to_user && !to_channel && digits ==> tools::requested(args) == Ok::<
                (Seq<char>, TargetView),
                SendError,
            >((said, TargetView::User(user)))
            &&& sound && to_user && !to_channel && !digits <==> tools::requested(args) == Err::<
                (Seq<char>, TargetView),
                SendError,
            >(SendError::InvalidUser)
        }),
{
    let user = text::trimmed(json::text_member(args, "user"@)->0);
    assert(text::digits_only(user) <==> forall|i: int|
        0 <= i < user.len() ==> '0' <= #[trigger] user[i] <= '9') by {
        if text::digits_only(user) {
            assert forall|i: int| 0 <= i < user.len() implies '0' <= #[trigger] user[i] <= '9' by {
                assert(text::is_digit(user[i]));
            }
        }
    }
}

/// A channel is named with or without hash signs before its name.
pub proof fn hash_signs_before_a_name_are_dropped(hashes: Seq<char>, name: Seq<char>)
    requires
        forall|j: int| 0 <= j < hashes.len() ==> #[trigger] hashes[j] == '#',
        name.len() > 0 ==> name[0] != '#',
    ensures
        tools::unhashed(hashes + name) == name,
{
    let s = hashes + name;
    let n = hashes.len() as int;
    assert forall|j: int| 0 <= j < n implies s[j] == '#' by {
        assert(s[j] == hashes[j]);
    }
    if n < s.len() {
        assert(s[n] == name[0]);
    }
    text_laws::lemma_run_is(s, '#', 0, n);
    assert(s.skip(n) =~= name);
}

/// Files are fetched from Discord's own hosts alone, and over a secure connection.
pub proof fn files_come_from_discord(scheme: Seq<char>, host: Seq<char>)
    ensures
        attachments::is_discord_address(("https"@, Some("cdn.discordapp.com"@))),
        attachments::is_discord_address(("https"@, Some("media.discordapp.net"@))),
        scheme != "https"@ ==> !attachments::is_discord_address((scheme, Some(host))),
        host != "cdn.discordapp.com"@ && host != "media.discordapp.net"@
            ==> !attachments::is_discord_address((scheme, Some(host))),
        !attachments::is_discord_address((scheme, None)),
{
}

// ---- Keys -------------------------------------------------------------------

/// The history of a channel is that of all who write there, and the history of direct
/// messages is that of the one who writes.
pub proof fn histories_follow_the_conversation(
    guild: Seq<char>,
    channel: Seq<char>,
    other: Seq<char>,
    a: Option<Seq<char>>,
    b: Option<Seq<char>>,
    author: Seq<char>,
)
    ensures
        session::history_key_text(Some(guild), channel, a) == session::history_key_text(
            Some(guild),
            channel,
            b,
        ),
        session::history_key_text(Some(guild), channel, a) == "guild:"@ + guild + ":channel:"@
            + channel,
        session::history_key_text(None, channel, Some(author)) == session::history_key_text(
            None,
            other,
            Some(author),
        ),
        session::history_key_text(None, channel, Some(author)) == "dm:"@ + author,
{
}

/// A file holds a session where its name has the extension of one after something else;
/// the session is the one whose id the file tells, where that is a text that is not empty.
pub proof fn session_files_have_their_extension(
    stem: Seq<char>,
    members: Seq<(Seq<char>, json::ScalarView)>,
    id: Seq<char>,
)
    ensures
        stem.len() > 0 ==> session::is_session_file(stem + ".jsonl"@),
        !session::is_session_file(".jsonl"@),
        json::scalar_under(members, "id"@) == Some(json::ScalarView::Text(id)) && id.len() > 0
            ==> session::member_id(Some(members)) == Some(id),
        json::scalar_under(members, "id"@) == Some(json::ScalarView::Text(id)) && id.len() == 0
            ==> session::member_id(Some(members)) is None,
        json::scalar_under(members, "id"@) is None ==> session::member_id(Some(members)) is None,
        session::member_id(None) is None,
{
    let name = stem + ".jsonl"@;
    assert(name.skip(stem.len() as int) =~= ".jsonl"@);
}

/// A message that began a thread makes it known. A generation has a directory of its own,
/// by its number, below that of its session, which is used where there is none.
pub proof fn messages_tell_of_their_thread(
    all: Map<Seq<char>, Seq<char>>,
    message: JsonView,
    thread: JsonView,
    id: Seq<char>,
    parent: Seq<char>,
    base: Seq<char>,
    n: u64,
)
    requires
        json::text_member(thread, "id"@) == Some(id),
        json::text_member(thread, "parent_id"@) == Some(parent),
    ensures
        json::member(message, "thread"@) == Some(thread) ==> runtime::threads_of(all, message)
            == all.insert(id, parent),
        json::member(message, "thread"@) is None ==> runtime::threads_of(all, message) == all,
        session::generation_directory(base, None) == base,
        session::generation_directory(base, Some(n)) == paths::joined(base, text::decimal(n as nat)),
{
}

/// An answer was shown recently where that is less than the interval ago.
pub proof fn answers_are_shown_at_intervals(a: live_answer::LiveView, shown: u64, now: u64)
    ensures
        a.last is None ==> !live_answer::shown_recently(a, now),
        a.last == Some(shown) && now < shown + live_answer::UPDATE_INTERVAL_MS
            ==> live_answer::shown_recently(a, now),
        a.last == Some(shown) && now >= shown + live_answer::UPDATE_INTERVAL_MS
            ==> !live_answer::shown_recently(a, now),
{
}

/// A file that holds a numeral, white space around it or not, names the generation of that
/// number; where there is no file the number is zero, and any other text names none.
pub proof fn stored_numbers_are_numerals(
    a: Seq<char>,
    n: nat,
    b: Seq<char>,
    other: Seq<char>,
    s: session::StateView,
)
    requires
        forall|j: int| 0 <= j < a.len() ==> text::is_white(#[trigger] a[j]),
        forall|j: int| 0 <= j < b.len() ==> text::is_white(#[trigger] b[j]),
        text::numeral(text::trimmed(other)) is None,
    ensures
        n <= u64::MAX ==> session::stored_number(a + text::decimal(n) + b) == Some(n),
        n > u64::MAX ==> session::stored_number(a + text::decimal(n) + b) is None,
        session::stored_number(other) is None,
        s.current is None ==> session::current_number(s) == Some(0nat),
        s.current == Some(a + text::decimal(n) + b) && n <= u64::MAX ==> session::current_number(s)
            == Some(n),
{
    text_laws::white_space_around_is_trimmed(a, text::decimal(n), b);
    text::lemma_numeral_of_decimal(n);
}

} // verus!
