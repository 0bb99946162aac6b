//! What holds of how messages reach the bot on Discord, and of what it finds there.

use crate::discord::addressing;
use crate::discord::addressing::MessageView;
use crate::discord::config::{DiscordConfig, GuildConfig};
use crate::discord::runtime;
use crate::discord::session;
use crate::discord::tools;
use crate::json;
use crate::json::JsonView;
use crate::text;
use crate::text_laws;
use vstd::prelude::*;

verus! {

// ---- Mentions ---------------------------------------------------------------

proof fn lemma_match(s: Seq<char>, pattern: Seq<char>, i: int, at: int)
    requires
        0 <= i <= at < s.len(),
        text_laws::stands_at(s, pattern, at),
    ensures
        text::next_match(s, pattern, i) < s.len(),
    decreases at - i,
{
    text_laws::lemma_stands(s, pattern, i);
    text_laws::lemma_stands(s, pattern, at);
    if !text::begins_with(s.skip(i), pattern) {
        lemma_match(s, pattern, i + 1, at);
    }
}

proof fn lemma_no_match(s: Seq<char>, pattern: Seq<char>, i: int)
    requires
        0 <= i <= s.len(),
        pattern.len() > 0,
        !s.contains(pattern[0]),
    ensures
        text::next_match(s, pattern, i) == s.len(),
    decreases s.len() - i,
{
    if i < s.len() {
        if text::begins_with(s.skip(i), pattern) {
            assert(s.skip(i).take(pattern.len() as int)[0] == pattern[0]);
            assert(s.contains(s[i]));
        }
        lemma_no_match(s, pattern, i + 1);
    }
}

proof fn lemma_forms(id: Seq<char>)
    ensures
        addressing::mention(id) == seq!['<', '@'] + id + seq!['>'],
        addressing::nick_mention(id) == seq!['<', '@', '!'] + id + seq!['>'],
{
    reveal_strlit("<@");
    reveal_strlit("<@!");
    reveal_strlit(">");
    assert("<@"@ =~= seq!['<', '@']);
    assert("<@!"@ =~= seq!['<', '@', '!']);
    assert(">"@ =~= seq!['>']);
}

proof fn lemma_taken_out(a: Seq<char>, pattern: Seq<char>, b: Seq<char>)
    requires
        !a.contains('<'),
        !b.contains('<'),
        pattern.len() > 0 && pattern[0] == '<',
    ensures
        text::replaced(a + pattern + b, pattern, Seq::empty()) == a + b,
        text_laws::stands_at(a + pattern + b, pattern, a.len() as int),
{
    let s = a + pattern + b;
    assert forall|i: int| 0 <= i < a.len() implies !text_laws::stands_at(s, pattern, i) by {
        if text_laws::stands_at(s, pattern, i) {
            assert(s.subrange(i, i + pattern.len())[0] == pattern[0]);
            assert(s[i] == a[i]);
            assert(a.contains(a[i]));
        }
    }
    text_laws::the_first_occurrence_is_replaced(a, pattern, b, Seq::empty());
    lemma_stays(b, pattern);
    assert(a + Seq::<char>::empty() + b =~= a + b);
    assert(s.subrange(a.len() as int, (a.len() + pattern.len()) as int) =~= pattern);
}

proof fn lemma_stays(s: Seq<char>, pattern: Seq<char>)
    requires
        !s.contains('<'),
        pattern.len() > 0 && pattern[0] == '<',
    ensures
        text::replaced(s, pattern, Seq::empty()) == s,
{
    assert forall|i: int| 0 <= i < s.len() implies !text_laws::stands_at(s, pattern, i) by {
        if text_laws::stands_at(s, pattern, i) {
            assert(s.subrange(i, i + pattern.len())[0] == pattern[0]);
            assert(s.contains(s[i]));
        }
    }
    text_laws::text_without_the_pattern_stays(s, pattern, Seq::empty());
}

/// A text mentions the bot in either form of a mention, and the request is the text
/// around it. A text without an angle bracket mentions nobody, and is a request as it is.
pub proof fn mentions_are_taken_out(a: Seq<char>, id: Seq<char>, b: Seq<char>)
    requires
        !a.contains('<'),
        !b.contains('<'),
        id.len() > 0 && id[0] != '!' && !id.contains('<'),
    ensures
        addressing::is_mentioned(a + seq!['<', '@'] + id + seq!['>'] + b, Some(id)),
        addressing::is_mentioned(a + seq!['<', '@', '!'] + id + seq!['>'] + b, Some(id)),
        addressing::stripped(a + seq!['<', '@'] + id + seq!['>'] + b, Some(id)) == text::trimmed(
            a + b,
        ),
        addressing::stripped(a + seq!['<', '@', '!'] + id + seq!['>'] + b, Some(id))
            == text::trimmed(a + b),
        !addressing::is_mentioned(a, Some(id)),
        addressing::stripped(a, Some(id)) == text::trimmed(a),
        addressing::stripped(a, None) == text::trimmed(a),
{
    lemma_forms(id);
    let plain = addressing::mention(id);
    let nick = addressing::nick_mention(id);
    let s = a + plain + b;
    let t = a + nick + b;
    assert(a + seq!['<', '@'] + id + seq!['>'] + b =~= s);
    assert(a + seq!['<', '@', '!'] + id + seq!['>'] + b =~= t);
    assert(plain[0] == '<' && nick[0] == '<');
    lemma_taken_out(a, plain, b);
    lemma_taken_out(a, nick, b);
    lemma_match(s, plain, 0, a.len() as int);
    let both = a + b;
    assert(!both.contains('<')) by {
        assert forall|i: int| 0 <= i < both.len() implies both[i] != '<' by {
            if i < a.len() {
                assert(a.contains(a[i]));
            } else {
                assert(b.contains(b[i - a.len()]));
            }
        }
    }
    lemma_stays(both, nick);
    lemma_plain_is_absent(a, id, b);
    text_laws::text_without_the_pattern_stays(t, plain, Seq::empty());
    lemma_match(t, nick, 0, a.len() as int);
    lemma_no_match(a, plain, 0);
    lemma_stays(a, plain);
    lemma_stays(a, nick);
    lemma_no_match(a, nick, 0);
}

/// The one form of a mention does not stand in the other.
proof fn lemma_plain_is_absent(a: Seq<char>, id: Seq<char>, b: Seq<char>)
    requires
        !a.contains('<'),
        !b.contains('<'),
        id.len() > 0 && id[0] != '!' && !id.contains('<'),
    ensures
        forall|i: int|
            0 <= i < (a + addressing::nick_mention(id) + b).len() ==> !text_laws::stands_at(
                a + addressing::nick_mention(id) + b,
                addressing::mention(id),
                i,
            ),
{
    lemma_forms(id);
    let plain = addressing::mention(id);
    let nick = addressing::nick_mention(id);
    let t = a + nick + b;
    let n = a.len() as int;
    assert forall|i: int| 0 <= i < t.len() implies !text_laws::stands_at(t, plain, i) by {
        if text_laws::stands_at(t, plain, i) {
            let part = t.subrange(i, i + plain.len());
            assert(part[0] == '<' && part[2] == id[0]);
            assert(t[i] == '<' && t[i + 2] == id[0]);
            if i < n {
                assert(a.contains(a[i]));
            } else if i == n {
                assert(t[i + 2] == '!');
            } else if i < n + nick.len() {
                assert(t[i] == nick[i - n]);
                if 3 <= i - n < 3 + id.len() {
                    assert(nick[i - n] == id[i - n - 3]);
                    assert(id.contains(id[i - n - 3]));
                }
            } else {
                assert(t[i] == b[i - n - nick.len()]);
                assert(b.contains(b[i - n - nick.len()]));
            }
        }
    }
}

// ---- Routing ----------------------------------------------------------------

/// A person whom neither list leaves out is answered in an enabled channel of an enabled
/// guild, where the message is for the bot: with the text without mentions, in the session
/// of the channel, or of the thread.
pub proof fn listed_channels_are_answered(
    config: DiscordConfig,
    bot: Option<Seq<char>>,
    m: MessageView,
    guild_id: Seq<char>,
    home: Seq<char>,
)
    requires
        m.guild_id == Some(guild_id),
        home == match m.parent_channel_id {
            Some(parent) => parent,
            None => m.channel_id,
        },
        !m.author_is_bot && !m.from_webhook && m.channel_id.len() > 0 && m.author_id.len() > 0,
        config.guilds@.contains_key(guild_id),
        config.guilds@[guild_id].enabled,
        config.guilds@[guild_id].channels@.contains_key(home),
        config.guilds@[guild_id].channels@[home].enabled,
        ({
            let users = text::views(config.guilds@[guild_id].users@);
            users.len() == 0 || users.contains(m.author_id)
        }),
        ({
            let users = text::views(config.guilds@[guild_id].channels@[home].users@);
            users.len() == 0 || users.contains(m.author_id)
        }),
        !config.guilds@[guild_id].channels@[home].require_mention || m.thread_engaged
            || addressing::is_mentioned(m.text, bot) || (m.has_attachments && text::is_blank(
            m.text,
        )),
    ensures
        addressing::routed(config, bot, m) == Some(
            (
                addressing::stripped(m.text, bot),
                match m.parent_channel_id {
                    Some(_) => "guild:"@ + guild_id + ":thread:"@ + m.channel_id,
                    None => "guild:"@ + guild_id + ":channel:"@ + m.channel_id,
                },
            ),
        ),
{
}

/// Where a mention is asked for, a message that has none is ignored, unless the bot is in
/// the conversation of its thread, or it brings nothing but files. A guild or a channel
/// that is not enabled is never answered.
pub proof fn other_messages_are_ignored(
    config: DiscordConfig,
    bot: Option<Seq<char>>,
    m: MessageView,
    guild_id: Seq<char>,
    home: Seq<char>,
)
    requires
        m.guild_id == Some(guild_id),
        home == match m.parent_channel_id {
            Some(parent) => parent,
            None => m.channel_id,
        },
        !config.guilds@[guild_id].enabled || !config.guilds@[guild_id].channels@[home].enabled || (
        config.guilds@[guild_id].channels@[home].require_mention && !m.thread_engaged
            && !addressing::is_mentioned(m.text, bot) && !(m.has_attachments && text::is_blank(
            m.text,
        ))),
    ensures
        addressing::routed(config, bot, m) is None,
{
}

// ---- Threads ----------------------------------------------------------------

/// Whether a thread is told of with its id and its channel.
pub open spec fn tells_of(thread: JsonView, id: Seq<char>) -> bool {
    json::text_member(thread, "id"@) == Some(id) && json::text_member(thread, "parent_id"@) is Some
}

/// Of every thread that is told of the channel is known afterwards, as it was told last;
/// of other threads what was known stays.
pub proof fn every_thread_is_known(
    all: Map<Seq<char>, Seq<char>>,
    threads: Seq<JsonView>,
    id: Seq<char>,
)
    ensures
        ({
            let told = threads.filter(|t: JsonView| tells_of(t, id));
            let after = runtime::with_threads(all, threads);
            &&& told.len() == 0 ==> after.contains_key(id) == all.contains_key(id) && after[id]
                == all[id]
            &&& told.len() > 0 ==> after.contains_key(id) && Some(after[id]) == json::text_member(
                told.last(),
                "parent_id"@,
            )
        }),
    decreases threads.len(),
{
    reveal(Seq::filter);
    if threads.len() > 0 {
        every_thread_is_known(all, threads.drop_last(), id);
        let last = threads.last();
        assert(tells_of(last, id) ==> threads.filter(|t: JsonView| tells_of(t, id)).last() == last);
    }
}

// ---- Sessions ---------------------------------------------------------------

/// The generation that is begun is the first from a number on that does not exist yet;
/// there is none only where all of them do.
pub proof fn the_first_free_number_is_taken(n: int, existing: Seq<u64>)
    requires
        0 <= n,
    ensures
        match session::first_free(n, existing) {
            Some(m) => {
                &&& n <= m <= u64::MAX
                &&& !existing.contains(m as u64)
                &&& forall|k: int| n <= k < m ==> existing.contains(#[trigger] (k as u64))
            },
            None => forall|k: int|
                n <= k <= u64::MAX ==> existing.contains(#[trigger] (k as u64)),
        },
    decreases u64::MAX + 1 - n,
{
    if n <= u64::MAX && existing.contains(n as u64) {
        the_first_free_number_is_taken(n + 1, existing);
    }
}

/// The first line that is not blank is found, wherever it stands.
pub proof fn the_first_filled_line_is_found(list: Seq<Seq<char>>)
    ensures
        ({
            let filled = list.filter(|line: Seq<char>| !text::is_blank(line));
            session::first_filled(list, 0) == if filled.len() == 0 {
                None::<Seq<char>>
            } else {
                Some(filled[0])
            }
        }),
{
    lemma_first_filled(list, 0);
    assert(list.skip(0) =~= list);
}

proof fn lemma_first_filled(list: Seq<Seq<char>>, k: int)
    requires
        0 <= k <= list.len(),
    ensures
        ({
            let filled = list.skip(k).filter(|line: Seq<char>| !text::is_blank(line));
            session::first_filled(list, k) == if filled.len() == 0 {
                None::<Seq<char>>
            } else {
                Some(filled[0])
            }
        }),
    decreases list.len() - k,
{
    let is_filled = |line: Seq<char>| !text::is_blank(line);
    reveal(Seq::filter);
    if k < list.len() {
        lemma_first_filled(list, k + 1);
        let one = seq![list[k]];
        let rest = list.skip(k + 1);
        assert(list.skip(k) =~= one + rest);
        Seq::filter_distributes_over_add(one, rest, is_filled);
        reveal_with_fuel(Seq::filter, 2);
        assert(one.drop_last() =~= Seq::<Seq<char>>::empty());
        if is_filled(list[k]) {
            assert(one.filter(is_filled) =~= one);
            assert(list.skip(k).filter(is_filled)[0] == list[k]);
        } else {
            assert(one.filter(is_filled) =~= Seq::<Seq<char>>::empty());
            assert(list.skip(k).filter(is_filled) =~= rest.filter(is_filled));
        }
    } else {
        assert(list.skip(k) =~= Seq::<Seq<char>>::empty());
    }
}

// ---- Names ------------------------------------------------------------------

/// Every listed channel of a guild that has the name is found, in order, and no other.
pub proof fn every_channel_of_the_name_is_found(
    guild: GuildConfig,
    channels: Seq<JsonView>,
    name: Seq<char>,
)
    ensures
        tools::named_channels(guild, channels, name) == channels.filter(
            |c: JsonView|
                json::text_member(c, "name"@) == Some(name) && json::text_member(c, "id"@) is Some
                    && guild.channels@.contains_key(json::text_member(c, "id"@)->0),
        ).map_values(|c: JsonView| json::text_member(c, "id"@)->0),
    decreases channels.len(),
{
    reveal(Seq::filter);
    let found = |c: JsonView|
        json::text_member(c, "name"@) == Some(name) && json::text_member(c, "id"@) is Some
            && guild.channels@.contains_key(json::text_member(c, "id"@)->0);
    let id = |c: JsonView| json::text_member(c, "id"@)->0;
    if channels.len() > 0 {
        let front = channels.drop_last();
        every_channel_of_the_name_is_found(guild, front, name);
        if found(channels.last()) {
            assert(front.filter(found).push(channels.last()).map_values(id) =~= front.filter(
                found,
            ).map_values(id).push(id(channels.last())));
        }
    } else {
        assert(tools::named_channels(guild, channels, name) =~= channels.filter(found).map_values(
            id,
        ));
    }
}

} // verus!
