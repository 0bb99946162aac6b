//! Which messages share a session, and where it is kept.

use crate::encoding;
use crate::paths;
use crate::slack::addressing::{ConversationKind, InboundMessage};
use crate::text;
use vstd::prelude::*;
use vstd::string::*;
use vstd::utf8::*;

verus! {

/// The key of a conversation.
#[derive(Clone, Debug, PartialEq, Eq)]
pub struct ConversationKey {
    text: String,
}

impl View for ConversationKey {
    type V = Seq<char>;

    closed spec fn view(&self) -> Seq<char> {
        self.text@
    }
}

/// The part of a key that names a thread, or the conversation itself.
pub open spec fn place(thread_ts: Option<Seq<char>>) -> Seq<char> {
    match thread_ts {
        Some(ts) => "thread:"@ + ts,
        None => "root"@,
    }
}

/// The key of a conversation in a workspace: with a user, or in a channel, and in a
/// thread or not.
pub open spec fn key_text(
    team: Seq<char>,
    kind: ConversationKind,
    sender: Seq<char>,
    channel: Seq<char>,
    thread_ts: Option<Seq<char>>,
) -> Seq<char> {
    match kind {
        ConversationKind::DirectMessage => "workspace:"@ + team + ":dm:"@ + sender + ":"@ + place(
            thread_ts,
        ),
        ConversationKind::Channel => "workspace:"@ + team + ":channel:"@ + channel + ":"@ + place(
            thread_ts,
        ),
    }
}

/// The directory of a conversation's session.
pub open spec fn key_directory(data_dir: Seq<char>, key: Seq<char>) -> Seq<char> {
    paths::joined(paths::joined(data_dir, "sessions"@), encoding::hex_text(encode_utf8(key)))
}

impl ConversationKey {
    /// The key of the conversation that a message belongs to.
    pub fn from_message(message: &InboundMessage<'_>) -> (key: ConversationKey)
        ensures
            key@ == key_text(
                message.team_id@,
                message.kind,
                message.sender_id@,
                message.channel_id@,
                text::opt_str_view(message.thread_ts),
            ),
    {
        let mut text = "workspace:".to_owned();
        text.append(message.team_id);
        match message.kind {
            ConversationKind::DirectMessage => {
                text.append(":dm:");
                text.append(message.sender_id);
            },
            ConversationKind::Channel => {
                text.append(":channel:");
                text.append(message.channel_id);
            },
        }
        text.append(":");
        let ghost before = text@;
        match message.thread_ts {
            Some(ts) => {
                text.append("thread:");
                text.append(ts);
                assert(text@ =~= before + ("thread:"@ + ts@));
            },
            None => {
                text.append("root");
            },
        }
        ConversationKey { text }
    }

    /// The directory of the conversation's session.
    pub fn directory(&self, data_dir: &str) -> (path: String)
        ensures
            path@ == key_directory(data_dir@, self@),
    {
        let name = text::from_chars(encoding::hex(self.text.as_str().as_bytes()).as_slice());
        paths::join(paths::join(data_dir, "sessions").as_str(), name.as_str())
    }

    /// The key.
    pub fn as_str(&self) -> (s: &str)
        ensures
            s@ == self@,
    {
        self.text.as_str()
    }
}

// ---- Laws -------------------------------------------------------------------

/// Different keys have different directories.
pub proof fn keys_have_their_own_directories(data_dir: Seq<char>, a: Seq<char>, b: Seq<char>)
    requires
        a != b,
    ensures
        key_directory(data_dir, a) != key_directory(data_dir, b),
{
    encoding::names_differ(a, b);
    if encode_utf8(a).len() > 0 {
        encoding::names_hold_no_path_segments(a, 0);
    }
    if encode_utf8(b).len() > 0 {
        encoding::names_hold_no_path_segments(b, 0);
    }
    paths::names_have_their_own_paths(
        paths::joined(data_dir, "sessions"@),
        encoding::hex_text(encode_utf8(a)),
        encoding::hex_text(encode_utf8(b)),
    );
}

/// Whether `s` holds no colon.
pub open spec fn plain(s: Seq<char>) -> bool {
    !s.contains(':')
}

/// Where two texts with a colon after a plain part are equal, so are the parts.
proof fn lemma_colon(a: Seq<char>, x: Seq<char>, b: Seq<char>, y: Seq<char>)
    requires
        plain(a),
        plain(b),
        a + seq![':'] + x == b + seq![':'] + y,
    ensures
        a == b,
        x == y,
{
    let s = a + seq![':'] + x;
    let t = b + seq![':'] + y;
    if a.len() < b.len() {
        assert(s[a.len() as int] == ':');
        assert(t[a.len() as int] == b[a.len() as int]);
        assert(b.contains(':'));
    } else if b.len() < a.len() {
        assert(t[b.len() as int] == ':');
        assert(s[b.len() as int] == a[b.len() as int]);
        assert(a.contains(':'));
    }
    assert(a =~= s.take(a.len() as int));
    assert(b =~= t.take(b.len() as int));
    assert(x =~= s.skip(a.len() as int + 1));
    assert(y =~= t.skip(b.len() as int + 1));
}

/// The key of a conversation, part after part.
proof fn lemma_key_parts(
    team: Seq<char>,
    kind: ConversationKind,
    sender: Seq<char>,
    channel: Seq<char>,
    thread_ts: Option<Seq<char>>,
)
    ensures
        key_text(team, kind, sender, channel, thread_ts) == "workspace:"@ + (team + seq![':'] + ((
        match kind {
            ConversationKind::DirectMessage => "dm"@,
            ConversationKind::Channel => "channel"@,
        }) + seq![':'] + ((match kind {
            ConversationKind::DirectMessage => sender,
            ConversationKind::Channel => channel,
        }) + seq![':'] + place(thread_ts)))),
{
    reveal_strlit(":dm:");
    reveal_strlit(":channel:");
    reveal_strlit(":");
    reveal_strlit("dm");
    reveal_strlit("channel");
    assert(":dm:"@ =~= seq![':'] + "dm"@ + seq![':']);
    assert(":channel:"@ =~= seq![':'] + "channel"@ + seq![':']);
    assert(":"@ =~= seq![':']);
    match kind {
        ConversationKind::DirectMessage => {
            assert(key_text(team, kind, sender, channel, thread_ts) =~= "workspace:"@ + (team
                + seq![':'] + ("dm"@ + seq![':'] + (sender + seq![':'] + place(thread_ts)))));
        },
        ConversationKind::Channel => {
            assert(key_text(team, kind, sender, channel, thread_ts) =~= "workspace:"@ + (team
                + seq![':'] + ("channel"@ + seq![':'] + (channel + seq![':'] + place(thread_ts)))));
        },
    }
}

/// Two conversations share a key only where they are the same: the same workspace,
/// the same kind, the same user or channel, and the same thread. Ids hold no colon.
pub proof fn conversations_have_their_own_keys(
    team: Seq<char>,
    kind: ConversationKind,
    sender: Seq<char>,
    channel: Seq<char>,
    thread_ts: Option<Seq<char>>,
    team2: Seq<char>,
    kind2: ConversationKind,
    sender2: Seq<char>,
    channel2: Seq<char>,
    thread_ts2: Option<Seq<char>>,
)
    requires
        plain(team),
        plain(sender),
        plain(channel),
        plain(team2),
        plain(sender2),
        plain(channel2),
        key_text(team, kind, sender, channel, thread_ts) == key_text(
            team2,
            kind2,
            sender2,
            channel2,
            thread_ts2,
        ),
    ensures
        team == team2,
        kind == kind2,
        kind == ConversationKind::DirectMessage ==> sender == sender2,
        kind == ConversationKind::Channel ==> channel == channel2,
        thread_ts == thread_ts2,
{
    lemma_key_parts(team, kind, sender, channel, thread_ts);
    lemma_key_parts(team2, kind2, sender2, channel2, thread_ts2);
    reveal_strlit("dm");
    reveal_strlit("channel");
    reveal_strlit("thread:");
    reveal_strlit("root");
    let word = match kind {
        ConversationKind::DirectMessage => "dm"@,
        ConversationKind::Channel => "channel"@,
    };
    let word2 = match kind2 {
        ConversationKind::DirectMessage => "dm"@,
        ConversationKind::Channel => "channel"@,
    };
    let who = match kind {
        ConversationKind::DirectMessage => sender,
        ConversationKind::Channel => channel,
    };
    let who2 = match kind2 {
        ConversationKind::DirectMessage => sender2,
        ConversationKind::Channel => channel2,
    };
    let tail = who + seq![':'] + place(thread_ts);
    let tail2 = who2 + seq![':'] + place(thread_ts2);
    let rest = team + seq![':'] + (word + seq![':'] + tail);
    let rest2 = team2 + seq![':'] + (word2 + seq![':'] + tail2);
    let n = "workspace:"@.len() as int;
    assert(("workspace:"@ + rest).skip(n) =~= rest);
    assert(("workspace:"@ + rest2).skip(n) =~= rest2);
    lemma_colon(team, word + seq![':'] + tail, team2, word2 + seq![':'] + tail2);
    lemma_colon(word, tail, word2, tail2);
    assert("dm"@.len() != "channel"@.len());
    lemma_colon(who, place(thread_ts), who2, place(thread_ts2));
    match thread_ts {
        Some(ts) => match thread_ts2 {
            Some(ts2) => {
                assert(("thread:"@ + ts).skip(7) =~= ts);
                assert(("thread:"@ + ts2).skip(7) =~= ts2);
            },
            None => {
                assert(("thread:"@ + ts)[0] == 't');
                assert("root"@[0] == 'r');
            },
        },
        None => match thread_ts2 {
            Some(ts2) => {
                assert(("thread:"@ + ts2)[0] == 't');
                assert("root"@[0] == 'r');
            },
            None => {},
        },
    }
}

} // verus!
