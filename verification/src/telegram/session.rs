//! Sessions of Telegram chats.
//!
//! A chat keeps its sessions in generations under one directory, with a pointer to
//! the current one. After too long a silence, or on request, the chat moves on to a
//! fresh generation; older ones are kept.

use crate::generations;
use crate::generations::Mark;
use crate::paths;
use crate::text;
use vstd::prelude::*;
use vstd::string::*;

verus! {

/// The default time, in minutes, after which a silent session expires.
pub const DEFAULT_IDLE_MINUTES: u64 = 360;

/// What is said when an expired session is replaced.
pub const EXPIRED_NOTICE: &'static str = "Previous session expired; starting fresh.";

/// What is said when a session is reset on request.
pub const RESET_REPLY: &'static str = "Context cleared, new session started.";

/// Settings of sessions.
#[derive(Clone, Debug)]
pub struct SessionsConfig {
    /// Minutes of silence after which a session expires; zero means never.
    pub idle_minutes: u64,
}

impl Default for SessionsConfig {
    fn default() -> (cfg: SessionsConfig)
        ensures
            cfg.idle_minutes == DEFAULT_IDLE_MINUTES,
    {
        SessionsConfig { idle_minutes: DEFAULT_IDLE_MINUTES }
    }
}

// ---- Requests for a reset ---------------------------------------------------

/// A command that resets the session.
#[derive(Clone, Copy, Debug, PartialEq, Eq, Structural)]
pub enum ResetCommand {
    New,
    Reset,
}

/// The command that a message is: `/new` or `/reset`, alone or with the name of a
/// bot after an `@`. A message that holds anything else is none.
pub open spec fn reset_command(message: Seq<char>) -> Option<ResetCommand> {
    let token = text::trimmed(message);
    let at = text::next_at(token, '@', 0);
    let base = token.take(at);
    if !text::no_white(token) || at == token.len() - 1 {
        None
    } else if base == "/new"@ {
        Some(ResetCommand::New)
    } else if base == "/reset"@ {
        Some(ResetCommand::Reset)
    } else {
        None
    }
}

/// The command that a message is, if it is one.
pub fn parse_reset_command(text: &str) -> (r: Option<ResetCommand>)
    ensures
        r == reset_command(text@),
{
    let chars = text::to_chars(text);
    let token = text::trim(chars.as_slice());
    let at: usize = text::find_char(token, '@', 0);
    if !text::has_no_white(token) || (at < token.len() && at == token.len() - 1) {
        return None;
    }
    let base = text::from_chars(text::take(token, at));
    if text::str_eq(base.as_str(), "/new") {
        Some(ResetCommand::New)
    } else if text::str_eq(base.as_str(), "/reset") {
        Some(ResetCommand::Reset)
    } else {
        None
    }
}

// ---- Generations ------------------------------------------------------------

/// The current generation of a chat's session.
#[derive(Clone, Debug, PartialEq, Eq)]
pub struct Pointer {
    pub generation: String,
    /// When someone last wrote.
    pub last_inbound: u64,
}

impl View for Pointer {
    type V = Mark;

    open spec fn view(&self) -> Mark {
        Mark { generation: self.generation@, last: self.last_inbound }
    }
}

/// What an optional pointer says.
pub open spec fn pointer_view(pointer: Option<&Pointer>) -> Option<Mark> {
    match pointer {
        Some(pointer) => Some(pointer@),
        None => None,
    }
}

/// A session that is ready for a message.
#[derive(Clone, Debug, PartialEq, Eq)]
pub struct Prepared {
    /// The directory of the session.
    pub session_dir: String,
    /// Whether the session replaces an expired one.
    pub rotated: bool,
    /// The pointer to write.
    pub pointer: Pointer,
    /// What is first moved into the directory of the session: what the chat kept
    /// before there were generations.
    pub moved: Vec<String>,
}

/// What a session that is ready is.
#[verifier::ext_equal]
pub struct PreparedView {
    pub session_dir: Seq<char>,
    pub rotated: bool,
    pub pointer: Mark,
    pub moved: Seq<Seq<char>>,
}

impl View for Prepared {
    type V = PreparedView;

    open spec fn view(&self) -> PreparedView {
        PreparedView {
            session_dir: self.session_dir@,
            rotated: self.rotated,
            pointer: self.pointer@,
            moved: text::views(self.moved@),
        }
    }
}

/// A fresh generation under `dir`, the `n`th of its process, begun at `now`.
pub open spec fn fresh_session(dir: Seq<char>, now: u64, n: u64) -> PreparedView {
    let generation = generations::generation_at(now as nat, n as nat);
    PreparedView {
        session_dir: paths::joined(dir, generation),
        rotated: false,
        pointer: Mark { generation, last: now },
        moved: Seq::empty(),
    }
}

/// The session under `dir` for a message at the time `now`: the current generation
/// while it lasts, else a fresh one. Where there is none yet, what of `entries` is from
/// before there were generations is moved into it.
pub open spec fn session_for(
    dir: Seq<char>,
    current: Option<Mark>,
    entries: Seq<Seq<char>>,
    idle_minutes: u64,
    now: u64,
    n: u64,
) -> PreparedView {
    let pointer = generations::carried(
        current,
        idle_minutes,
        now,
        generations::generation_at(now as nat, n as nat),
    );
    PreparedView {
        session_dir: paths::joined(dir, pointer.generation),
        rotated: generations::is_replaced(current, idle_minutes, now),
        pointer,
        moved: if current is None {
            old_entries(entries)
        } else {
            Seq::empty()
        },
    }
}

/// Where a chat's sessions are kept.
#[derive(Clone, Debug, PartialEq, Eq)]
pub struct SessionStore {
    chat_dir: String,
}

/// The directory of a chat under the directory `root`.
pub open spec fn chat_directory(root: Seq<char>, chat_id: int) -> Seq<char> {
    paths::joined(root, text::signed_decimal(chat_id))
}

/// Whether an entry of a chat's directory is from before there were generations.
pub open spec fn from_before(name: Seq<char>) -> bool {
    name != "current.json"@ && !generations::names_generation(name)
}

/// The entries of a chat's directory from before there were generations.
pub open spec fn old_entries(entries: Seq<Seq<char>>) -> Seq<Seq<char>> {
    entries.filter(|name: Seq<char>| from_before(name))
}

fn find_old_entries(entries: &[String]) -> (list: Vec<String>)
    ensures
        text::views(list@) == old_entries(text::views(entries@)),
{
    let ghost all = text::views(entries@);
    let ghost keep = |name: Seq<char>| from_before(name);
    let mut list: Vec<String> = Vec::new();
    let mut i: usize = 0;
    proof {
        reveal(Seq::filter);
    }
    assert(text::views(list@) =~= all.take(0).filter(keep));
    while i < entries.len()
        invariant
            all == text::views(entries@),
            keep == |name: Seq<char>| from_before(name),
            i <= entries@.len(),
            text::views(list@) == all.take(i as int).filter(keep),
        decreases entries@.len() - i,
    {
        let name = entries[i].as_str();
        let ghost before = list@;
        proof {
            reveal(Seq::filter);
            assert(all.take(i + 1).drop_last() =~= all.take(i as int));
            assert(all.take(i + 1).last() == name@);
        }
        if !text::str_eq(name, "current.json") && !generations::is_generation(name) {
            list.push(name.to_owned());
            assert(text::views(list@) =~= text::views(before).push(name@));
        }
        i = i + 1;
    }
    assert(all.take(i as int) =~= all);
    list
}

impl SessionStore {
    /// The directory that holds the sessions.
    pub closed spec fn dir(&self) -> Seq<char> {
        self.chat_dir@
    }

    /// The sessions of a chat under the directory `sessions_root`.
    pub fn new(sessions_root: &str, chat_id: i64) -> (store: SessionStore)
        ensures
            store.dir() == chat_directory(sessions_root@, chat_id as int),
    {
        let digits = text::from_chars(text::signed_chars(chat_id).as_slice());
        SessionStore { chat_dir: paths::join(sessions_root, digits.as_str()) }
    }

    /// The file that names the current generation.
    pub fn pointer_path(&self) -> (path: String)
        ensures
            path@ == paths::joined(self.dir(), "current.json"@),
    {
        self.generation_dir("current.json")
    }

    /// The directory of a generation.
    pub fn generation_dir(&self, generation: &str) -> (path: String)
        ensures
            path@ == paths::joined(self.dir(), generation@),
    {
        paths::join(self.chat_dir.as_str(), generation)
    }

    /// A fresh generation, the `n`th of this process.
    pub fn reset(&self, now: u64, n: u64) -> (r: Prepared)
        ensures
            r@ == fresh_session(self.dir(), now, n),
    {
        let generation = generations::generation_name(now, n);
        let moved: Vec<String> = Vec::new();
        assert(text::views(moved@) =~= Seq::empty());
        Prepared {
            session_dir: self.generation_dir(generation.as_str()),
            rotated: false,
            pointer: Pointer { generation, last_inbound: now },
            moved,
        }
    }

    /// The session for a message at the time `now`: the current generation while it
    /// lasts, else a fresh one, the `n`th of this process. Where there is none yet,
    /// what of `entries`, those of the chat's directory, is from before there were
    /// generations is moved into it.
    pub fn prepare_inbound(
        &self,
        current: Option<&Pointer>,
        entries: &[String],
        idle_minutes: u64,
        now: u64,
        n: u64,
    ) -> (r: Prepared)
        ensures
            r@ == session_for(
                self.dir(),
                pointer_view(current),
                text::views(entries@),
                idle_minutes,
                now,
                n,
            ),
    {
        match current {
            Some(pointer) => {
                if generations::is_expired(idle_minutes, pointer.last_inbound, now) {
                    let mut fresh = self.reset(now, n);
                    fresh.rotated = true;
                    fresh
                } else {
                    let moved: Vec<String> = Vec::new();
                    assert(text::views(moved@) =~= Seq::empty());
                    Prepared {
                        session_dir: self.generation_dir(pointer.generation.as_str()),
                        rotated: false,
                        pointer: Pointer {
                            generation: pointer.generation.as_str().to_owned(),
                            last_inbound: now,
                        },
                        moved,
                    }
                }
            },
            None => {
                let mut fresh = self.reset(now, n);
                fresh.moved = find_old_entries(entries);
                fresh
            },
        }
    }
}

// ---- Laws -------------------------------------------------------------------

proof fn lemma_ids_are_relative(id: int)
    ensures
        !paths::is_absolute(text::signed_decimal(id)),
{
    if id >= 0 {
        text::lemma_decimal_digits(id as nat);
    }
}

/// The directories of two chats are different directories.
pub proof fn chats_have_their_own_directories(root: Seq<char>, a: int, b: int)
    requires
        a != b,
    ensures
        chat_directory(root, a) != chat_directory(root, b),
{
    text::lemma_signed_differ(a, b);
    lemma_ids_are_relative(a);
    lemma_ids_are_relative(b);
    paths::names_have_their_own_paths(root, text::signed_decimal(a), text::signed_decimal(b));
}

/// Of two messages to a chat, at `t0` and then at `t1`, the second finds the session of
/// the first unless the idle time has passed between them. Then it finds another
/// directory. Either way nothing is moved out of where the first was.
pub proof fn chats_go_on_until_the_idle_time_has_passed(
    dir: Seq<char>,
    current: Option<Mark>,
    entries: Seq<Seq<char>>,
    idle: u64,
    t0: u64,
    n0: u64,
    entries_then: Seq<Seq<char>>,
    idle_then: u64,
    t1: u64,
    n1: u64,
)
    requires
        generations::begun_by(current, t0),
    ensures
        ({
            let a = session_for(dir, current, entries, idle, t0, n0);
            let b = session_for(dir, Some(a.pointer), entries_then, idle_then, t1, n1);
            &&& current is None ==> !a.rotated
            &&& b.rotated <==> idle_then != 0 && t1 >= t0 && t1 - t0 >= generations::idle_seconds(
                idle_then,
            )
            &&& !b.rotated ==> b.session_dir == a.session_dir
            &&& b.rotated ==> b.session_dir != a.session_dir
            &&& b.moved.len() == 0
            &&& b.pointer.last == t1
        }),
{
    let a = session_for(dir, current, entries, idle, t0, n0);
    let b = session_for(dir, Some(a.pointer), entries_then, idle_then, t1, n1);
    generations::a_session_goes_on_until_the_idle_time_has_passed(
        current,
        idle,
        t0,
        n0,
        idle_then,
        t1,
        n1,
    );
    generations::lemma_named(current, idle, t0, n0);
    generations::lemma_named(Some(a.pointer), idle_then, t1, n1);
    if b.rotated {
        paths::names_have_their_own_paths(dir, a.pointer.generation, b.pointer.generation);
    }
}

/// A reset leads to a directory of its own and moves nothing; what follows within the
/// idle time stays there.
pub proof fn resets_begin_anew(
    dir: Seq<char>,
    earlier: u64,
    k: u64,
    now: u64,
    n: u64,
    entries: Seq<Seq<char>>,
    idle_minutes: u64,
    t: u64,
    m: u64,
)
    requires
        earlier != now || k != n,
    ensures
        ({
            let r = fresh_session(dir, now, n);
            let next = session_for(dir, Some(r.pointer), entries, idle_minutes, t, m);
            &&& r.session_dir != fresh_session(dir, earlier, k).session_dir
            &&& r.moved.len() == 0 && next.moved.len() == 0
            &&& next.rotated <==> idle_minutes != 0 && t >= now && t - now
                >= generations::idle_seconds(idle_minutes)
            &&& !next.rotated ==> next.session_dir == r.session_dir
        }),
{
    let a = generations::generation_at(earlier as nat, k as nat);
    let b = generations::generation_at(now as nat, n as nat);
    generations::generations_have_their_own_names(earlier as nat, k as nat, now as nat, n as nat);
    generations::generation_names_are_valid(earlier as nat, k as nat);
    generations::generation_names_are_valid(now as nat, n as nat);
    generations::generations_stand_in_a_directory(a);
    generations::generations_stand_in_a_directory(b);
    paths::names_have_their_own_paths(dir, a, b);
}

/// On an upgrade everything that a chat kept is moved but generations and the
/// pointer, which stay.
pub proof fn upgrades_lose_nothing(entries: Seq<Seq<char>>, name: Seq<char>)
    requires
        entries.contains(name),
    ensures
        old_entries(entries).contains(name) <==> name != "current.json"@
            && !generations::names_generation(name),
{
    let keep = |name: Seq<char>| from_before(name);
    entries.filter_lemma(keep);
    if from_before(name) {
        let i = choose|i: int| 0 <= i < entries.len() && entries[i] == name;
        assert(entries[i] == name && keep(entries[i]));
        assert(entries.filter(keep).contains(entries[i]));
    } else if old_entries(entries).contains(name) {
        let j = choose|j: int|
            0 <= j < old_entries(entries).len() && old_entries(entries)[j] == name;
        assert(keep(entries.filter(keep)[j]));
    }
}

} // verus!
