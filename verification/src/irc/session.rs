//! Generations of a conversation's session.
//!
//! A conversation keeps its sessions in numbered generations under one directory,
//! with a pointer to the current one. After too long a silence, or on request, the
//! conversation moves on to a fresh generation; older ones are kept.

use crate::generations;
use crate::generations::Mark;
use crate::paths;
use crate::irc::config;
use crate::text;
use vstd::prelude::*;
use vstd::string::*;

verus! {

/// The default time, in minutes, after which a silent session expires.
pub const DEFAULT_IDLE_MINUTES: u64 = 360;

/// What is said when an expired session is replaced.
pub const EXPIRED_NOTICE: &'static str = "Previous session expired; starting fresh.";

/// What is said when a session is reset on request.
pub const RESET_REPLY: &'static str = "Context cleared, new session started.";

/// The file that names the current generation.
pub const POINTER: &'static str = "current.json";

/// The file that marks a generation into which older files are being moved.
pub const MIGRATION_MARKER: &'static str = ".migration-in-progress";

/// Settings of sessions.
#[derive(Clone, Debug)]
pub struct SessionsConfig {
    /// Minutes of silence after which a session expires; zero means never.
    pub idle_minutes: u64,
    /// The nicks that may reset a session; empty permits anyone.
    pub reset_users: Vec<String>,
}

impl Default for SessionsConfig {
    fn default() -> (cfg: SessionsConfig)
        ensures
            cfg.idle_minutes == DEFAULT_IDLE_MINUTES,
            cfg.reset_users@.len() == 0,
    {
        SessionsConfig { idle_minutes: DEFAULT_IDLE_MINUTES, reset_users: Vec::new() }
    }
}

/// Whether `nick` may reset a session.
pub fn reset_authorized(nick: &str, users: &[String]) -> (b: bool)
    ensures
        b == (users@.len() == 0 || config::lists_nick(users@, nick@)),
{
    users.len() == 0 || config::contains_nick(users, nick)
}

/// Whether `text` asks for a reset: `/new` or `/reset`, and nothing else.
pub fn is_reset_command(text: &str) -> (b: bool)
    ensures
        b == (text::trimmed(text@) == "/new"@ || text::trimmed(text@) == "/reset"@),
{
    let chars = text::to_chars(text);
    let t = text::trim(chars.as_slice());
    let new = text::to_chars("/new");
    let reset = text::to_chars("/reset");
    text::chars_eq(t, new.as_slice()) || text::chars_eq(t, reset.as_slice())
}

// ---- Generations ------------------------------------------------------------

/// The current generation of a conversation, and when it was last used.
#[derive(Clone, Debug, PartialEq, Eq)]
pub struct Pointer {
    pub generation: String,
    pub last_activity: u64,
}

impl View for Pointer {
    type V = Mark;

    open spec fn view(&self) -> Mark {
        Mark { generation: self.generation@, last: self.last_activity }
    }
}

/// What an optional pointer says.
pub open spec fn pointer_view(pointer: Option<Pointer>) -> Option<Mark> {
    match pointer {
        Some(pointer) => Some(pointer@),
        None => None,
    }
}

/// What has to be done to have a session.
#[derive(Clone, Debug, PartialEq, Eq)]
pub enum SessionAction {
    /// Go on with this generation, and note when it was used.
    Reuse(Pointer),
    /// Begin a fresh generation.
    Rotate,
    /// Move files from before there were generations into one, and go on with it.
    Migrate,
}

/// What an action is.
pub enum ActionView {
    Reuse(Mark),
    Rotate,
    Migrate,
}

impl View for SessionAction {
    type V = ActionView;

    open spec fn view(&self) -> ActionView {
        match self {
            SessionAction::Reuse(pointer) => ActionView::Reuse(pointer@),
            SessionAction::Rotate => ActionView::Rotate,
            SessionAction::Migrate => ActionView::Migrate,
        }
    }
}

/// What the actions of a list are.
pub open spec fn action_views(actions: Seq<SessionAction>) -> Seq<ActionView> {
    Seq::new(actions.len(), |i: int| actions[i]@)
}

/// How a conversation with this pointer gets its session at the time `now`: an expired
/// session is replaced, a live one goes on, and where there is no pointer older files
/// are taken over.
pub open spec fn action_for(pointer: Option<Mark>, idle_minutes: u64, now: u64) -> ActionView {
    match pointer {
        None => ActionView::Migrate,
        Some(p) => if generations::expired(idle_minutes, p.last, now) {
            ActionView::Rotate
        } else {
            ActionView::Reuse(Mark { generation: p.generation, last: now })
        },
    }
}

/// The pointer after an action at the time `now`, for which the generation `name` was
/// begun or found.
pub open spec fn pointer_after(action: ActionView, name: Seq<char>, now: u64) -> Mark {
    match action {
        ActionView::Reuse(p) => p,
        _ => Mark { generation: name, last: now },
    }
}

/// Whether an entry of a conversation's directory is more than the pointer and its
/// drafts.
pub open spec fn is_entry(name: Seq<char>) -> bool {
    name != POINTER@ && !text::begins_with(name, ".current-"@)
}

/// The entries of a conversation's directory that an action moves into the generation
/// `name`: where older files are taken over, all but the generation itself.
pub open spec fn moved_by(
    action: ActionView,
    entries: Seq<Seq<char>>,
    name: Seq<char>,
) -> Seq<Seq<char>> {
    match action {
        ActionView::Migrate => entries.filter(|entry: Seq<char>| is_entry(entry) && entry != name),
        _ => Seq::empty(),
    }
}

/// What a reset does: it begins a fresh generation, after older files have been taken
/// over where there is no pointer yet.
pub open spec fn reset_actions(has_pointer: bool) -> Seq<ActionView> {
    if has_pointer {
        seq![ActionView::Rotate]
    } else {
        seq![ActionView::Migrate, ActionView::Rotate]
    }
}

/// How a conversation gets its session.
#[derive(Clone, Debug, PartialEq, Eq)]
pub struct Prepared {
    pub action: SessionAction,
    /// Whether a session had expired.
    pub expired: bool,
}

/// The sessions of one conversation.
#[derive(Clone, Debug)]
pub struct Store {
    base: String,
}

/// An entry of the directory of a conversation.
#[derive(Clone, Debug)]
pub struct RootEntry {
    pub name: String,
    pub is_dir: bool,
    /// Whether it holds the migration marker.
    pub marked: bool,
}

/// Why files from before there were generations cannot be moved.
#[derive(Clone, Copy, Debug, PartialEq, Eq, Structural)]
pub enum MigrationError {
    /// A directory that is no generation holds the marker.
    Malformed,
    /// More than one generation stands there without a pointer.
    Ambiguous,
}

/// A directory that is no generation but holds the marker.
pub open spec fn malformed(entry: RootEntry) -> bool {
    entry.is_dir && entry.marked && !generations::names_generation(entry.name@)
}

/// A directory that is a generation.
pub open spec fn candidate(entry: RootEntry) -> bool {
    entry.is_dir && generations::names_generation(entry.name@)
}

/// How many of `entries` are generations.
pub open spec fn candidate_count(entries: Seq<RootEntry>) -> nat
    decreases entries.len(),
{
    if entries.len() == 0 {
        0
    } else {
        candidate_count(entries.drop_last()) + if candidate(entries.last()) {
            1nat
        } else {
            0nat
        }
    }
}

impl Store {
    /// The directory of the conversation.
    pub closed spec fn directory(&self) -> Seq<char> {
        self.base@
    }

    /// The sessions under `root` of the conversation with the session key `key`.
    pub fn new(root: &str, key: &str) -> (store: Store)
        ensures
            store.directory() == paths::joined(root@, key@),
    {
        Store { base: paths::join(root, key) }
    }

    /// The directory of the conversation.
    pub fn base(&self) -> (s: &str)
        ensures
            s@ == self.directory(),
    {
        self.base.as_str()
    }

    /// Whether `name` is that of a generation.
    pub fn valid_generation(name: &str) -> (b: bool)
        ensures
            b == generations::names_generation(name@),
    {
        generations::is_generation(name)
    }

    /// The name of generation number `n` begun at the time `now`.
    pub fn generation_name(now: u64, n: u64) -> (name: String)
        ensures
            name@ == generations::generation_at(now as nat, n as nat),
            generations::names_generation(name@),
    {
        generations::generation_name(now, n)
    }

    /// Whether an entry of the directory is more than the pointer and its drafts.
    pub fn is_root_entry(name: &str) -> (b: bool)
        ensures
            b == is_entry(name@),
    {
        let chars = text::to_chars(name);
        !text::str_eq(name, POINTER) && !text::starts_with(chars.as_slice(), ".current-")
    }

    /// The generation into which older files are moved, if one has been begun.
    pub fn migration_generation(entries: &Vec<RootEntry>) -> (r: Result<
        Option<usize>,
        MigrationError,
    >)
        ensures
            (exists|i: int| 0 <= i < entries@.len() && malformed(#[trigger] entries@[i])) <==> r
                == Err::<Option<usize>, _>(MigrationError::Malformed),
            (forall|i: int| 0 <= i < entries@.len() ==> !malformed(#[trigger] entries@[i]))
                && candidate_count(entries@) > 1 <==> r == Err::<Option<usize>, _>(
                MigrationError::Ambiguous,
            ),
            r matches Ok(None) ==> candidate_count(entries@) == 0,
            r matches Ok(Some(i)) ==> i < entries@.len() && candidate(entries@[i as int])
                && candidate_count(entries@) == 1,
    {
        let mut found: Option<usize> = None;
        let mut several = false;
        let mut i: usize = 0;
        while i < entries.len()
            invariant
                i <= entries@.len(),
                forall|j: int| 0 <= j < i ==> !malformed(#[trigger] entries@[j]),
                found is None <==> candidate_count(entries@.take(i as int)) == 0,
                several <==> candidate_count(entries@.take(i as int)) > 1,
                found matches Some(k) ==> k < i && candidate(entries@[k as int]),
            decreases entries@.len() - i,
        {
            assert(entries@.take(i + 1).drop_last() =~= entries@.take(i as int));
            let entry = &entries[i];
            if entry.is_dir {
                let valid = Store::valid_generation(entry.name.as_str());
                if entry.marked && !valid {
                    assert(malformed(entries@[i as int]));
                    return Err(MigrationError::Malformed);
                }
                if valid {
                    if found.is_some() {
                        several = true;
                    } else {
                        found = Some(i);
                    }
                }
            }
            i = i + 1;
        }
        assert(entries@.take(entries@.len() as int) =~= entries@);
        if several {
            Err(MigrationError::Ambiguous)
        } else {
            Ok(found)
        }
    }

    /// How the conversation gets its session at the time `now`, when its pointer
    /// says `pointer`: an expired session is replaced, a live one goes on, and
    /// where there is no pointer older files are taken over.
    pub fn prepare(&self, pointer: Option<Pointer>, idle_minutes: u64, now: u64) -> (r: Prepared)
        ensures
            r.action@ == action_for(pointer_view(pointer), idle_minutes, now),
            r.expired == generations::is_replaced(pointer_view(pointer), idle_minutes, now),
    {
        match pointer {
            None => Prepared { action: SessionAction::Migrate, expired: false },
            Some(p) => {
                if generations::is_expired(idle_minutes, p.last_activity, now) {
                    Prepared { action: SessionAction::Rotate, expired: true }
                } else {
                    Prepared {
                        action: SessionAction::Reuse(
                            Pointer { generation: p.generation, last_activity: now },
                        ),
                        expired: false,
                    }
                }
            },
        }
    }

    /// What a reset does: it begins a fresh generation, after older files have been
    /// taken over where there is no pointer yet.
    pub fn reset(&self, has_pointer: bool) -> (actions: Vec<SessionAction>)
        ensures
            action_views(actions@) == reset_actions(has_pointer),
    {
        let mut actions: Vec<SessionAction> = Vec::new();
        if !has_pointer {
            actions.push(SessionAction::Migrate);
        }
        actions.push(SessionAction::Rotate);
        assert(action_views(actions@) =~= reset_actions(has_pointer));
        actions
    }

    /// The pointer to write after an action at the time `now`, for which the generation
    /// `name` was begun or found.
    pub fn pointer_after(action: SessionAction, name: &str, now: u64) -> (pointer: Pointer)
        ensures
            pointer@ == pointer_after(action@, name@, now),
    {
        match action {
            SessionAction::Reuse(pointer) => pointer,
            _ => Pointer { generation: name.to_owned(), last_activity: now },
        }
    }

    /// The names among `entries`, those of the conversation's directory, that an action
    /// moves into the generation `name`.
    pub fn moved_by(action: &SessionAction, entries: &Vec<String>, name: &str) -> (list: Vec<
        String,
    >)
        ensures
            text::views(list@) == moved_by(action@, text::views(entries@), name@),
    {
        let ghost all = text::views(entries@);
        let ghost keep = |entry: Seq<char>| is_entry(entry) && entry != name@;
        let mut list: Vec<String> = Vec::new();
        assert(text::views(list@) =~= Seq::empty());
        match action {
            SessionAction::Migrate => {},
            _ => {
                return list;
            },
        }
        let mut i: usize = 0;
        proof {
            reveal(Seq::filter);
        }
        assert(text::views(list@) =~= all.take(0).filter(keep));
        while i < entries.len()
            invariant
                all == text::views(entries@),
                keep == |entry: Seq<char>| is_entry(entry) && entry != name@,
                i <= entries@.len(),
                text::views(list@) == all.take(i as int).filter(keep),
            decreases entries@.len() - i,
        {
            let entry = entries[i].as_str();
            let ghost before = list@;
            proof {
                reveal(Seq::filter);
                assert(all.take(i + 1).drop_last() =~= all.take(i as int));
                assert(all.take(i + 1).last() == entry@);
            }
            if Store::is_root_entry(entry) && !text::str_eq(entry, name) {
                list.push(entry.to_owned());
                assert(text::views(list@) =~= text::views(before).push(entry@));
            }
            i = i + 1;
        }
        assert(all.take(i as int) =~= all);
        list
    }
}

// ---- Laws -------------------------------------------------------------------

/// Of two messages to a conversation, at `t0` and then at `t1`, the second finds the
/// session of the first unless the idle time has passed between them. Then it finds the
/// directory of the generation that is begun for it, `name1`. Either way nothing is
/// moved out of where the first was.
pub proof fn conversations_go_on_until_the_idle_time_has_passed(
    base: Seq<char>,
    pointer: Option<Mark>,
    idle: u64,
    t0: u64,
    name0: Seq<char>,
    entries: Seq<Seq<char>>,
    idle_then: u64,
    t1: u64,
    name1: Seq<char>,
)
    requires
        generations::names_generation(name0),
        generations::names_generation(name1),
        name0 != name1,
        pointer is Some ==> generations::names_generation(pointer->0.generation)
            && pointer->0.generation != name1,
    ensures
        ({
            let first = action_for(pointer, idle, t0);
            let p = pointer_after(first, name0, t0);
            let second = action_for(Some(p), idle_then, t1);
            let q = pointer_after(second, name1, t1);
            let expired = generations::is_replaced(Some(p), idle_then, t1);
            &&& pointer is None ==> !generations::is_replaced(pointer, idle, t0)
            &&& expired <==> idle_then != 0 && t1 >= t0 && t1 - t0 >= generations::idle_seconds(
                idle_then,
            )
            &&& !expired ==> paths::joined(base, q.generation) == paths::joined(base, p.generation)
            &&& expired ==> paths::joined(base, q.generation) != paths::joined(base, p.generation)
            &&& moved_by(second, entries, name1).len() == 0
            &&& q.last == t1
        }),
{
    let p = pointer_after(action_for(pointer, idle, t0), name0, t0);
    generations::generations_stand_in_a_directory(p.generation);
    generations::generations_stand_in_a_directory(name1);
    paths::names_have_their_own_paths(base, p.generation, name1);
}

/// A reset where there is no pointer yet: every older file is moved into one generation,
/// `taken`, and the conversation goes on in another, `name`, into which nothing is moved.
/// What follows within the idle time stays there.
pub proof fn resets_leave_older_files_behind(
    base: Seq<char>,
    entries: Seq<Seq<char>>,
    taken: Seq<char>,
    name: Seq<char>,
    now: u64,
    idle_minutes: u64,
    t: u64,
)
    requires
        generations::names_generation(taken),
        generations::names_generation(name),
        taken != name,
    ensures
        ({
            let actions = reset_actions(false);
            let p = pointer_after(actions[1], name, now);
            let next = action_for(Some(p), idle_minutes, t);
            &&& forall|entry: Seq<char>|
                entries.contains(entry) && is_entry(entry) && entry != taken
                    ==> #[trigger] moved_by(actions[0], entries, taken).contains(entry)
            &&& moved_by(actions[1], entries, name).len() == 0
            &&& p.generation == name
            &&& paths::joined(base, name) != paths::joined(base, taken)
            &&& !generations::expired(idle_minutes, now, t) ==> next == ActionView::Reuse(
                Mark { generation: name, last: t },
            )
        }),
{
    let actions = reset_actions(false);
    let keep = |entry: Seq<char>| is_entry(entry) && entry != taken;
    entries.filter_lemma(keep);
    assert forall|entry: Seq<char>|
        entries.contains(entry) && is_entry(entry) && entry != taken implies #[trigger] moved_by(
        actions[0],
        entries,
        taken,
    ).contains(entry) by {
        let i = choose|i: int| 0 <= i < entries.len() && entries[i] == entry;
        assert(keep(entries[i]));
        assert(entries.filter(keep).contains(entries[i]));
    }
    generations::generations_stand_in_a_directory(taken);
    generations::generations_stand_in_a_directory(name);
    paths::names_have_their_own_paths(base, taken, name);
}

} // verus!
