//! Sessions of WhatsApp users.

use crate::generations;
use crate::generations::Mark;
use crate::paths;
use crate::text;
use crate::whatsapp::webhook;
use vstd::prelude::*;
use vstd::string::*;

verus! {

/// The default time, in minutes, after which a silent session expires.
pub const DEFAULT_IDLE_MINUTES: u64 = 360;

/// What is said when an expired session is replaced.
pub const EXPIRED_NOTICE: &'static str = "Previous session expired; starting fresh.";

/// What is said when a session is reset on request.
pub const RESET_REPLY: &'static str = "Context cleared, new session started.";

/// The file that names the current generation.
pub const POINTER: &'static str = "current.json";

/// Settings of sessions.
#[derive(Clone, Debug)]
pub struct SessionsConfig {
    /// Minutes of silence after which a session expires; zero means never.
    pub idle_minutes: u64,
}

impl Default for SessionsConfig {
    fn default() -> (cfg: SessionsConfig)
        ensures
            cfg.idle_minutes == DEFAULT_IDLE_MINUTES,
    {
        SessionsConfig { idle_minutes: DEFAULT_IDLE_MINUTES }
    }
}

/// Whether `id` is that of a WhatsApp user: digits.
pub fn valid_wa_id(id: &str) -> (b: bool)
    ensures
        b == webhook::is_wa_id(id@),
{
    let chars = text::to_chars(id);
    chars.len() > 0 && text::all_digits(chars.as_slice())
}

/// Whether `text` asks for a reset.
pub fn is_reset(text: &str) -> (b: bool)
    ensures
        b == (text::trimmed(text@) == "/new"@ || text::trimmed(text@) == "/reset"@),
{
    let chars = text::to_chars(text);
    let word = text::from_chars(text::trim(chars.as_slice()));
    text::str_eq(word.as_str(), "/new") || text::str_eq(word.as_str(), "/reset")
}

/// The current generation of a user's session.
#[derive(Clone, Debug, PartialEq, Eq)]
pub struct Pointer {
    pub generation: String,
    /// When the user last wrote.
    pub last_inbound: u64,
}

impl View for Pointer {
    type V = Mark;

    open spec fn view(&self) -> Mark {
        Mark { generation: self.generation@, last: self.last_inbound }
    }
}

/// What an optional pointer says.
pub open spec fn pointer_view(pointer: Option<&Pointer>) -> Option<Mark> {
    match pointer {
        Some(pointer) => Some(pointer@),
        None => None,
    }
}

/// A session that is ready, and whether it replaces an expired one.
#[derive(Clone, Debug, PartialEq, Eq)]
pub struct Prepared {
    /// The pointer to write.
    pub pointer: Pointer,
    pub rotated: bool,
}

/// Where a user's sessions are kept.
#[derive(Clone, Debug, PartialEq, Eq)]
pub struct SessionStore {
    chat_dir: String,
}

/// The id of a user must consist of digits.
#[derive(Clone, Copy, Debug, PartialEq, Eq, Structural)]
pub struct InvalidWaId;

impl InvalidWaId {
    /// What is wrong.
    pub fn message(&self) -> (text: String)
        ensures
            text@ == "WhatsApp wa_id must contain ASCII digits only"@,
    {
        "WhatsApp wa_id must contain ASCII digits only".to_owned()
    }
}

impl SessionStore {
    /// The directory that holds the sessions.
    pub closed spec fn dir(&self) -> Seq<char> {
        self.chat_dir@
    }

    /// The sessions of a user under the directory `root`.
    pub fn new(root: &str, wa_id: &str) -> (r: Result<SessionStore, InvalidWaId>)
        ensures
            match r {
                Ok(store) => webhook::is_wa_id(wa_id@) && store.dir() == paths::joined(root@, wa_id@),
                Err(_) => !webhook::is_wa_id(wa_id@),
            },
    {
        if !valid_wa_id(wa_id) {
            return Err(InvalidWaId);
        }
        Ok(SessionStore { chat_dir: paths::join(root, wa_id) })
    }

    /// The file that names the current generation.
    pub fn pointer(&self) -> (path: String)
        ensures
            path@ == paths::joined(self.dir(), "current.json"@),
    {
        self.session_dir("current.json")
    }

    /// The directory of a generation.
    pub fn session_dir(&self, generation: &str) -> (path: String)
        ensures
            path@ == paths::joined(self.dir(), generation@),
    {
        paths::join(self.chat_dir.as_str(), generation)
    }

    /// The pointer to a fresh generation, the `n`th of this process.
    pub fn reset(&self, now: u64, n: u64) -> (pointer: Pointer)
        ensures
            pointer@ == (Mark {
                generation: generations::generation_at(now as nat, n as nat),
                last: now,
            }),
    {
        Pointer { generation: generations::generation_name(now, n), last_inbound: now }
    }

    /// The session for a message at the time `now`: the current generation while it
    /// lasts, else a fresh one, the `n`th of this process.
    pub fn prepare(&self, current: Option<&Pointer>, idle_minutes: u64, now: u64, n: u64) -> (r:
        Prepared)
        ensures
            r.rotated == generations::is_replaced(pointer_view(current), idle_minutes, now),
            r.pointer@ == generations::carried(
                pointer_view(current),
                idle_minutes,
                now,
                generations::generation_at(now as nat, n as nat),
            ),
    {
        match current {
            Some(pointer) => {
                if generations::is_expired(idle_minutes, pointer.last_inbound, now) {
                    Prepared { pointer: self.reset(now, n), rotated: true }
                } else {
                    Prepared {
                        pointer: Pointer {
                            generation: pointer.generation.as_str().to_owned(),
                            last_inbound: now,
                        },
                        rotated: false,
                    }
                }
            },
            None => Prepared { pointer: self.reset(now, n), rotated: false },
        }
    }
}

// ---- Laws -------------------------------------------------------------------

/// Of two messages of a user, at `t0` and then at `t1`, the second finds the session of
/// the first unless the idle time has passed between them. Then it finds another
/// directory.
pub proof fn users_go_on_until_the_idle_time_has_passed(
    dir: Seq<char>,
    current: Option<Mark>,
    idle: u64,
    t0: u64,
    n0: u64,
    idle_then: u64,
    t1: u64,
    n1: u64,
)
    requires
        generations::begun_by(current, t0),
    ensures
        ({
            let a = generations::carried(
                current,
                idle,
                t0,
                generations::generation_at(t0 as nat, n0 as nat),
            );
            let b = generations::carried(
                Some(a),
                idle_then,
                t1,
                generations::generation_at(t1 as nat, n1 as nat),
            );
            let rotated = generations::is_replaced(Some(a), idle_then, t1);
            &&& rotated <==> idle_then != 0 && t1 >= t0 && t1 - t0 >= generations::idle_seconds(
                idle_then,
            )
            &&& !rotated ==> paths::joined(dir, b.generation) == paths::joined(dir, a.generation)
            &&& rotated ==> paths::joined(dir, b.generation) != paths::joined(dir, a.generation)
            &&& b.last == t1
        }),
{
    let a = generations::carried(
        current,
        idle,
        t0,
        generations::generation_at(t0 as nat, n0 as nat),
    );
    let b = generations::carried(
        Some(a),
        idle_then,
        t1,
        generations::generation_at(t1 as nat, n1 as nat),
    );
    generations::a_session_goes_on_until_the_idle_time_has_passed(
        current,
        idle,
        t0,
        n0,
        idle_then,
        t1,
        n1,
    );
    generations::lemma_named(current, idle, t0, n0);
    generations::lemma_named(Some(a), idle_then, t1, n1);
    if generations::is_replaced(Some(a), idle_then, t1) {
        paths::names_have_their_own_paths(dir, a.generation, b.generation);
    }
}

/// The directories of two users are different directories.
pub proof fn users_have_their_own_directories(root: Seq<char>, a: Seq<char>, b: Seq<char>)
    requires
        a != b,
        webhook::is_wa_id(a),
        webhook::is_wa_id(b),
    ensures
        paths::joined(root, a) != paths::joined(root, b),
{
    paths::names_have_their_own_paths(root, a, b);
}

} // verus!
