//! Which messages share a session, where it is kept, and when it expires.

use crate::encoding;
use crate::generations;
use crate::json;
use crate::json::Scalar;
use crate::lines;
use crate::paths;
use crate::text;
use crate::urls;
use vstd::prelude::*;
use vstd::string::*;
use vstd::utf8::*;

verus! {

/// The file that holds when a session was last used.
pub const ACTIVITY_FILE: &'static str = "last_activity";

/// What is said when an expired session is replaced.
pub const EXPIRED_NOTICE: &'static str = "Previous session expired; starting fresh.";

// ---- Keys -------------------------------------------------------------------

/// The key of a session.
#[derive(Clone, Debug, PartialEq, Eq, Hash)]
pub struct SessionKey {
    text: String,
}

impl View for SessionKey {
    type V = Seq<char>;

    closed spec fn view(&self) -> Seq<char> {
        self.text@
    }
}

/// The key of the session with a user.
pub open spec fn dm_key(user_id: Seq<char>) -> Seq<char> {
    "dm:"@ + user_id
}

/// The key of the session in a channel.
pub open spec fn channel_key(guild_id: Seq<char>, channel_id: Seq<char>) -> Seq<char> {
    "guild:"@ + guild_id + ":channel:"@ + channel_id
}

/// The key of the session in a thread.
pub open spec fn thread_key(guild_id: Seq<char>, thread_id: Seq<char>) -> Seq<char> {
    "guild:"@ + guild_id + ":thread:"@ + thread_id
}

/// The directory of a session's generations.
pub open spec fn key_directory(data_dir: Seq<char>, key: Seq<char>) -> Seq<char> {
    paths::joined(paths::joined(data_dir, "sessions"@), encoding::hex_text(encode_utf8(key)))
}

impl SessionKey {
    /// The key of the session with a user.
    pub fn dm(user_id: &str) -> (key: SessionKey)
        ensures
            key@ == dm_key(user_id@),
    {
        let mut text = "dm:".to_owned();
        text.append(user_id);
        SessionKey { text }
    }

    /// The key of the session in a channel.
    pub fn guild_channel(guild_id: &str, channel_id: &str) -> (key: SessionKey)
        ensures
            key@ == channel_key(guild_id@, channel_id@),
    {
        let mut text = "guild:".to_owned();
        text.append(guild_id);
        text.append(":channel:");
        text.append(channel_id);
        SessionKey { text }
    }

    /// The key of the session in a thread.
    pub fn guild_thread(guild_id: &str, thread_id: &str) -> (key: SessionKey)
        ensures
            key@ == thread_key(guild_id@, thread_id@),
    {
        let mut text = "guild:".to_owned();
        text.append(guild_id);
        text.append(":thread:");
        text.append(thread_id);
        SessionKey { text }
    }

    /// The directory of the session's generations.
    pub fn directory(&self, data_dir: &str) -> (path: String)
        ensures
            path@ == key_directory(data_dir@, self@),
    {
        let name = text::from_chars(encoding::hex(self.text.as_str().as_bytes()).as_slice());
        paths::join(paths::join(data_dir, "sessions").as_str(), name.as_str())
    }

    /// The key.
    pub fn as_str(&self) -> (s: &str)
        ensures
            s@ == self@,
    {
        self.text.as_str()
    }
}

/// The key of the earlier messages of a channel, a thread or a user.
pub open spec fn history_key_text(
    guild_id: Option<Seq<char>>,
    channel_id: Seq<char>,
    author_id: Option<Seq<char>>,
) -> Seq<char> {
    match guild_id {
        Some(guild_id) => channel_key(guild_id, channel_id),
        None => dm_key(
            match author_id {
                Some(id) => id,
                None => Seq::empty(),
            },
        ),
    }
}

/// The key of the earlier messages of a channel, a thread or a user: a thread has
/// its own, whatever channel it belongs to.
pub fn history_key(
    guild_id: Option<&str>,
    channel_id: &str,
    _parent_channel_id: Option<&str>,
    author_id: Option<&str>,
) -> (key: String)
    ensures
        key@ == history_key_text(
            text::opt_str_view(guild_id),
            channel_id@,
            text::opt_str_view(author_id),
        ),
{
    match guild_id {
        Some(guild_id) => SessionKey::guild_channel(guild_id, channel_id).text,
        None => match author_id {
            Some(id) => SessionKey::dm(id).text,
            None => {
                let key = "dm:".to_owned();
                assert(key@ =~= "dm:"@ + Seq::<char>::empty());
                key
            },
        },
    }
}

// ---- Expiry -----------------------------------------------------------------

/// A file of a session holds what it should not.
#[derive(Clone, Copy, Debug, PartialEq, Eq, Structural)]
pub enum SessionError {
    InvalidActivity,
    InvalidGeneration,
    GenerationOverflow,
}

impl SessionError {
    /// What is wrong.
    pub fn message(&self) -> (text: &'static str)
        ensures
            text@ == (match *self {
                SessionError::InvalidActivity => "invalid last_activity"@,
                SessionError::InvalidGeneration => "invalid current generation"@,
                SessionError::GenerationOverflow => "generation overflow"@,
            }),
    {
        match self {
            SessionError::InvalidActivity => "invalid last_activity",
            SessionError::InvalidGeneration => "invalid current generation",
            SessionError::GenerationOverflow => "generation overflow",
        }
    }
}

/// The number in a file, if there is a file and a number fits in it.
pub open spec fn stored_number(content: Seq<char>) -> Option<nat> {
    match text::numeral(text::trimmed(content)) {
        Some(n) => if n <= u64::MAX {
            Some(n)
        } else {
            None
        },
        None => None,
    }
}

fn read_number(content: &str) -> (r: Option<u64>)
    ensures
        match r {
            Some(n) => stored_number(content@) == Some(n as nat),
            None => stored_number(content@) is None,
        },
{
    let chars = text::to_chars(content);
    text::parse_number(text::trim(chars.as_slice()), u64::MAX)
}

/// When a session was last used, as its file says; not known where there is none.
pub fn read_activity(content: Option<&str>) -> (r: Result<Option<u64>, SessionError>)
    ensures
        match r {
            Ok(Some(n)) => content is Some && stored_number(content->0@) == Some(n as nat),
            Ok(None) => content is None,
            Err(e) => content is Some && stored_number(content->0@) is None && e
                == SessionError::InvalidActivity,
        },
{
    match content {
        Some(s) => match read_number(s) {
            Some(n) => Ok(Some(n)),
            None => Err(SessionError::InvalidActivity),
        },
        None => Ok(None),
    }
}

/// The current generation of a session, as its file says; none where there is no
/// file.
pub fn read_current(content: Option<&str>) -> (r: Result<Option<u64>, SessionError>)
    ensures
        match r {
            Ok(Some(n)) => content is Some && stored_number(content->0@) == Some(n as nat),
            Ok(None) => content is None,
            Err(e) => content is Some && stored_number(content->0@) is None && e
                == SessionError::InvalidGeneration,
        },
{
    match content {
        Some(s) => match read_number(s) {
            Some(n) => Ok(Some(n)),
            None => Err(SessionError::InvalidGeneration),
        },
        None => Ok(None),
    }
}

/// Whether the session whose activity file holds `activity` has expired by `now`. Where
/// sessions never expire the file is not looked at.
pub open spec fn expired_by(activity: Option<Seq<char>>, idle_minutes: u64, now: u64) -> Result<
    bool,
    SessionError,
> {
    if idle_minutes == 0 {
        Ok(false)
    } else {
        match activity {
            Some(content) => match stored_number(content) {
                Some(last) => Ok(generations::expired(idle_minutes, last as u64, now)),
                None => Err(SessionError::InvalidActivity),
            },
            None => Ok(false),
        }
    }
}

/// Whether the session whose activity file holds `activity` has expired by `now`.
/// Where sessions never expire the file is not looked at.
pub fn is_expired(activity: Option<&str>, idle_minutes: u64, now: u64) -> (r: Result<
    bool,
    SessionError,
>)
    ensures
        r == expired_by(text::opt_str_view(activity), idle_minutes, now),
{
    if idle_minutes == 0 {
        return Ok(false);
    }
    match read_activity(activity) {
        Ok(Some(last)) => Ok(generations::is_expired(idle_minutes, last, now)),
        Ok(None) => Ok(false),
        Err(e) => Err(e),
    }
}

/// What a file that holds the time `now` says.
pub fn activity_text(now: u64) -> (s: String)
    ensures
        s@ == text::decimal(now as nat),
{
    text::from_chars(text::decimal_chars(now).as_slice())
}

/// Whether a thread that the bot was spoken to in is still in conversation: its
/// session has not expired. Where that cannot be told it is not.
pub fn is_active_engagement(
    activity: Option<&str>,
    engaged: bool,
    idle_minutes: u64,
    now: u64,
) -> (b: bool)
    ensures
        b == (engaged && expired_by(text::opt_str_view(activity), idle_minutes, now) == Ok::<
            bool,
            SessionError,
        >(false)),
{
    match is_expired(activity, idle_minutes, now) {
        Ok(expired) => !expired && engaged,
        Err(_) => false,
    }
}

// ---- Generations ------------------------------------------------------------

/// The directory of a generation: the session's own where it has none.
pub open spec fn generation_directory(base: Seq<char>, generation: Option<u64>) -> Seq<char> {
    match generation {
        Some(n) => paths::joined(base, text::decimal(n as nat)),
        None => base,
    }
}

/// The directory of the current generation: the session's own where it has none.
pub fn current_directory(base: &str, generation: Option<u64>) -> (path: String)
    ensures
        path@ == generation_directory(base@, generation),
{
    match generation {
        Some(n) => paths::join_number(base, n),
        None => base.to_owned(),
    }
}

fn contains_number(list: &[u64], n: u64) -> (b: bool)
    ensures
        b == list@.contains(n),
{
    let mut i: usize = 0;
    while i < list.len()
        invariant
            i <= list@.len(),
            forall|j: int| 0 <= j < i ==> list@[j] != n,
        decreases list@.len() - i,
    {
        if list[i] == n {
            return true;
        }
        i = i + 1;
    }
    false
}

/// The generation after the current one: the first that does not exist yet.
pub fn next_generation(current: Option<u64>, existing: &[u64]) -> (r: Result<u64, SessionError>)
    ensures
        ({
            let from = match current {
                Some(n) => n as int,
                None => 0,
            };
            match r {
                Ok(n) => n > from && !existing@.contains(n) && forall|k: u64|
                    from < k < n ==> #[trigger] existing@.contains(k),
                Err(e) => e == SessionError::GenerationOverflow && forall|k: u64|
                    from < k ==> #[trigger] existing@.contains(k),
            }
        }),
{
    let from: u64 = match current {
        Some(n) => n,
        None => 0,
    };
    if from == u64::MAX {
        return Err(SessionError::GenerationOverflow);
    }
    let mut n: u64 = from + 1;
    while contains_number(existing, n)
        invariant
            from == (match current {
                Some(n) => n,
                None => 0u64,
            }),
            n > from,
            forall|k: u64| from < k < n ==> #[trigger] existing@.contains(k),
        decreases u64::MAX - n,
    {
        if n == u64::MAX {
            return Err(SessionError::GenerationOverflow);
        }
        n = n + 1;
    }
    Ok(n)
}

/// The first number from `n` on that is not among `existing`.
pub open spec fn first_free(n: int, existing: Seq<u64>) -> Option<int>
    decreases u64::MAX + 1 - n,
{
    if n > u64::MAX {
        None
    } else if existing.contains(n as u64) {
        first_free(n + 1, existing)
    } else {
        Some(n)
    }
}

proof fn lemma_first_free(n: int, m: int, existing: Seq<u64>)
    requires
        0 <= n <= m <= u64::MAX + 1,
        forall|k: u64| n <= k < m ==> #[trigger] existing.contains(k),
        m <= u64::MAX ==> !existing.contains(m as u64),
    ensures
        first_free(n, existing) == if m <= u64::MAX {
            Some(m)
        } else {
            None::<int>
        },
    decreases m - n,
{
    if n < m {
        assert(existing.contains(n as u64));
        lemma_first_free(n + 1, m, existing);
    }
}

/// A first free number is free, and none before it is.
proof fn lemma_free(n: int, existing: Seq<u64>)
    requires
        0 <= n,
    ensures
        first_free(n, existing) is Some ==> ({
            let m = first_free(n, existing)->0;
            n <= m <= u64::MAX && !existing.contains(m as u64)
        }),
    decreases u64::MAX + 1 - n,
{
    if n <= u64::MAX && existing.contains(n as u64) {
        lemma_free(n + 1, existing);
    }
}

/// The generation that an entry of a session's directory is named after, if it is named
/// after one.
pub fn named_generation(name: &str) -> (r: Option<u64>)
    ensures
        match r {
            Some(n) => name@ == text::decimal(n as nat),
            None => forall|n: u64| name@ != #[trigger] text::decimal(n as nat),
        },
{
    let chars = text::to_chars(name);
    match text::parse_number(chars.as_slice(), u64::MAX) {
        Some(n) => {
            let canonical = text::decimal_chars(n);
            if text::chars_eq(canonical.as_slice(), chars.as_slice()) {
                return Some(n);
            }
            proof {
                assert forall|m: u64| name@ != #[trigger] text::decimal(m as nat) by {
                    lemma_stored(m);
                }
            }
            None
        },
        None => {
            proof {
                assert forall|m: u64| name@ != #[trigger] text::decimal(m as nat) by {
                    lemma_stored(m);
                }
            }
            None
        },
    }
}

/// What is stored of a session.
#[derive(Clone, Debug, PartialEq, Eq)]
pub struct SessionState {
    /// What the file says that holds when the session was last used.
    pub activity: Option<String>,
    /// What the file says that names the current generation.
    pub current: Option<String>,
    /// The generations that have a directory.
    pub existing: Vec<u64>,
    /// Whether the bot is in conversation, as the current generation says.
    pub engaged: bool,
}

/// What a state is.
#[verifier::ext_equal]
pub struct StateView {
    pub activity: Option<Seq<char>>,
    pub current: Option<Seq<char>>,
    pub existing: Seq<u64>,
    pub engaged: bool,
}

impl View for SessionState {
    type V = StateView;

    open spec fn view(&self) -> StateView {
        StateView {
            activity: text::opt_view(self.activity),
            current: text::opt_view(self.current),
            existing: self.existing@,
            engaged: self.engaged,
        }
    }
}

/// The number of the current generation, and zero where there is none yet.
pub open spec fn current_number(s: StateView) -> Option<nat> {
    match s.current {
        Some(content) => stored_number(content),
        None => Some(0),
    }
}

/// A session after a reset: it goes on in the first generation after the current one
/// that does not exist yet, in which the bot is in no conversation.
pub open spec fn after_reset(s: StateView) -> Result<StateView, SessionError> {
    match current_number(s) {
        None => Err(SessionError::InvalidGeneration),
        Some(from) => match first_free(from as int + 1, s.existing) {
            None => Err(SessionError::GenerationOverflow),
            Some(n) => Ok(
                StateView {
                    activity: s.activity,
                    current: Some(text::decimal(n as nat)),
                    existing: s.existing.push(n as u64),
                    engaged: false,
                },
            ),
        },
    }
}

/// A session that is used at the time `now`.
pub open spec fn stamped(s: StateView, now: u64) -> StateView {
    StateView { activity: Some(text::decimal(now as nat)), ..s }
}

/// A session that is used at the time `now`, and whether it replaces an expired one.
pub open spec fn after_use(s: StateView, idle_minutes: u64, now: u64) -> Result<
    (StateView, bool),
    SessionError,
> {
    match expired_by(s.activity, idle_minutes, now) {
        Err(e) => Err(e),
        Ok(false) => Ok((stamped(s, now), false)),
        Ok(true) => match after_reset(s) {
            Err(e) => Err(e),
            Ok(fresh) => Ok((stamped(fresh, now), true)),
        },
    }
}

/// Moves on to a fresh generation. A state that cannot be read stays as it is.
pub fn reset(state: &mut SessionState) -> (r: Result<u64, SessionError>)
    ensures
        match r {
            Ok(n) => after_reset(old(state)@) == Ok::<StateView, SessionError>(final(state)@)
                && final(state)@.current == Some(text::decimal(n as nat)),
            Err(e) => after_reset(old(state)@) == Err::<StateView, SessionError>(e)
                && final(state)@ == old(state)@,
        },
{
    let current = match read_current(text::as_text(&state.current)) {
        Ok(current) => current,
        Err(e) => return Err(e),
    };
    let ghost from = match current {
        Some(n) => n as int,
        None => 0,
    };
    match next_generation(current, state.existing.as_slice()) {
        Ok(n) => {
            proof {
                lemma_first_free(from + 1, n as int, state.existing@);
            }
            state.current = Some(text::from_chars(text::decimal_chars(n).as_slice()));
            state.existing.push(n);
            state.engaged = false;
            Ok(n)
        },
        Err(e) => {
            proof {
                lemma_first_free(from + 1, u64::MAX + 1, state.existing@);
            }
            Err(e)
        },
    }
}

/// Notes that a session is used at the time `now`, and says whether an expired one was
/// replaced. A state that cannot be read stays as it is.
pub fn prepare_activity(state: &mut SessionState, idle_minutes: u64, now: u64) -> (r: Result<
    bool,
    SessionError,
>)
    ensures
        match r {
            Ok(expired) => after_use(old(state)@, idle_minutes, now) == Ok::<
                (StateView, bool),
                SessionError,
            >((final(state)@, expired)),
            Err(e) => after_use(old(state)@, idle_minutes, now) == Err::<
                (StateView, bool),
                SessionError,
            >(e) && final(state)@ == old(state)@,
        },
{
    let expired = match is_expired(text::as_text(&state.activity), idle_minutes, now) {
        Ok(expired) => expired,
        Err(e) => return Err(e),
    };
    if expired {
        if let Err(e) = reset(state) {
            return Err(e);
        }
    }
    state.activity = Some(activity_text(now));
    Ok(expired)
}

/// Moves on to a fresh generation, which is used at the time `now`. A state that cannot
/// be read stays as it is.
pub fn reset_with_activity(state: &mut SessionState, now: u64) -> (r: Result<u64, SessionError>)
    ensures
        match r {
            Ok(n) => after_reset(old(state)@) is Ok && final(state)@ == stamped(
                after_reset(old(state)@)->Ok_0,
                now,
            ) && final(state)@.current == Some(text::decimal(n as nat)),
            Err(e) => after_reset(old(state)@) == Err::<StateView, SessionError>(e)
                && final(state)@ == old(state)@,
        },
{
    match reset(state) {
        Ok(n) => {
            state.activity = Some(activity_text(now));
            Ok(n)
        },
        Err(e) => Err(e),
    }
}

/// Notes that the bot is in conversation.
pub fn engage(state: &mut SessionState)
    ensures
        final(state)@ == (StateView { engaged: true, ..old(state)@ }),
{
    state.engaged = true;
}

/// Whether the bot is in conversation, in a generation that can be told.
pub fn is_engaged(state: &SessionState) -> (b: bool)
    ensures
        b == (state@.engaged && current_number(state@) is Some),
{
    match read_current(text::as_text(&state.current)) {
        Ok(_) => state.engaged,
        Err(_) => false,
    }
}

// ---- Resuming ---------------------------------------------------------------

/// Whether a file holds a session of the agent: its name has the extension `jsonl`.
pub open spec fn is_session_file(name: Seq<char>) -> bool {
    urls::ends_with(name, ".jsonl"@) && name.len() > ".jsonl"@.len()
}

/// Whether a file holds a session of the agent.
pub fn session_file(name: &str) -> (b: bool)
    ensures
        b == is_session_file(name@),
{
    proof {
        reveal_strlit(".jsonl");
    }
    let chars = text::to_chars(name);
    chars.len() > 6 && urls::has_suffix(name, ".jsonl")
}

/// The place of the newest file that holds a session of the agent: names begin with
/// dates, so it is the last in order.
pub fn newest_session(names: &Vec<String>) -> (r: Option<usize>)
    ensures
        match r {
            Some(i) => i < names@.len() && is_session_file(names@[i as int]@) && forall|j: int|
                0 <= j < names@.len() && is_session_file((#[trigger] names@[j])@)
                    ==> !text::stands_before(names@[i as int]@, names@[j]@),
            None => forall|j: int|
                0 <= j < names@.len() ==> !is_session_file((#[trigger] names@[j])@),
        },
{
    let mut found: Option<usize> = None;
    let mut k: usize = 0;
    while k < names.len()
        invariant
            k <= names@.len(),
            match found {
                Some(i) => i < k && is_session_file(names@[i as int]@) && forall|j: int|
                    0 <= j < k && is_session_file((#[trigger] names@[j])@)
                        ==> !text::stands_before(names@[i as int]@, names@[j]@),
                None => forall|j: int|
                    0 <= j < k ==> !is_session_file((#[trigger] names@[j])@),
            },
        decreases names@.len() - k,
    {
        if session_file(names[k].as_str()) {
            let later = match found {
                Some(i) => {
                    let a = text::to_chars(names[i].as_str());
                    let b = text::to_chars(names[k].as_str());
                    text::precedes(a.as_slice(), b.as_slice())
                },
                None => true,
            };
            proof {
                text::lemma_order_is_strict(names@[k as int]@, names@[k as int]@);
                if found is Some {
                    let i = found->0 as int;
                    assert forall|j: int|
                        0 <= j < k && is_session_file((#[trigger] names@[j])@)
                            && later implies !text::stands_before(
                        names@[k as int]@,
                        names@[j]@,
                    ) by {
                        if text::stands_before(names@[k as int]@, names@[j]@) {
                            text::lemma_order_is_transitive(
                                names@[i]@,
                                names@[k as int]@,
                                names@[j]@,
                            );
                        }
                    }
                }
            }
            if later {
                found = Some(k);
            }
        }
        k = k + 1;
    }
    found
}

/// The first line from the `k`th on that is not blank.
pub open spec fn first_filled(list: Seq<Seq<char>>, k: int) -> Option<Seq<char>>
    decreases list.len() - k,
{
    if k < 0 || k >= list.len() {
        None
    } else if text::is_blank(list[k]) {
        first_filled(list, k + 1)
    } else {
        Some(list[k])
    }
}

/// The id that an object has under `id`, where it is a text that is not empty.
pub open spec fn member_id(members: Option<Seq<(Seq<char>, json::ScalarView)>>) -> Option<Seq<char>> {
    match members {
        Some(list) => match json::scalar_under(list, "id"@) {
            Some(json::ScalarView::Text(id)) => if id.len() > 0 {
                Some(id)
            } else {
                None
            },
            _ => None,
        },
        None => None,
    }
}

/// The id that an object has under `id`.
pub fn find_member_id(members: Option<&Vec<(String, Scalar)>>) -> (r: Option<String>)
    ensures
        text::opt_view(r) == member_id(
            match members {
                Some(list) => Some(json::scalar_views(list@)),
                None => None,
            },
        ),
{
    match members {
        Some(list) => match json::find_scalar(list, "id") {
            Some(Scalar::Text(id)) => {
                if id.as_str().is_empty() {
                    None
                } else {
                    Some(id.as_str().to_owned())
                }
            },
            _ => None,
        },
        None => None,
    }
}

/// The id of the session that a file of the agent holds: that of its first line.
pub fn resume_id(content: &str) -> (r: Option<String>)
    ensures
        text::opt_view(r) == (match first_filled(lines::lines(content@), 0) {
            Some(line) => member_id(json::json_members(line)),
            None => None,
        }),
{
    let chars = text::to_chars(content);
    let list = lines::split_lines(chars.as_slice());
    let ghost all = text::slice_views(list@);
    let mut k: usize = 0;
    while k < list.len()
        invariant
            all == text::slice_views(list@),
            all == lines::lines(content@),
            k <= list@.len(),
            first_filled(all, 0) == first_filled(all, k as int),
        decreases list@.len() - k,
    {
        assert(all[k as int] == list@[k as int]@);
        if text::trim(list[k]).len() > 0 {
            let line = text::from_chars(list[k]);
            return match json::parse_members(line.as_str()) {
                Some(members) => find_member_id(Some(&members)),
                None => None,
            };
        }
        k = k + 1;
    }
    None
}

// ---- Laws -------------------------------------------------------------------

/// What is stored as a number is read back as the same number.
proof fn lemma_stored(n: u64)
    ensures
        stored_number(text::decimal(n as nat)) == Some(n as nat),
        text::numeral(text::decimal(n as nat)) == Some(n as nat),
{
    text::lemma_numeral_of_decimal(n as nat);
}

/// Of two uses of a session, at `t0` and then at `t1`, the second goes on in the
/// directory of the first unless the idle time has passed between them. Then it goes on
/// in a directory that is new, and the earlier generations stay. Either way the session
/// has not expired at the time of its last use.
pub proof fn sessions_go_on_until_the_idle_time_has_passed(
    base: Seq<char>,
    s: StateView,
    idle: u64,
    t0: u64,
    idle_then: u64,
    t1: u64,
)
    requires
        after_use(s, idle, t0) is Ok,
    ensures
        ({
            let a = (after_use(s, idle, t0)->Ok_0).0;
            let late = idle_then != 0 && t1 >= t0 && t1 - t0 >= generations::idle_seconds(
                idle_then,
            );
            &&& s.activity is None ==> !(after_use(s, idle, t0)->Ok_0).1
            &&& expired_by(a.activity, idle_then, t1) == Ok::<bool, SessionError>(late)
            &&& !late ==> after_use(a, idle_then, t1) is Ok
            &&& after_use(a, idle_then, t1) matches Ok((b, expired)) ==> {
                &&& expired == late
                &&& !expired ==> b == stamped(a, t1)
                &&& expired ==> {
                    let n = b.existing.last();
                    &&& b.existing == a.existing.push(n)
                    &&& !a.existing.contains(n)
                    &&& b.current == Some(text::decimal(n as nat))
                    &&& paths::joined(base, text::decimal(n as nat)) != directory_of(base, a)
                    &&& !b.engaged
                }
                &&& expired_by(b.activity, idle_then, t1) == Ok::<bool, SessionError>(false)
            }
        }),
{
    let a = (after_use(s, idle, t0)->Ok_0).0;
    lemma_stored(t0);
    lemma_stored(t1);
    if let Ok((b, expired)) = after_use(a, idle_then, t1) {
        if expired {
            lemma_reset_moves_on(base, a);
        }
    }
}

/// The directory in which a session goes on: the session's own before it has
/// generations.
pub open spec fn directory_of(base: Seq<char>, s: StateView) -> Seq<char> {
    match s.current {
        Some(content) => paths::joined(base, text::decimal((stored_number(content)->0) as nat)),
        None => base,
    }
}

proof fn lemma_reset_moves_on(base: Seq<char>, s: StateView)
    requires
        after_reset(s) is Ok,
    ensures
        ({
            let r = after_reset(s)->Ok_0;
            let n = r.existing.last();
            &&& r.existing == s.existing.push(n)
            &&& !s.existing.contains(n)
            &&& r.current == Some(text::decimal(n as nat))
            &&& n > current_number(s)->0
            &&& paths::joined(base, text::decimal(n as nat)) != directory_of(base, s)
        }),
{
    let from = current_number(s)->0;
    lemma_free(from as int + 1, s.existing);
    let n = first_free(from as int + 1, s.existing)->0;
    let name = text::decimal(n as nat);
    text::lemma_decimal_digits(n as nat);
    assert(text::is_digit(name[0]));
    if s.current is Some {
        let earlier = text::decimal(from);
        text::lemma_decimal_digits(from);
        assert(text::is_digit(earlier[0]));
        text::lemma_decimal_value(from);
        text::lemma_decimal_value(n as nat);
        paths::names_have_their_own_paths(base, name, earlier);
    } else {
        paths::names_stand_below_their_directory(base, name);
    }
}

/// A reset ends a conversation, whether or not the bot was in one, and counts as a use;
/// it leads to a directory that is new, and the earlier generations stay.
pub proof fn resets_end_conversations(
    base: Seq<char>,
    s: StateView,
    now: u64,
    idle_minutes: u64,
    t: u64,
)
    requires
        after_reset(StateView { engaged: true, ..s }) is Ok,
    ensures
        ({
            let engaged = StateView { engaged: true, ..s };
            let r = stamped(after_reset(engaged)->Ok_0, now);
            let n = r.existing.last();
            &&& !r.engaged
            &&& expired_by(r.activity, idle_minutes, t) == Ok::<bool, SessionError>(
                idle_minutes != 0 && t >= now && t - now >= generations::idle_seconds(idle_minutes),
            )
            &&& r.existing == s.existing.push(n)
            &&& !s.existing.contains(n)
            &&& r.current == Some(text::decimal(n as nat))
            &&& directory_of(base, r) != directory_of(base, s)
        }),
{
    let engaged = StateView { engaged: true, ..s };
    lemma_stored(now);
    lemma_reset_moves_on(base, engaged);
    let r = after_reset(engaged)->Ok_0;
    lemma_stored(r.existing.last());
}

/// Different keys have different directories.
pub proof fn keys_have_their_own_directories(data_dir: Seq<char>, a: Seq<char>, b: Seq<char>)
    requires
        a != b,
    ensures
        key_directory(data_dir, a) != key_directory(data_dir, b),
{
    encoding::names_differ(a, b);
    if encode_utf8(a).len() > 0 {
        encoding::names_hold_no_path_segments(a, 0);
    }
    if encode_utf8(b).len() > 0 {
        encoding::names_hold_no_path_segments(b, 0);
    }
    paths::names_have_their_own_paths(
        paths::joined(data_dir, "sessions"@),
        encoding::hex_text(encode_utf8(a)),
        encoding::hex_text(encode_utf8(b)),
    );
}

/// A user, a channel and a thread never share a session. Ids of guilds hold no
/// colon.
pub proof fn sessions_are_kept_apart(
    guild: Seq<char>,
    channel: Seq<char>,
    guild2: Seq<char>,
    thread: Seq<char>,
    user: Seq<char>,
)
    requires
        !guild.contains(':'),
        !guild2.contains(':'),
    ensures
        dm_key(user) != channel_key(guild, channel),
        dm_key(user) != thread_key(guild2, thread),
        channel_key(guild, channel) != thread_key(guild2, thread),
{
    reveal_strlit("dm:");
    reveal_strlit("guild:");
    reveal_strlit(":channel:");
    reveal_strlit(":thread:");
    let a = channel_key(guild, channel);
    let b = thread_key(guild2, thread);
    assert(dm_key(user)[0] == 'd');
    assert(a[0] == 'g' && b[0] == 'g');
    if a == b {
        let n = 6 + guild.len();
        let m = 6 + guild2.len();
        assert(a[n as int] == ':' && b[m as int] == ':');
        if n < m {
            assert(b[n as int] == guild2[n - 6]);
            assert(guild2.contains(':'));
        } else if m < n {
            assert(a[m as int] == guild[m - 6]);
            assert(guild.contains(':'));
        }
        assert(a[n as int + 1] == 'c' && b[n as int + 1] == 't');
    }
}

/// Two channels, and two threads, of different ids never share a session.
pub proof fn channels_have_their_own_sessions(guild: Seq<char>, a: Seq<char>, b: Seq<char>)
    requires
        a != b,
    ensures
        channel_key(guild, a) != channel_key(guild, b),
        thread_key(guild, a) != thread_key(guild, b),
        dm_key(a) != dm_key(b),
{
    let n = ("guild:"@ + guild + ":channel:"@).len() as int;
    assert(channel_key(guild, a).skip(n) =~= a);
    assert(channel_key(guild, b).skip(n) =~= b);
    let m = ("guild:"@ + guild + ":thread:"@).len() as int;
    assert(thread_key(guild, a).skip(m) =~= a);
    assert(thread_key(guild, b).skip(m) =~= b);
    assert(dm_key(a).skip("dm:"@.len() as int) =~= a);
    assert(dm_key(b).skip("dm:"@.len() as int) =~= b);
}

} // verus!
