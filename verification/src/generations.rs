//! Session generations: how they are named, and when a session expires.

use crate::paths;
use crate::text;
use vstd::prelude::*;

verus! {

/// An idle time in seconds, as far as a clock can count.
pub open spec fn idle_seconds(idle_minutes: u64) -> int {
    if idle_minutes * 60 <= u64::MAX {
        idle_minutes * 60
    } else {
        u64::MAX as int
    }
}

/// Whether a session last used at `last` has expired by `now`.
pub open spec fn expired(idle_minutes: u64, last: u64, now: u64) -> bool {
    idle_minutes != 0 && now >= last && now - last >= idle_seconds(idle_minutes)
}

/// Whether a session last used at `last` has expired by `now`.
pub fn is_expired(idle_minutes: u64, last: u64, now: u64) -> (b: bool)
    ensures
        b == expired(idle_minutes, last, now),
{
    if idle_minutes == 0 || now < last {
        return false;
    }
    let limit: u64 = if idle_minutes <= u64::MAX / 60 {
        idle_minutes * 60
    } else {
        u64::MAX
    };
    now - last >= limit
}

/// Whether `name` is that of a generation: digits, a dash and digits.
pub open spec fn names_generation(name: Seq<char>) -> bool {
    let dash = text::next_at(name, '-', 0);
    0 < dash < name.len() - 1 && text::digits_only(name.take(dash)) && text::digits_only(
        name.skip(dash + 1),
    )
}

/// The name of generation number `n` begun at the time `now`.
pub open spec fn generation_at(now: nat, n: nat) -> Seq<char> {
    text::decimal(now) + seq!['-'] + text::zero_padded(n, 6)
}

/// Whether `name` is that of a generation.
pub fn is_generation(name: &str) -> (b: bool)
    ensures
        b == names_generation(name@),
{
    let chars = text::to_chars(name);
    let s = chars.as_slice();
    let dash: usize = text::find_char(s, '-', 0);
    dash > 0 && dash < s.len() && dash < s.len() - 1 && text::all_digits(text::take(s, dash))
        && text::all_digits(text::skip(s, dash + 1))
}

/// The name of generation number `n` begun at the time `now`.
pub fn generation_name(now: u64, n: u64) -> (name: String)
    ensures
        name@ == generation_at(now as nat, n as nat),
        names_generation(name@),
{
    let mut out = text::decimal_chars(now);
    out.push('-');
    let number = text::zero_padded_chars(n, 6);
    text::push_all(&mut out, number.as_slice());
    proof {
        assert(out@ =~= generation_at(now as nat, n as nat));
        generation_names_are_valid(now as nat, n as nat);
    }
    text::from_chars(out.as_slice())
}

// ---- From one use to the next -----------------------------------------------

/// Which generation a session is in, and when it was last used.
#[verifier::ext_equal]
pub struct Mark {
    pub generation: Seq<char>,
    pub last: u64,
}

/// Whether the session of a mark is replaced when it is used at the time `now`.
pub open spec fn is_replaced(mark: Option<Mark>, idle_minutes: u64, now: u64) -> bool {
    match mark {
        Some(mark) => expired(idle_minutes, mark.last, now),
        None => false,
    }
}

/// The mark of a session that is used at the time `now`: it goes on while it lasts,
/// else it begins in the generation `name`.
pub open spec fn carried(
    mark: Option<Mark>,
    idle_minutes: u64,
    now: u64,
    name: Seq<char>,
) -> Mark {
    match mark {
        Some(mark) => if expired(idle_minutes, mark.last, now) {
            Mark { generation: name, last: now }
        } else {
            Mark { generation: mark.generation, last: now }
        },
        None => Mark { generation: name, last: now },
    }
}

/// Whether a mark is of a generation that was begun at `now` or before.
pub open spec fn begun_by(mark: Option<Mark>, now: u64) -> bool {
    match mark {
        Some(mark) => exists|t: nat, n: nat|
            t <= now && mark.generation == #[trigger] generation_at(t, n),
        None => true,
    }
}

/// The name of a generation is no absolute path.
pub proof fn generations_stand_in_a_directory(name: Seq<char>)
    requires
        names_generation(name),
    ensures
        !paths::is_absolute(name),
        name.len() > 0,
{
    let dash = text::next_at(name, '-', 0);
    assert(text::is_digit(name.take(dash)[0]));
}

/// The generation that a session is carried to has the name of one.
pub(crate) proof fn lemma_named(mark: Option<Mark>, idle: u64, now: u64, n: u64)
    requires
        mark is Some ==> begun_by(mark, now) || names_generation(mark->0.generation),
    ensures
        ({
            let name = carried(mark, idle, now, generation_at(now as nat, n as nat)).generation;
            names_generation(name) && !paths::is_absolute(name)
        }),
{
    generation_names_are_valid(now as nat, n as nat);
    if mark is Some && begun_by(mark, now) {
        let (t, k) = choose|t: nat, k: nat|
            t <= now && mark->0.generation == #[trigger] generation_at(t, k);
        generation_names_are_valid(t, k);
    }
    generations_stand_in_a_directory(
        carried(mark, idle, now, generation_at(now as nat, n as nat)).generation,
    );
}

/// Of two uses of a session, at `t0` and then at `t1`, the second goes on where the
/// first was unless the idle time has passed between them; then it begins a generation
/// of its own.
pub proof fn a_session_goes_on_until_the_idle_time_has_passed(
    mark: Option<Mark>,
    idle: u64,
    t0: u64,
    n0: u64,
    idle_then: u64,
    t1: u64,
    n1: u64,
)
    requires
        begun_by(mark, t0),
    ensures
        ({
            let a = carried(mark, idle, t0, generation_at(t0 as nat, n0 as nat));
            let b = carried(Some(a), idle_then, t1, generation_at(t1 as nat, n1 as nat));
            let replaced = is_replaced(Some(a), idle_then, t1);
            &&& replaced <==> idle_then != 0 && t1 >= t0 && t1 - t0 >= idle_seconds(idle_then)
            &&& !replaced ==> b.generation == a.generation
            &&& replaced ==> b.generation != a.generation
            &&& b.last == t1
            &&& t0 <= t1 ==> begun_by(Some(a), t1)
        }),
{
    let a = carried(mark, idle, t0, generation_at(t0 as nat, n0 as nat));
    let (t, n) = if mark is Some && !is_replaced(mark, idle, t0) {
        choose|t: nat, n: nat| t <= t0 && mark->0.generation == #[trigger] generation_at(t, n)
    } else {
        (t0 as nat, n0 as nat)
    };
    assert(a.generation == generation_at(t, n));
    if is_replaced(Some(a), idle_then, t1) {
        generations_have_their_own_names(t, n, t1 as nat, n1 as nat);
    }
}

// ---- Names and times --------------------------------------------------------

/// The names that generations are given are names of generations.
pub proof fn generation_names_are_valid(now: nat, n: nat)
    ensures
        names_generation(generation_at(now, n)),
{
    lemma_name_parts(now, n);
    text::lemma_decimal_digits(now);
    text::lemma_decimal_digits(n);
    assert(text::digits_only(text::zero_padded(n, 6)));
}

/// No two generations have the same name.
pub proof fn generations_have_their_own_names(now: nat, n: nat, later: nat, m: nat)
    requires
        now != later || n != m,
    ensures
        generation_at(now, n) != generation_at(later, m),
{
    let a = generation_at(now, n);
    let b = generation_at(later, m);
    lemma_name_parts(now, n);
    lemma_name_parts(later, m);
    if a == b {
        text::lemma_decimal_value(now);
        text::lemma_decimal_value(later);
        text::lemma_padded_value(n, 6);
        text::lemma_padded_value(m, 6);
    }
}

/// The parts of a generation's name.
proof fn lemma_name_parts(now: nat, n: nat)
    ensures
        ({
            let name = generation_at(now, n);
            let dash = text::next_at(name, '-', 0);
            &&& 0 < dash < name.len() - 1
            &&& name.take(dash) == text::decimal(now)
            &&& name.skip(dash + 1) == text::zero_padded(n, 6)
        }),
{
    let name = generation_at(now, n);
    let a = text::decimal(now);
    let b = text::zero_padded(n, 6);
    text::lemma_decimal_digits(now);
    text::lemma_decimal_digits(n);
    assert(b.len() >= 1);
    assert forall|i: int| 0 <= i < a.len() implies name[i] != '-' by {
        assert(text::is_digit(a[i]));
    }
    text::lemma_next_at(name, '-', 0);
    assert(name[a.len() as int] == '-');
    let dash = text::next_at(name, '-', 0);
    if dash < a.len() {
        assert(name[dash] == '-');
    }
    assert(dash == a.len());
    assert(name.take(dash) =~= a);
    assert(name.skip(dash + 1) =~= b);
}

/// A session never expires where the idle time is zero; else it lives until the
/// idle time has passed since its last use, and no longer.
pub proof fn sessions_live_until_the_idle_time_has_passed(idle_minutes: u64, last: u64, now: u64)
    ensures
        !expired(0, last, now),
        idle_minutes > 0 && last <= now ==> (expired(idle_minutes, last, now) <==> now - last
            >= idle_seconds(idle_minutes)),
        now < last ==> !expired(idle_minutes, last, now),
{
}

/// An expired session stays expired.
pub proof fn expiry_is_final(idle_minutes: u64, last: u64, now: u64, later: u64)
    requires
        expired(idle_minutes, last, now),
        now <= later,
    ensures
        expired(idle_minutes, last, later),
{
}

} // verus!
