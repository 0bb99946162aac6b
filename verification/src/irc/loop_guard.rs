//! The safety core: a hard cap on consecutive bot-to-bot turns.
//!
//! Per conversation the guard counts the bot-authored turns that were answered
//! since the last human message. At the cap the bot stays silent until a human
//! speaks again. Channels and direct messages are counted alike, each under a key
//! of its own.

use crate::keyed::Keyed;
use vstd::prelude::*;
use vstd::string::*;

verus! {

/// Counts consecutive bot turns per conversation and enforces a cap.
#[derive(Debug)]
pub struct LoopGuard {
    /// The most consecutive bot turns that are answered; zero answers none.
    max_bot_turns: u32,
    /// The count of each conversation that has one.
    counts: Keyed<u32>,
}

/// Whether a message is answered when `count` bot turns were answered before it.
pub open spec fn answered(cap: nat, count: nat, from_bot: bool) -> bool {
    !from_bot || count < cap
}

/// The count after a message.
pub open spec fn counted(cap: nat, count: nat, from_bot: bool) -> nat {
    if !from_bot {
        0
    } else if count < cap {
        count + 1
    } else {
        count
    }
}

impl LoopGuard {
    /// The cap.
    pub closed spec fn cap(&self) -> nat {
        self.max_bot_turns as nat
    }

    /// The count of a conversation.
    pub closed spec fn count_of(&self, channel: Seq<char>) -> nat {
        if self.counts@.contains_key(channel) {
            self.counts@[channel] as nat
        } else {
            0
        }
    }

    /// A guard that has counted nothing yet.
    pub fn new(max_bot_turns: u32) -> (guard: LoopGuard)
        ensures
            guard.cap() == max_bot_turns,
            forall|channel: Seq<char>| guard.count_of(channel) == 0,
    {
        LoopGuard { max_bot_turns, counts: Keyed::new() }
    }

    /// Whether the bot may answer a message in `channel`, and counts it: a human
    /// message is always answered and resets the count, a bot message is answered
    /// and counted while the count is below the cap.
    pub fn should_respond(&mut self, sender_is_bot: bool, channel: &str) -> (allowed: bool)
        ensures
            allowed == answered(old(self).cap(), old(self).count_of(channel@), sender_is_bot),
            final(self).cap() == old(self).cap(),
            final(self).count_of(channel@) == counted(
                old(self).cap(),
                old(self).count_of(channel@),
                sender_is_bot,
            ),
            forall|other: Seq<char>|
                other != channel@ ==> #[trigger] final(self).count_of(other) == old(self).count_of(
                    other,
                ),
    {
        if !sender_is_bot {
            self.counts.insert(channel.to_owned(), 0);
            return true;
        }
        let count: u32 = self.count(channel);
        if count >= self.max_bot_turns {
            false
        } else {
            self.counts.insert(channel.to_owned(), count + 1);
            true
        }
    }

    /// Takes note of a human message in `channel` that asks for no answer.
    pub fn note_human(&mut self, channel: &str)
        ensures
            final(self).cap() == old(self).cap(),
            final(self).count_of(channel@) == 0,
            forall|other: Seq<char>|
                other != channel@ ==> #[trigger] final(self).count_of(other) == old(self).count_of(
                    other,
                ),
    {
        self.counts.insert(channel.to_owned(), 0);
    }

    /// The count of a conversation.
    pub fn count(&self, channel: &str) -> (count: u32)
        ensures
            count == self.count_of(channel@),
    {
        match self.counts.get(channel) {
            Some(count) => *count,
            None => 0,
        }
    }
}

// ---- What holds of every conversation ---------------------------------------

/// How many of the messages of a conversation are answered, when it stands at
/// `count`; `from_bot` says for each message whether a bot sent it.
pub open spec fn answers(cap: nat, count: nat, from_bot: Seq<bool>) -> nat
    decreases from_bot.len(),
{
    if from_bot.len() == 0 {
        0
    } else {
        answers(cap, counted(cap, count, from_bot[0]), from_bot.skip(1)) + if answered(
            cap,
            count,
            from_bot[0],
        ) {
            1nat
        } else {
            0nat
        }
    }
}

/// With no human in between, no more bot messages are answered than the cap allows.
pub proof fn bots_alone_are_capped(cap: nat, count: nat, from_bot: Seq<bool>)
    requires
        count <= cap,
        forall|i: int| 0 <= i < from_bot.len() ==> from_bot[i],
    ensures
        answers(cap, count, from_bot) == (if from_bot.len() <= cap - count {
            from_bot.len()
        } else {
            (cap - count) as nat
        }),
    decreases from_bot.len(),
{
    if from_bot.len() > 0 {
        bots_alone_are_capped(cap, counted(cap, count, true), from_bot.skip(1));
    }
}

/// A human message is always answered, and after it the bots have the whole cap again.
pub proof fn a_human_resets_the_cap(cap: nat, count: nat, from_bot: Seq<bool>)
    requires
        forall|i: int| 0 <= i < from_bot.len() ==> from_bot[i],
    ensures
        answered(cap, count, false),
        answers(cap, counted(cap, count, false), from_bot) == (if from_bot.len() <= cap {
            from_bot.len()
        } else {
            cap
        }),
{
    bots_alone_are_capped(cap, 0, from_bot);
}

/// The count never passes the cap.
pub proof fn the_count_never_passes_the_cap(cap: nat, count: nat, from_bot: bool)
    requires
        count <= cap,
    ensures
        counted(cap, count, from_bot) <= cap,
{
}

} // verus!
