use dar_extensions::irc::loop_guard::LoopGuard;

#[test]
fn human_sender_always_allowed_and_resets() {
    let mut g = LoopGuard::new(2);
    assert!(g.should_respond(false, "#room"));
    assert!(g.should_respond(false, "#room"));
    assert_eq!(g.count("#room"), 0);
}

#[test]
fn cap_suppresses_after_consecutive_bot_turns() {
    let mut g = LoopGuard::new(2);
    // Two bot turns are allowed...
    assert!(g.should_respond(true, "#room"));
    assert!(g.should_respond(true, "#room"));
    // ...the third and beyond are suppressed.
    assert!(!g.should_respond(true, "#room"));
    assert!(!g.should_respond(true, "#room"));
}

#[test]
fn human_message_resets_the_cap() {
    let mut g = LoopGuard::new(2);
    assert!(g.should_respond(true, "#room"));
    assert!(g.should_respond(true, "#room"));
    assert!(!g.should_respond(true, "#room")); // capped
    // A human speaks: counter resets.
    assert!(g.should_respond(false, "#room"));
    assert_eq!(g.count("#room"), 0);
    // Bot turns are allowed again, up to the cap.
    assert!(g.should_respond(true, "#room"));
    assert!(g.should_respond(true, "#room"));
    assert!(!g.should_respond(true, "#room"));
}

#[test]
fn note_human_resets_without_a_turn() {
    let mut g = LoopGuard::new(3);
    assert!(g.should_respond(true, "#room"));
    assert!(g.should_respond(true, "#room"));
    assert_eq!(g.count("#room"), 2);
    g.note_human("#room");
    assert_eq!(g.count("#room"), 0);
}

#[test]
fn per_channel_isolation() {
    let mut g = LoopGuard::new(1);
    // Cap out #a.
    assert!(g.should_respond(true, "#a"));
    assert!(!g.should_respond(true, "#a"));
    // #b is unaffected.
    assert!(g.should_respond(true, "#b"));
    assert!(!g.should_respond(true, "#b"));
    // A human in #a does not touch #b's (already capped) state.
    assert!(g.should_respond(false, "#a"));
    assert!(!g.should_respond(true, "#b"));
    assert!(g.should_respond(true, "#a"));
}

#[test]
fn dm_and_channel_keys_are_isolated() {
    // DMs ARE guarded (the loop keys them as `dm:<nick>`), but each
    // conversation is an independent bucket, so a capped channel never mutes a
    // DM and vice versa. Capping `#room` leaves the `dm:alice` key fresh.
    let mut g = LoopGuard::new(1);
    assert!(g.should_respond(true, "#room"));
    assert!(!g.should_respond(true, "#room"));
    assert!(g.should_respond(true, "dm:alice"));
}

#[test]
fn zero_cap_blocks_all_bot_turns() {
    let mut g = LoopGuard::new(0);
    assert!(!g.should_respond(true, "#room"));
    // Humans still allowed.
    assert!(g.should_respond(false, "#room"));
    assert!(!g.should_respond(true, "#room"));
}

#[test]
fn interleaved_human_and_bot_keeps_counter_bounded() {
    let mut g = LoopGuard::new(2);
    for _ in 0..100 {
        // Every bot turn is preceded by a human one => never caps.
        assert!(g.should_respond(false, "#room"));
        assert!(g.should_respond(true, "#room"));
    }
    assert_eq!(g.count("#room"), 1);
}

#[test]
fn unknown_channel_count_is_zero() {
    let g = LoopGuard::new(2);
    assert_eq!(g.count("#never-seen"), 0);
}
