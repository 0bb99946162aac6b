use dar_extensions::generations::is_expired;
use dar_extensions::telegram::session::{parse_reset_command, Pointer, ResetCommand, SessionStore};

#[test]
fn parses_bare_reset_commands() {
    assert_eq!(parse_reset_command("/new"), Some(ResetCommand::New));
    assert_eq!(parse_reset_command("/reset"), Some(ResetCommand::Reset));
    assert_eq!(parse_reset_command("  /new  "), Some(ResetCommand::New));
}

#[test]
fn parses_bot_suffixed_reset_commands() {
    assert_eq!(parse_reset_command("/new@mybot"), Some(ResetCommand::New));
    assert_eq!(
        parse_reset_command("/reset@some_bot"),
        Some(ResetCommand::Reset)
    );
}

#[test]
fn command_with_args_is_not_a_reset() {
    assert_eq!(parse_reset_command("/new please"), None);
    assert_eq!(parse_reset_command("/reset now"), None);
    assert_eq!(parse_reset_command("/new@bot extra"), None);
}

#[test]
fn unrelated_or_malformed_text_is_not_a_reset() {
    assert_eq!(parse_reset_command("hello"), None);
    assert_eq!(parse_reset_command("/newish"), None);
    assert_eq!(parse_reset_command("/new@"), None);
    assert_eq!(parse_reset_command("/start"), None);
    assert_eq!(parse_reset_command(""), None);
}

#[test]
fn zero_idle_minutes_never_expires() {
    assert!(!is_expired(0, 0, u64::MAX));
}

#[test]
fn default_window_expires_after_360_minutes() {
    let last = 1_000_000;
    // 359 minutes: still live.
    assert!(!is_expired(360, last, last + 359 * 60));
    // Exactly 360 minutes: expired.
    assert!(is_expired(360, last, last + 360 * 60));
    assert!(is_expired(360, last, last + 500 * 60));
}

fn pointer(generation: &str, last_inbound: u64) -> Pointer {
    Pointer {
        generation: generation.to_string(),
        last_inbound,
    }
}

#[test]
fn first_message_starts_generation_without_rotation_notice() {
    let store = SessionStore::new("root", 42);
    let prepared = store.prepare_inbound(None, &[], 360, 1_000, 0);
    assert!(
        !prepared.rotated,
        "first ever message must not notice-expire"
    );
    assert_eq!(prepared.session_dir, "root/42/1000-000000");
    assert_eq!(store.pointer_path(), "root/42/current.json");
}

#[test]
fn live_session_is_reused_within_window() {
    let store = SessionStore::new("root", 7);
    let first = store.prepare_inbound(None, &[], 360, 1_000, 0);
    let again = store.prepare_inbound(Some(&first.pointer), &[], 360, 1_000 + 60, 1);
    assert!(!again.rotated);
    assert_eq!(first.session_dir, again.session_dir);
    assert_eq!(again.pointer.last_inbound, 1_060);
}

#[test]
fn expired_session_rotates_and_flags_notice() {
    let store = SessionStore::new("root", 9);
    let first = store.prepare_inbound(None, &[], 360, 1_000, 0);
    let later = store.prepare_inbound(Some(&first.pointer), &[], 360, 1_000 + 360 * 60, 1);
    assert!(later.rotated, "idle-expired message must flag the notice");
    assert_ne!(first.session_dir, later.session_dir);
}

#[test]
fn zero_idle_minutes_never_rotates_on_prepare() {
    let store = SessionStore::new("root", 11);
    let first = store.prepare_inbound(None, &[], 0, 1_000, 0);
    let much_later = store.prepare_inbound(Some(&first.pointer), &[], 0, 1_000 + 10_000 * 60, 1);
    assert!(!much_later.rotated);
    assert_eq!(first.session_dir, much_later.session_dir);
}

#[test]
fn reset_rotates_and_keeps_old_generation() {
    let store = SessionStore::new("root", 13);
    let first = store.prepare_inbound(None, &[], 360, 1_000, 0);
    let fresh = store.reset(2_000, 1);
    assert_ne!(first.session_dir, fresh.session_dir);
    let after = store.prepare_inbound(Some(&fresh.pointer), &[], 360, 2_050, 2);
    assert!(!after.rotated);
    assert_eq!(fresh.session_dir, after.session_dir);
}

#[test]
fn groups_have_directories_of_their_own() {
    let group = SessionStore::new("root", -100123);
    let user = SessionStore::new("root", 100123);
    assert_eq!(group.generation_dir("g"), "root/-100123/g");
    assert_eq!(user.generation_dir("g"), "root/100123/g");
    let least = SessionStore::new("root", i64::MIN);
    assert_eq!(least.generation_dir("g"), format!("root/{}/g", i64::MIN));
}

#[test]
fn upgrades_move_what_was_there() {
    let store = SessionStore::new("root", 1);
    let entries: Vec<String> = ["old.jsonl", "current.json", "1000-000000", "notes"]
        .iter()
        .map(|s| s.to_string())
        .collect();
    let first = store.prepare_inbound(None, &entries, 360, 1_000, 1);
    assert_eq!(first.moved, vec!["old.jsonl", "notes"]);
    let live = pointer("1000-000000", 1_000);
    let next = store.prepare_inbound(Some(&live), &entries, 360, 1_001, 1);
    assert!(next.moved.is_empty());
}

#[test]
fn rotations_in_one_second_have_their_own_directories() {
    let store = SessionStore::new("root", 1);
    assert_ne!(store.reset(5, 0).session_dir, store.reset(5, 1).session_dir);
}
