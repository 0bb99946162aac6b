use dar_extensions::irc::session::{
    is_reset_command, reset_authorized, MigrationError, Pointer, RootEntry, SessionAction,
    SessionsConfig, Store,
};

#[test]
fn defaults_commands_and_authorization() {
    let config = SessionsConfig::default();
    assert_eq!(config.idle_minutes, 360);
    assert!(config.reset_users.is_empty());
    assert!(is_reset_command(" /new "));
    assert!(is_reset_command("/reset"));
    assert!(!is_reset_command("/reset now"));
    assert!(reset_authorized("any", &[]));
    assert!(reset_authorized("ALICE", &["Alice".into()]));
    assert!(!reset_authorized("bob", &["Alice".into()]));
}

#[test]
fn malformed_generation_names_are_rejected() {
    for name in ["--", "1-", "-1", "1--2"] {
        assert!(!Store::valid_generation(name), "accepted {name}");
    }
    assert!(Store::valid_generation("1-000001"));
}

fn pointer(last_activity: u64) -> Pointer {
    Pointer {
        generation: "100-000001".to_string(),
        last_activity,
    }
}

#[test]
fn ttl_boundary_and_zero() {
    let store = Store::new("root", "x");
    assert_eq!(store.base(), "root/x");
    let live = store.prepare(Some(pointer(100)), 360, 100 + 359 * 60);
    assert!(!live.expired);
    assert_eq!(
        live.action,
        SessionAction::Reuse(pointer(100 + 359 * 60))
    );
    let expired = store.prepare(Some(pointer(100 + 359 * 60)), 360, 100 + 719 * 60);
    assert!(expired.expired);
    assert_eq!(expired.action, SessionAction::Rotate);

    let zero = store.prepare(Some(pointer(0)), 0, u64::MAX);
    assert!(!zero.expired);
    assert_eq!(zero.action, SessionAction::Reuse(pointer(u64::MAX)));
}

#[test]
fn first_reset_archives_legacy_before_fresh_generation() {
    let store = Store::new("root", "x");
    assert_eq!(
        store.reset(false),
        vec![SessionAction::Migrate, SessionAction::Rotate]
    );
    assert_eq!(store.reset(true), vec![SessionAction::Rotate]);
}

fn entry(name: &str, marked: bool) -> RootEntry {
    RootEntry {
        name: name.to_string(),
        is_dir: true,
        marked,
    }
}

#[test]
fn interrupted_marked_migration_resumes_same_generation_without_nesting() {
    let store = Store::new("root", "x");
    let entries = vec![
        RootEntry {
            name: "remaining.jsonl".to_string(),
            is_dir: false,
            marked: false,
        },
        entry("1-000001", true),
    ];
    assert_eq!(Store::migration_generation(&entries), Ok(Some(1)));
    assert_eq!(store.prepare(None, 360, 2).action, SessionAction::Migrate);
}

#[test]
fn unmarked_migration_generation_recovers_but_ambiguous_candidates_error() {
    assert_eq!(
        Store::migration_generation(&vec![entry("1-000001", false)]),
        Ok(Some(0))
    );
    assert_eq!(
        Store::migration_generation(&vec![entry("1-000001", false), entry("1-000002", false)]),
        Err(MigrationError::Ambiguous)
    );
    assert_eq!(
        Store::migration_generation(&vec![entry("notes", true)]),
        Err(MigrationError::Malformed)
    );
    assert_eq!(Store::migration_generation(&vec![]), Ok(None));
}

#[test]
fn the_pointer_and_its_drafts_are_no_entries() {
    assert!(!Store::is_root_entry("current.json"));
    assert!(Store::is_root_entry("current"));
    assert!(!Store::is_root_entry(".current-17.tmp"));
    assert!(Store::is_root_entry("currently"));
    assert!(Store::is_root_entry("100-000001"));
}

#[test]
fn a_pointer_follows_from_an_action() {
    let store = Store::new("root", "x");
    let first = store.prepare(None, 360, 100);
    assert!(!first.expired);
    assert_eq!(first.action, SessionAction::Migrate);
    let pointer = Store::pointer_after(first.action, "100-000001", 100);
    assert_eq!(pointer.generation, "100-000001");
    assert_eq!(pointer.last_activity, 100);
    let again = store.prepare(Some(pointer.clone()), 360, 100 + 359 * 60);
    assert!(!again.expired);
    let kept = Store::pointer_after(again.action, "ignored", 100 + 359 * 60);
    assert_eq!(kept.generation, "100-000001");
    assert_eq!(kept.last_activity, 100 + 359 * 60);
    let late = store.prepare(Some(pointer), 360, 100 + 360 * 60);
    assert!(late.expired);
    let fresh = Store::pointer_after(late.action, "21700-000002", 21_700);
    assert_eq!(fresh.generation, "21700-000002");
}

#[test]
fn older_files_are_moved_on_migration_alone() {
    let entries = |names: &[&str]| names.iter().map(|name| name.to_string()).collect::<Vec<_>>();
    let all = entries(&["old.jsonl", "current.json", ".current-3.tmp", "1-000001", "notes"]);
    assert_eq!(
        Store::moved_by(&SessionAction::Migrate, &all, "1-000001"),
        entries(&["old.jsonl", "notes"])
    );
    assert!(Store::moved_by(&SessionAction::Rotate, &all, "1-000001").is_empty());
    let store = Store::new("root", "x");
    let actions = store.reset(false);
    assert_eq!(actions, vec![SessionAction::Migrate, SessionAction::Rotate]);
    assert_eq!(store.reset(true), vec![SessionAction::Rotate]);
}
