use dar_extensions::discord::session::{
    activity_text, current_directory, engage, history_key, is_active_engagement, is_engaged,
    is_expired, named_generation, newest_session, next_generation, prepare_activity,
    read_activity, read_current, reset, reset_with_activity, resume_id, session_file,
    SessionError, SessionKey, SessionState,
};

fn empty() -> SessionState {
    SessionState {
        activity: None,
        current: None,
        existing: vec![],
        engaged: false,
    }
}

fn expired(state: &SessionState, idle_minutes: u64, now: u64) -> Result<bool, SessionError> {
    is_expired(state.activity.as_deref(), idle_minutes, now)
}

fn directory(state: &SessionState) -> String {
    current_directory("base", read_current(state.current.as_deref()).unwrap())
}

#[test]
fn dm_keys_are_distinct_and_safe() {
    assert_ne!(
        SessionKey::dm("1").directory("data"),
        SessionKey::dm("2").directory("data")
    );
    assert!(!SessionKey::dm("../bad").directory("data").contains(".."));
}

#[test]
fn thread_keys_are_isolated_from_parent() {
    assert_ne!(
        SessionKey::guild_channel("g", "c"),
        SessionKey::guild_thread("g", "t")
    );
}

#[test]
fn history_is_scoped() {
    assert_ne!(
        history_key(Some("g"), "t", Some("c"), Some("u")),
        history_key(Some("g"), "c", None, Some("u"))
    );
    assert_ne!(
        history_key(None, "dm", None, Some("1")),
        history_key(None, "dm", None, Some("2"))
    );
}

#[test]
fn resolves_newest_persisted_backend_session() {
    let names = vec![
        "2025-01-01_old.jsonl".to_string(),
        "2025-02-01_new.jsonl".to_string(),
    ];
    assert!(names.iter().all(|name| session_file(name)));
    assert!(!session_file("session.json"));
    assert_eq!(newest_session(&names), Some(1));
    assert_eq!(newest_session(&vec![]), None);
    assert_eq!(resume_id("{\"id\":\"new\"}\n").as_deref(), Some("new"));
    assert_eq!(resume_id("{\"id\":\"\u{e9}\"}\nmore").as_deref(), Some("\u{e9}"));
    assert_eq!(resume_id("nonsense"), None);
    assert_eq!(resume_id(""), None);
}

#[test]
fn reset_skips_existing_and_preserves_old() {
    let key = SessionKey::dm("42");
    assert_eq!(key.as_str(), "dm:42");
    let base = key.directory("data");
    let old = current_directory(&base, None);
    let next = next_generation(None, &[1]).unwrap();
    assert_eq!(next, 2);
    let fresh = current_directory(&base, Some(next));
    assert!(fresh.ends_with("/2"));
    assert_ne!(old, fresh);
    assert_eq!(
        next_generation(Some(u64::MAX), &[]),
        Err(SessionError::GenerationOverflow)
    );
    let mut state = SessionState {
        existing: vec![1],
        ..empty()
    };
    assert_eq!(reset(&mut state), Ok(2));
    assert_eq!(state.current.as_deref(), Some("2"));
    assert_eq!(state.existing, vec![1, 2]);
}

#[test]
fn generations_are_told_by_their_names() {
    assert_eq!(named_generation("7"), Some(7));
    assert_eq!(named_generation("18446744073709551615"), Some(u64::MAX));
    assert_eq!(named_generation("18446744073709551616"), None);
    assert_eq!(named_generation("07"), None);
    assert_eq!(named_generation("+7"), None);
    assert_eq!(named_generation("current"), None);
    assert_eq!(named_generation(""), None);
}

#[test]
fn ttl_boundary_zero_and_legacy() {
    let stamp = activity_text(100);
    assert_eq!(is_expired(None, 360, 100), Ok(false));
    assert_eq!(is_expired(Some(&stamp), 360, 100 + 359 * 60), Ok(false));
    assert_eq!(is_expired(Some(&stamp), 360, 100 + 360 * 60), Ok(true));
    assert_eq!(is_expired(Some("0"), 0, u64::MAX), Ok(false));
    let mut state = empty();
    assert_eq!(prepare_activity(&mut state, 360, 100), Ok(false));
    let legacy = directory(&state);
    assert_eq!(legacy, "base");
    assert_eq!(expired(&state, 360, 100 + 359 * 60), Ok(false));
    assert_eq!(prepare_activity(&mut state, 360, 100 + 360 * 60), Ok(true));
    let fresh = directory(&state);
    assert_ne!(legacy, fresh);
    assert_eq!(fresh, "base/1");
    assert_eq!(expired(&state, 360, 100 + 360 * 60), Ok(false));
    assert_eq!(prepare_activity(&mut empty(), 0, u64::MAX), Ok(false));
}

#[test]
fn corrupt_metadata_errors_and_engagement_fails_closed() {
    assert_eq!(read_activity(Some("bad")), Err(SessionError::InvalidActivity));
    assert_eq!(
        is_expired(Some("bad"), 1, 2),
        Err(SessionError::InvalidActivity)
    );
    assert!(!is_active_engagement(Some("bad"), true, 1, 2));
    assert_eq!(
        read_current(Some("bad")),
        Err(SessionError::InvalidGeneration)
    );
    assert_eq!(read_current(None), Ok(None));
    assert_eq!(read_current(Some("3")), Ok(Some(3)));
    assert!(!SessionError::InvalidActivity.message().is_empty());
    let mut state = SessionState {
        activity: Some("bad".to_string()),
        engaged: true,
        ..empty()
    };
    assert_eq!(
        prepare_activity(&mut state, 1, 2),
        Err(SessionError::InvalidActivity)
    );
    assert_eq!(state.activity.as_deref(), Some("bad"));
    state.current = Some("bad".to_string());
    assert_eq!(reset(&mut state), Err(SessionError::InvalidGeneration));
    assert_eq!(
        reset_with_activity(&mut state, 5),
        Err(SessionError::InvalidGeneration)
    );
    assert_eq!(state.activity.as_deref(), Some("bad"));
    assert!(!is_engaged(&state));
}

#[test]
fn explicit_reset_refreshes_activity() {
    let stamp = activity_text(1_000_000);
    assert_eq!(is_expired(Some(&stamp), 360, 1_000_001), Ok(false));
    let mut state = empty();
    prepare_activity(&mut state, 360, 100).unwrap();
    assert_eq!(reset_with_activity(&mut state, 1_000_000), Ok(1));
    assert_eq!(expired(&state, 360, 1_000_001), Ok(false));
    assert_eq!(expired(&state, 360, 1_000_000 + 360 * 60), Ok(true));
}

#[test]
fn expired_engagement_is_inactive_at_boundary() {
    let mut state = empty();
    prepare_activity(&mut state, 360, 100).unwrap();
    engage(&mut state);
    let active = |now: u64| {
        is_active_engagement(state.activity.as_deref(), is_engaged(&state), 360, now)
    };
    assert!(active(100 + 359 * 60));
    assert!(!active(100 + 360 * 60));
}

#[test]
fn engagement_persists_until_reset() {
    let mut state = empty();
    engage(&mut state);
    assert!(is_engaged(&state));
    assert_eq!(reset(&mut state), Ok(1));
    assert!(!is_engaged(&state));
    assert!(is_active_engagement(None, true, 360, 100));
    assert!(!is_active_engagement(None, false, 360, 100));
}
