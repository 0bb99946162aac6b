use dar_extensions::slack::history::{History, MAX_ENTRIES};

#[test]
fn bounds_entries_and_zero_keeps_all() {
    let mut history = History::default();
    for index in 0..51 {
        assert!(history.add("key", index.to_string(), index.to_string()));
    }
    let prompt = history.prompt("key", "now", 0);
    assert!(!prompt.contains("\n0\n"));
    assert!(prompt.contains("\n1\n"));
    assert!(!prompt.contains("\n50\n"));
    assert!(prompt.contains("\n49\n"));
}

#[test]
fn limit_and_clear_are_key_scoped() {
    let mut history = History::default();
    assert!(history.add("one", "1".into(), "old".into()));
    assert!(history.add("one", "2".into(), "new".into()));
    assert!(history.add("one", "3".into(), "now".into()));
    assert!(history.add("two", "1".into(), "other".into()));
    assert!(history.add("two", "2".into(), "now".into()));
    let prompt = history.prompt("one", "now", 1);
    assert!(!prompt.contains("old"));
    assert!(prompt.contains("new"));
    history.clear("one");
    assert_eq!(history.prompt("one", "now", 20), "now");
    assert!(history.prompt("two", "now", 20).contains("other"));
}

#[test]
fn dedupes_message_ids_per_key_and_clear_resets_them() {
    let mut history = History::default();
    assert!(history.add("one", "id".into(), "first".into()));
    assert!(!history.add("one", "id".into(), "duplicate".into()));
    assert!(history.add("two", "id".into(), "other".into()));
    assert!(!history.prompt("one", "now", 0).contains("duplicate"));
    history.clear("one");
    assert!(history.add("one", "id".into(), "after clear".into()));
}

#[test]
fn dedupe_ids_are_bounded_per_key() {
    let mut history = History::default();
    for index in 0..=MAX_ENTRIES {
        assert!(history.add("key", index.to_string(), index.to_string()));
    }
    assert!(history.add("key", "0".into(), "again".into()));
}

#[test]
fn excludes_current_message_from_history_context() {
    let mut history = History::default();
    assert!(history.add("key", "1".into(), "earlier".into()));
    assert!(history.add("key", "2".into(), "current".into()));

    let prompt = history.prompt("key", "current", 20);
    assert_eq!(prompt.matches("current").count(), 1);
    assert!(prompt.contains("earlier"));
}
