use dar_extensions::discord::history::History;

#[test]
fn limit_excludes_current_message_and_is_key_scoped() {
    let mut history = History::default();
    history.add("one", "1".into(), "first discussion point".into());
    history.add("one", "2".into(), "second discussion point".into());
    history.add("one", "3".into(), "summarize the discussion above".into());
    history.add("two", "1".into(), "other channel".into());
    let prompt = history.prompt("one", "3", "summarize the discussion above", 1);
    assert!(!prompt.contains("first discussion point"));
    assert!(prompt.contains("second discussion point"));
    assert_eq!(prompt.matches("summarize the discussion above").count(), 1);
    assert!(!prompt.contains("other channel"));
}

#[test]
fn caps_and_clears_history() {
    let mut history = History::default();
    for number in 0..51 {
        assert!(history.add("key", number.to_string(), number.to_string()));
    }
    let prompt = history.prompt("key", "50", "now", 0);
    assert!(!prompt.contains("\n0\n"));
    assert!(prompt.contains("\n1\n"));
    history.clear("key");
    assert_eq!(history.prompt("key", "missing", "now", 20), "now");
}

#[test]
fn excludes_the_current_message_even_when_a_later_message_arrives_first() {
    let mut history = History::default();
    history.add("key", "a".into(), "current mention".into());
    history.add("key", "b".into(), "later discussion".into());
    let prompt = history.prompt("key", "a", "current text", 20);
    assert!(!prompt.contains("current mention"));
    assert!(prompt.contains("later discussion"));
}
