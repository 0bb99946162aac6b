use dar_extensions::discord::delivery::{message_url, messages_url, reaction_url, tries_again};
use dar_extensions::discord::live_answer::{LiveAnswer, UPDATE_INTERVAL_MS};

#[test]
fn coalesces_rapid_edits() {
    let mut answer = LiveAnswer::new();
    assert!(answer.push(0));
    let steps = answer.plan("one");
    assert_eq!(steps.len(), 1);
    assert_eq!(steps[0].edit, None);
    answer.on_posted("1");
    answer.on_flushed(0);
    assert!(!answer.push(1));
    assert_eq!(answer.wait_for_flush(1), Some(UPDATE_INTERVAL_MS - 1));
    assert!(answer.flush_if_due());
    let steps = answer.plan("one two");
    assert_eq!(steps[0].edit.as_deref(), Some("1"));
    assert_eq!(steps[0].text, "one two");
    answer.on_flushed(UPDATE_INTERVAL_MS);
    assert!(!answer.needs_finish());
}

#[test]
fn urls_name_what_they_are_about() {
    assert_eq!(messages_url("b", "c"), "b/channels/c/messages");
    assert_eq!(message_url("b", "c", "m"), "b/channels/c/messages/m");
    assert!(reaction_url("b", "c", "m", "e").contains("/reactions/e"));
    assert!(tries_again(0));
    assert!(!tries_again(2));
}
