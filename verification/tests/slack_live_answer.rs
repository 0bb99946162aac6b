use dar_extensions::slack::live_answer::{LiveAnswer, MAX_MESSAGE_BYTES, UPDATE_INTERVAL_MS};
use dar_extensions::slack::mrkdwn;

#[test]
fn rendered_answer_stays_within_slack_limit() {
    let answer = "é".repeat(3000);
    let chunks = mrkdwn::chunk(&mrkdwn::render(&answer), MAX_MESSAGE_BYTES);
    assert!(chunks.iter().all(|chunk| chunk.len() <= MAX_MESSAGE_BYTES));
    assert_eq!(chunks.concat(), answer);
}

#[test]
fn posts_first_delta_then_flushes_coalesced_update_before_finish() {
    let mut answer = LiveAnswer::new();
    assert!(answer.push(0), "the first text is shown at once");
    let steps = answer.plan("first");
    assert_eq!(steps.len(), 1);
    assert_eq!(steps[0].edit, None);
    answer.on_posted("2.0");
    answer.on_flushed(0);
    assert!(!answer.push(1), "coalesced update flushed too early");
    assert_eq!(answer.message_count(), 1);
    assert_eq!(answer.wait_for_flush(1), Some(UPDATE_INTERVAL_MS - 1));
    assert_eq!(answer.wait_for_flush(UPDATE_INTERVAL_MS), Some(0));
    assert!(answer.flush_if_due());
    let steps = answer.plan("first second");
    assert_eq!(steps.len(), 1);
    assert_eq!(steps[0].edit.as_deref(), Some("2.0"));
    assert_eq!(steps[0].text, "first second");
    answer.on_flushed(UPDATE_INTERVAL_MS);
    assert_eq!(answer.wait_for_flush(UPDATE_INTERVAL_MS), None);
    assert!(!answer.needs_finish());
    let (displayed, succeeded) = answer.finish();
    assert!(displayed && succeeded);
}

#[test]
fn failures_are_made_good_at_the_end() {
    let mut answer = LiveAnswer::new();
    answer.on_failure();
    assert!(!answer.needs_finish(), "nothing is shown that could be made good");
    answer.on_posted("2.0");
    answer.on_flushed(0);
    answer.on_failure();
    assert!(answer.needs_finish());
    assert_eq!(answer.finish(), (true, false));
}
