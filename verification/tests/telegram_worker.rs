use dar_extensions::telegram::worker::{
    Completed, Conversation, Intake, SessionEvent, Step, TurnOrigin, INTAKE_LIMIT,
};

/// A conversation with a sink that records replies and acknowledgements.
struct Fixture {
    conversation: Conversation,
    replies: Vec<String>,
    reactions: Vec<(i64, bool)>,
}

impl Fixture {
    fn new() -> Self {
        Self {
            conversation: Conversation::new(),
            replies: Vec::new(),
            reactions: Vec::new(),
        }
    }

    fn submit(&mut self, id: i64) {
        self.reactions.push((id, true));
        self.conversation.on_message(id);
    }

    fn event(&mut self, event: SessionEvent) {
        match self.conversation.on_event(event, 0) {
            Step::Nothing => {}
            Step::Clear(id) => self.reactions.push((id, false)),
            Step::Show(updates) => {
                if let Some(update) = updates.answer {
                    if update.edit.is_none() {
                        self.conversation.on_answer_sent(Some(1), 0);
                    }
                }
            }
            Step::Finish { ok, error, .. } => {
                let done = self.conversation.complete(ok, error.as_deref());
                if let Some(reply) = done.reply {
                    self.replies.push(reply);
                }
                if let Some(id) = done.cleared {
                    self.reactions.push((id, false));
                }
            }
            Step::Stop(_) => panic!("unexpected stop"),
        }
    }

    fn start(&mut self, origin: TurnOrigin) {
        self.event(SessionEvent::TurnStarted(origin));
    }

    fn finish(&mut self, text: &str) {
        self.event(SessionEvent::Text {
            of_answer: true,
            text: text.to_string(),
        });
        self.event(SessionEvent::TurnFinished {
            ok: true,
            error: None,
        });
    }
}

#[test]
fn proactive_reply_arrives_without_input_and_later_replies_stay_aligned() {
    let mut f = Fixture::new();
    f.submit(1);
    f.start(TurnOrigin::Submitted);
    f.finish("answer A");
    assert_eq!(f.replies, ["answer A"]);
    f.start(TurnOrigin::Autonomous);
    f.finish("background B");
    assert_eq!(f.replies, ["answer A", "background B"]);
    for (id, text) in [(2, "C"), (3, "D")] {
        f.submit(id);
        f.start(TurnOrigin::Submitted);
        f.finish(text);
    }
    assert_eq!(f.replies, ["answer A", "background B", "C", "D"]);
    assert_eq!(
        f.reactions,
        [
            (1, true),
            (1, false),
            (2, true),
            (2, false),
            (3, true),
            (3, false)
        ]
    );
}

#[test]
fn autonomous_completion_does_not_clear_queued_acknowledgements() {
    let mut f = Fixture::new();
    f.submit(1);
    f.submit(2);
    f.start(TurnOrigin::Autonomous);
    f.finish("background");
    assert_eq!(f.reactions, [(1, true), (2, true)]);
    f.start(TurnOrigin::Submitted);
    f.finish("first");
    assert_eq!(f.reactions, [(1, true), (2, true), (1, false)]);
    f.start(TurnOrigin::Submitted);
    f.finish("second");
    assert_eq!(f.replies, ["background", "first", "second"]);
}

#[test]
fn empty_autonomous_turn_is_silent_and_legacy_turn_still_delivers() {
    let mut f = Fixture::new();
    f.start(TurnOrigin::Autonomous);
    f.finish(" \n");
    f.submit(1);
    f.finish("legacy reply");
    assert_eq!(f.replies, ["legacy reply"]);
    assert_eq!(f.reactions, [(1, true), (1, false)]);
}

#[test]
fn saturated_intake_rejects_overflow() {
    let mut intake = Intake::new();
    for _ in 0..INTAKE_LIMIT {
        assert!(intake.accept());
    }
    assert!(!intake.accept());
    intake.release();
    assert!(intake.accept());
    assert!(!intake.accept());
}

#[test]
fn backend_exit_clears_pending_acknowledgements() {
    let mut conversation = Conversation::new();
    conversation.on_message(1);
    conversation.on_message(2);
    conversation.on_message(3);
    conversation.on_event(SessionEvent::TurnStarted(TurnOrigin::Submitted), 0);
    assert_eq!(
        conversation.on_event(SessionEvent::Closed(Some("gone".to_string())), 0),
        Step::Stop("backend closed: gone".to_string())
    );
    assert_eq!(
        conversation.on_event(SessionEvent::Ended, 0),
        Step::Stop("backend event stream closed".to_string())
    );
    assert_eq!(conversation.stop(), vec![1, 2, 3]);
}

#[test]
fn turns_without_an_answer_are_explained() {
    let mut conversation = Conversation::new();
    conversation.on_message(1);
    conversation.on_event(SessionEvent::TurnStarted(TurnOrigin::Submitted), 0);
    assert_eq!(
        conversation.complete(false, Some("boom")),
        Completed {
            reply: Some("(turn failed: boom)".to_string()),
            answer_msg: None,
            cleared: Some(1),
        }
    );
    assert_eq!(
        conversation.complete(false, None).reply.as_deref(),
        Some("(turn failed: unknown)")
    );
    assert_eq!(
        conversation.complete(true, None).reply.as_deref(),
        Some("(no response)")
    );
}

#[test]
fn a_turn_that_overtakes_another_clears_its_acknowledgement() {
    let mut f = Fixture::new();
    f.submit(1);
    f.submit(2);
    f.start(TurnOrigin::Submitted);
    f.start(TurnOrigin::Submitted);
    assert_eq!(f.reactions, [(1, true), (2, true), (1, false)]);
}
