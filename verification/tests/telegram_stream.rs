use dar_extensions::telegram::stream::{
    tool_preview, tool_summary, LiveTurn, Update, Updates, EDIT_CHAR_THRESHOLD, EDIT_INTERVAL_MS,
    TOOL_PREVIEW_MAX,
};

#[test]
fn tool_summary_singular_and_plural() {
    assert_eq!(tool_summary(&[]), "");
    assert_eq!(tool_summary(&["read".to_string()]), "Used 1 tool: read");
    assert_eq!(
        tool_summary(&["read".to_string(), "bash".to_string()]),
        "Used 2 tools: read, bash"
    );
}

#[test]
fn tool_preview_prefers_identifying_field_and_truncates() {
    assert_eq!(
        tool_preview("read", r#"{"path":"/etc/hosts"}"#),
        "read · /etc/hosts"
    );
    // No recognizable field, no scalar: name only.
    assert_eq!(tool_preview("noop", "{}"), "noop");
    // Unparseable args: name only.
    assert_eq!(tool_preview("weird", "not json"), "weird");
    // Long target is truncated with an ellipsis.
    let long = format!(r#"{{"path":"{}"}}"#, "a".repeat(200));
    let out = tool_preview("read", &long);
    assert!(out.chars().count() <= "read · ".chars().count() + TOOL_PREVIEW_MAX);
    assert!(out.ends_with('…'));
}

/// One call of the message surface.
#[derive(Clone, Debug, PartialEq, Eq)]
enum Call {
    Send { text: String },
    Edit { id: i64, text: String },
}

/// A turn with a sink that records what is shown.
struct Shown {
    turn: LiveTurn,
    calls: Vec<Call>,
    next_id: i64,
    now: u64,
}

impl Shown {
    fn new() -> Self {
        Self {
            turn: LiveTurn::new(),
            calls: Vec::new(),
            next_id: 100,
            now: 0,
        }
    }

    fn show(&mut self, update: Update) -> Option<i64> {
        match update.edit {
            Some(id) => {
                self.calls.push(Call::Edit {
                    id,
                    text: update.text,
                });
                None
            }
            None => {
                self.calls.push(Call::Send { text: update.text });
                self.next_id += 1;
                Some(self.next_id - 1)
            }
        }
    }

    fn show_answer(&mut self, update: Option<Update>) {
        if let Some(update) = update {
            match self.show(update) {
                Some(id) => self.turn.on_answer_sent(Some(id), self.now),
                None => self.turn.on_answer_edited(self.now),
            }
        }
    }

    fn show_all(&mut self, updates: Updates) {
        self.show_answer(updates.answer);
        if let Some(update) = updates.status {
            if let Some(id) = self.show(update) {
                self.turn.on_status_sent(Some(id));
            }
        }
    }

    fn push_text(&mut self, text: &str) {
        let update = self.turn.push_text(text, self.now);
        self.show_answer(update);
    }

    fn tool_started(&mut self, name: &str, args: &str) {
        let updates = self.turn.tool_started(name, args);
        self.show_all(updates);
    }

    fn finish(&mut self) {
        let updates = self.turn.finish();
        self.show_all(updates);
    }

    fn sends(&self) -> Vec<String> {
        self.calls
            .iter()
            .filter_map(|c| match c {
                Call::Send { text } => Some(text.clone()),
                _ => None,
            })
            .collect()
    }

    fn edits(&self) -> Vec<(i64, String)> {
        self.calls
            .iter()
            .filter_map(|c| match c {
                Call::Edit { id, text } => Some((*id, text.clone())),
                _ => None,
            })
            .collect()
    }
}

#[test]
fn first_delta_sends_then_deltas_edit_in_place() {
    let mut shown = Shown::new();
    shown.push_text("Hello");
    // Second delta within the cadence window with < threshold chars: no edit.
    shown.push_text(" there");
    shown.now += EDIT_INTERVAL_MS;
    shown.push_text("!");

    let sends = shown.sends();
    assert_eq!(sends.len(), 1, "exactly one send: the initial bubble");
    assert_eq!(sends[0], "Hello");
    let edits = shown.edits();
    assert_eq!(edits.len(), 1, "one rate-limited edit after the interval");
    assert_eq!(edits[0], (100, "Hello there!".to_string()));
}

#[test]
fn char_threshold_forces_edit_before_interval() {
    let mut shown = Shown::new();
    shown.push_text("start");
    let big = "x".repeat(EDIT_CHAR_THRESHOLD);
    shown.push_text(&big);
    assert_eq!(shown.edits().len(), 1, "char threshold triggers an edit");
}

#[test]
fn tool_boundary_flushes_answer_before_status() {
    let mut shown = Shown::new();
    shown.push_text("Let me check");
    shown.push_text(" the file");
    shown.tool_started("read", r#"{"path":"/etc/hosts"}"#);
    assert_eq!(
        shown.calls[0],
        Call::Send {
            text: "Let me check".to_string()
        }
    );
    assert_eq!(
        shown.calls[1],
        Call::Edit {
            id: 100,
            text: "Let me check the file".to_string()
        },
        "pre-tool assistant text is flushed before the tool status appears"
    );
    assert_eq!(
        shown.calls[2],
        Call::Send {
            text: "read · /etc/hosts".to_string()
        },
        "status shows tool name + short target, not full JSON"
    );
}

#[test]
fn tool_status_does_not_show_full_args_json() {
    let mut shown = Shown::new();
    shown.tool_started("bash", r#"{"command":"ls -la /tmp","timeout":30}"#);
    let status = shown.sends().pop().unwrap();
    assert_eq!(status, "bash · ls -la /tmp");
    assert!(!status.contains('{'), "no raw JSON in the status line");
}

#[test]
fn finish_collapses_status_to_used_tools_summary() {
    let mut shown = Shown::new();
    shown.tool_started("read", r#"{"path":"a"}"#);
    shown.tool_started("bash", r#"{"command":"ls"}"#);
    shown.tool_started("read", r#"{"path":"b"}"#);
    shown.finish();
    let edits = shown.edits();
    let last = edits.last().unwrap();
    assert_eq!(
        last.1, "Used 3 tools: read, bash",
        "status collapses to a de-duplicated used-tools summary"
    );
}

#[test]
fn edit_failure_does_not_panic_and_answer_is_preserved() {
    let mut shown = Shown::new();
    shown.push_text("first");
    shown.now += EDIT_INTERVAL_MS;
    shown.push_text(" second");
    shown.finish();
    assert_eq!(shown.turn.answer(), "first second");
}

#[test]
fn an_answer_that_could_not_be_sent_is_sent_again() {
    let mut turn = LiveTurn::new();
    assert!(turn.push_text("a", 0).unwrap().edit.is_none());
    turn.on_answer_sent(None, 0);
    assert_eq!(turn.answer_message_id(), None);
    let again = turn.push_text("b", 1).unwrap();
    assert_eq!((again.edit, again.text.as_str()), (None, "ab"));
}

#[test]
fn previews_show_other_scalars_too() {
    assert_eq!(tool_preview("wait", r#"{"seconds":30}"#), "wait · 30");
    assert_eq!(tool_preview("set", r#"{"force":true}"#), "set · true");
    assert_eq!(tool_preview("set", r#"{"path":"  ","z":"x\ny"}"#), "set · x y");
    assert_eq!(tool_preview("set", r#"{"list":[1]}"#), "set");
    assert_eq!(tool_preview("set", "[1]"), "set");
    let cut = tool_preview("t", &format!(r#"{{"path":"{}"}}"#, "a".repeat(81)));
    assert_eq!(cut, format!("t · {}…", "a".repeat(79)));
}
