use dar_extensions::slack::thinking::{display, Farewell, Thinking, ThinkingAction};

#[test]
fn display_caps_and_neutralizes_controls() {
    assert_eq!(
        display("hello. next - item <@U1>"),
        "🧠 Thinking:\nhello.\nnext\n- item &lt;@U1>"
    );
    let long = "x".repeat(3001);
    assert_eq!(
        display(&long).chars().count(),
        "🧠 Thinking:\n".chars().count() + 3001
    );
}

#[test]
fn thoughts_are_posted_then_edited() {
    let mut thinking = Thinking::start();
    assert!(matches!(thinking.append("hm"), ThinkingAction::Post(text) if text == display("hm")));
    assert_eq!(thinking.posted(), None);
    thinking.on_posted("2.0");
    assert_eq!(thinking.posted(), Some("2.0"));
    assert_eq!(thinking.append(" well"), ThinkingAction::Nothing);
    assert!(thinking.is_dirty());
    assert_eq!(
        thinking.on_timer(),
        ThinkingAction::Update("2.0".to_string(), display("hm well"))
    );
    assert!(!thinking.is_dirty());
    assert_eq!(
        thinking.on_timer(),
        ThinkingAction::Update("2.0".to_string(), display("hm well"))
    );
    assert_eq!(
        thinking.finish(true),
        Farewell {
            update: None,
            delete: Some("2.0".to_string()),
        }
    );
}
