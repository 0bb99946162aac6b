use dar_extensions::discord::markdown::{chunk, render, MESSAGE_LIMIT};

#[test]
fn chunks_at_sensible_boundary() {
    let chunks = chunk(&("word ".repeat(500)));
    assert!(chunks.len() > 1);
    assert!(chunks.iter().all(|c| c.chars().count() <= MESSAGE_LIMIT));
    assert!(chunks[0].ends_with(' '));
}

#[test]
fn reopens_fences_across_chunks() {
    let chunks = chunk(&format!("```rust\n{}\n```", "x\n".repeat(1500)));
    assert!(chunks.len() > 1);
    assert!(chunks.iter().all(|c| c.matches("```").count() % 2 == 0));
    assert!(chunks[1].starts_with("```rust\n"));
}

#[test]
fn long_fence_language_stays_within_the_limit() {
    let chunks = chunk(&format!("```{}\n{}", "r".repeat(1_993), "x\n".repeat(20)));
    assert!(chunks
        .iter()
        .all(|chunk| chunk.chars().count() <= MESSAGE_LIMIT));
}

#[test]
fn renders_discord_markdown() {
    assert_eq!(
        render("## **hi** `__code__` @everyone"),
        "**hi** `__code__` @\u{200b}everyone"
    );
}
