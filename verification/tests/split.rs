use dar_extensions::split::{split_message, strip_markdown, MAX_BYTES, MAX_CHARS};

#[test]
fn short_text_is_one_line() {
    assert_eq!(split_message("hello there", ""), vec!["hello there".to_string()]);
}

#[test]
fn empty_input_yields_no_chunks() {
    assert!(split_message("", "").is_empty());
    assert!(split_message("   \n  ", "").is_empty());
}

#[test]
fn markdown_is_stripped() {
    assert_eq!(strip_markdown("**bold** and _italic_"), "bold and italic");
    assert_eq!(strip_markdown("use `code` here"), "use code here");
    assert_eq!(strip_markdown("# Heading"), "Heading");
    assert_eq!(strip_markdown("```rust"), "rust");
}

#[test]
fn markdown_links_are_stripped() {
    assert_eq!(strip_markdown("[see here](https://example.com)"), "see here");
    assert_eq!(strip_markdown("<https://example.com>"), "https://example.com");
}

#[test]
fn mid_line_hash_is_preserved() {
    // IRC channel names keep their sigil.
    assert_eq!(strip_markdown("join #rust-lang"), "join #rust-lang");
    // `#` followed by a space mid-line must not merge adjacent tokens.
    assert_eq!(strip_markdown("C# language"), "C# language");
    // Heading marker is still stripped only at line start, including after
    // a newline.
    assert_eq!(strip_markdown("intro\n# Heading"), "intro\nHeading");
    // Leading whitespace before `#` means it is not a line-start heading.
    assert_eq!(strip_markdown(" # not-heading"), " # not-heading");
}

#[test]
fn over_limit_splits_on_word_boundaries() {
    let word = "lorem";
    let many = vec![word; 200].join(" "); // ~1199 chars
    let chunks = split_message(&many, &"#".repeat(100));
    assert!(chunks.len() > 1);
    for c in &chunks {
        assert!(c.chars().count() <= MAX_CHARS);
        assert!(c.len() <= MAX_BYTES);
        // Word-boundary: no chunk should start or end mid-word with a space.
        assert!(!c.starts_with(' ') && !c.ends_with(' '));
    }
    // Round-trips back to the same words.
    let rejoined = chunks.join(" ");
    assert_eq!(rejoined.split_whitespace().count(), 200);
}

#[test]
fn multibyte_is_codepoint_safe() {
    // Each emoji is 4 bytes; a long run forces byte-budget splitting.
    let s = "😀".repeat(200);
    let chunks = split_message(&s, &"#".repeat(100));
    assert!(chunks.len() > 1);
    for c in &chunks {
        assert!(c.len() <= MAX_BYTES);
        // Every chunk is valid UTF-8 made only of whole emoji.
        assert!(c.chars().all(|ch| ch == '😀'));
    }
    let total: usize = chunks.iter().map(|c| c.chars().count()).sum();
    assert_eq!(total, 200);
}

#[test]
fn explicit_newlines_become_separate_lines() {
    let chunks = split_message("line one\nline two", "");
    assert_eq!(chunks, vec!["line one".to_string(), "line two".to_string()]);
}

#[test]
fn long_single_word_is_hard_split() {
    let word = "a".repeat(MAX_CHARS + 50);
    let chunks = split_message(&word, "");
    assert!(chunks.len() >= 2);
    for c in &chunks {
        assert!(c.chars().count() <= MAX_CHARS);
    }
}

#[test]
fn words_and_lines_stay_whole() {
    let word = "é".repeat(50);
    let text = format!("{} {word}\n{word} {}\n \n{word}", "a".repeat(380), "b".repeat(900));
    let chunks = split_message(&text, "#room");
    let whole = |chunk: &&String| chunk.split_whitespace().any(|part| part == word);
    assert_eq!(chunks.iter().filter(whole).count(), 3);
    assert!(!chunks.iter().any(|chunk| chunk.contains('a') && chunk.contains('b')));
    assert_eq!(
        chunks.concat().replace(' ', ""),
        text.replace([' ', '\n'], "")
    );
    assert!(split_message("**\n`` \n", "").is_empty());
    assert_eq!(split_message("** x", ""), vec!["x".to_string()]);
}
