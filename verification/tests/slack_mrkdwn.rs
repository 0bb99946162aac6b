use dar_extensions::slack::mrkdwn::{chunk, render};

#[test]
fn preserves_channels_and_code_while_rendering_emphasis() {
    assert_eq!(
        render("## **hello** #channel\n`__literal__`\n```\n**code**\n```"),
        "*hello* #channel\n`__literal__`\n```\n**code**\n```"
    );
}

#[test]
fn neutralizes_mentions_but_keeps_normal_links() {
    assert_eq!(
        render("<@U123> @channel <https://example.com|site>"),
        "&lt;@U123> @\u{200b}channel <https://example.com|site>"
    );
}

#[test]
fn chunks_unicode_without_invalid_utf8() {
    let input = "hello 👋 world 你好 friend";
    let chunks = chunk(input, 10);
    assert!(chunks.iter().all(|part| part.len() <= 10));
    assert_eq!(chunks.concat(), input);
}

#[test]
fn scalar_wider_than_limit_makes_progress() {
    assert_eq!(chunk("👋x", 1), vec!["👋", "x"]);
}

#[test]
fn chunks_at_whitespace_when_possible() {
    assert_eq!(chunk("one two three", 8), vec!["one two ", "three"]);
}

#[test]
fn wide_white_space_is_no_trouble() {
    let input = "one\u{3000}two\u{3000}three";
    let chunks = chunk(input, 8);
    assert_eq!(chunks.concat(), input);
    assert!(chunks.iter().all(|part| part.len() <= 8));
}
