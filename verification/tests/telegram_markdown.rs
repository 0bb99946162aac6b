use dar_extensions::telegram::markdown::{
    plain_chunks, render_chunks, split_source_into_chunks, to_markdown_v2, utf16_len, ParseMode,
    TELEGRAM_MAX_UTF16,
};

fn md(s: &str) -> String {
    to_markdown_v2(s)
}

#[test]
fn bold_maps_to_single_star() {
    assert_eq!(md("**bold**"), "*bold*");
    assert_eq!(md("__bold__"), "*bold*");
}

#[test]
fn italic_maps_to_underscore() {
    assert_eq!(md("*italic*"), "_italic_");
    assert_eq!(md("_italic_"), "_italic_");
}

#[test]
fn strikethrough_maps_to_single_tilde() {
    assert_eq!(md("~~gone~~"), "~gone~");
}

#[test]
fn inline_code_is_protected() {
    // The `.` inside code is NOT escaped; outside it would be.
    assert_eq!(md("call `a.b()` now"), "call `a.b()` now");
    // A period in plain text IS escaped.
    assert_eq!(md("end."), "end\\.");
}

#[test]
fn inline_code_escapes_backtick_and_backslash() {
    assert_eq!(md("`a\\b`"), "`a\\\\b`");
}

#[test]
fn plain_specials_are_escaped() {
    assert_eq!(md("a-b.c!"), "a\\-b\\.c\\!");
    assert_eq!(md("1 + 1 = 2"), "1 \\+ 1 \\= 2");
}

#[test]
fn heading_becomes_bold() {
    assert_eq!(md("## Title"), "*Title*");
    assert_eq!(md("# H1"), "*H1*");
    assert_eq!(md("###### H6"), "*H6*");
}

#[test]
fn seven_hashes_is_not_a_heading() {
    assert_eq!(md("####### too many"), "\\#\\#\\#\\#\\#\\#\\# too many");
}

#[test]
fn link_is_converted_and_escaped() {
    assert_eq!(
        md("[the docs](https://x.io/a_b)"),
        "[the docs](https://x.io/a_b)"
    );
    // Display text specials are escaped; url inner `)` is escaped.
    assert_eq!(md("[a.b](http://h/p(1))"), "[a\\.b](http://h/p(1\\))");
    assert_eq!(md("[a.b](http://h/p)"), "[a\\.b](http://h/p)");
}

#[test]
fn image_renders_as_link() {
    assert_eq!(md("![alt](http://h/i.png)"), "[alt](http://h/i.png)");
}

#[test]
fn fenced_code_block_preserves_body_and_lang() {
    let input = "```rust\nlet x = 1.0;\n```";
    assert_eq!(md(input), "```rust\nlet x = 1.0;\n```");
}

#[test]
fn fenced_code_block_no_lang() {
    let input = "```\nplain.text!\n```";
    assert_eq!(md(input), "```\nplain.text!\n```");
}

#[test]
fn blockquote_preserves_marker() {
    assert_eq!(md("> quoted."), ">quoted\\.");
}

#[test]
fn bullet_list_renders_dash() {
    assert_eq!(md("- item one"), "\\- item one");
    assert_eq!(md("* item two"), "\\- item two");
}

#[test]
fn task_list_renders_checkbox() {
    assert_eq!(md("- [ ] todo"), "☐ todo");
    assert_eq!(md("- [x] done"), "☑ done");
    assert_eq!(md("- [X] done"), "☑ done");
}

#[test]
fn spoiler_is_preserved() {
    assert_eq!(md("||secret||"), "||secret||");
}

#[test]
fn nested_bold_inside_italic() {
    assert_eq!(md("*a **b** c*"), "_a *b* c_");
}

#[test]
fn unclosed_markers_are_escaped() {
    assert_eq!(md("a ** b"), "a \\*\\* b");
    assert_eq!(md("stray _ char"), "stray \\_ char");
}

#[test]
fn small_table_flattens_to_bullets() {
    let input = "| Name | Age |\n|------|-----|\n| Ada | 36 |\n| Bo | 40 |";
    let out = md(input);
    assert_eq!(
        out,
        "\\- *Name:* Ada\n\\- *Age:* 36\n\n\\- *Name:* Bo\n\\- *Age:* 40"
    );
}

#[test]
fn large_table_falls_back_to_code_block() {
    let mut rows = vec![String::from("| N |"), String::from("|---|")];
    for r in 0..9 {
        rows.push(format!("| {r} |"));
    }
    let out = md(&rows.join("\n"));
    assert!(out.starts_with("```\n"));
    assert!(out.ends_with("\n```"));
    assert!(out.contains("N"));
}

#[test]
fn utf16_len_counts_code_units() {
    assert_eq!(utf16_len("abc"), 3);
    assert_eq!(utf16_len("😀"), 2); // astral char = 2 UTF-16 units
}

#[test]
fn single_chunk_has_no_indicator() {
    let chunks = render_chunks("short body");
    assert_eq!(chunks.len(), 1);
    assert_eq!(chunks[0].text, "short body");
}

#[test]
fn long_body_is_chunked_with_escaped_indicator() {
    let line = "x".repeat(1000);
    let body = vec![line; 10].join("\n");
    let chunks = render_chunks(&body);
    assert!(chunks.len() >= 2);
    // Indicators are escaped MarkdownV2: `\(1/N\)`.
    assert!(chunks[0].text.contains("\\("));
    assert!(chunks[0].text.contains("/"));
    assert!(chunks[0].text.contains("\\)"));
    for c in &chunks {
        assert!(utf16_len(&c.text) <= TELEGRAM_MAX_UTF16);
    }
}

#[test]
fn small_fence_stays_in_one_chunk() {
    let code = "a\n".repeat(50);
    let body = format!("```\n{code}```");
    let chunks = split_source_into_chunks(&body);
    assert_eq!(chunks.len(), 1);
    assert_eq!(chunks[0].matches("```").count(), 2);
}

#[test]
fn large_fence_is_rewrapped_across_chunks() {
    // A code block larger than the source budget must be re-wrapped: every
    // chunk is a self-contained fenced block (balanced ``` pairs), so each
    // renders as valid MarkdownV2 on its own.
    let code = "line\n".repeat(2000);
    let body = format!("```\n{code}```");
    let chunks = split_source_into_chunks(&body);
    assert!(chunks.len() >= 2, "expected the big fence to be split");
    for c in &chunks {
        assert_eq!(
            c.matches("```").count() % 2,
            0,
            "each chunk must have balanced fences: {c:?}"
        );
    }
    // Rendered chunks stay under the Telegram cap.
    for c in render_chunks(&body) {
        assert!(utf16_len(&c.text) <= TELEGRAM_MAX_UTF16);
    }
}

#[test]
fn hard_split_of_a_single_long_line() {
    let line = "y".repeat(TELEGRAM_MAX_UTF16 * 2);
    let chunks = render_chunks(&line);
    assert!(chunks.len() >= 2);
    for c in &chunks {
        assert!(utf16_len(&c.text) <= TELEGRAM_MAX_UTF16);
    }
}

#[test]
fn chunk_source_covers_the_whole_reply_losslessly() {
    // Every non-structural character of the original reply appears across
    // the chunk `source` spans — the invariant that makes the plain-text
    // fallback lossless. (Chunking adds `\n` line breaks and re-wrapped
    // ``` fences, so compare with newlines and fence lines removed.)
    let line = "abcXYZ0189 ".repeat(500);
    let body = format!("# Heading\n\n{line}\n\n```\n{}\n```", "code\n".repeat(400));
    let chunks = render_chunks(&body);
    let normalize = |s: &str| {
        s.lines()
            .filter(|l| l.trim() != "```")
            .collect::<String>()
            .replace(' ', "")
    };
    let joined: String = chunks.iter().map(|c| normalize(&c.source)).collect();
    assert_eq!(joined, normalize(&body));
}

#[test]
fn plain_chunks_never_add_parse_mode() {
    let chunks = plain_chunks("**not converted** stays raw.");
    assert_eq!(chunks.len(), 1);
    assert_eq!(chunks[0].parse_mode, ParseMode::Plain);
    assert_eq!(chunks[0].text, "**not converted** stays raw.");
}

#[test]
fn plain_chunks_add_unescaped_indicator_when_split() {
    let line = "z".repeat(1600);
    let body = format!("{line}\n{line}");
    let chunks = plain_chunks(&body);
    assert_eq!(chunks.len(), 2);
    assert!(chunks[0].text.ends_with("(1/2)"));
    assert!(chunks[1].text.ends_with("(2/2)"));
    for c in &chunks {
        assert_eq!(c.parse_mode, ParseMode::Plain);
    }
}

#[test]
fn render_chunks_tags_markdown_v2() {
    let chunks = render_chunks("**hi**");
    assert_eq!(chunks.len(), 1);
    assert_eq!(chunks[0].parse_mode, ParseMode::MarkdownV2);
    assert_eq!(chunks[0].text, "*hi*");
    assert_eq!(chunks[0].source, "**hi**");
}

#[test]
fn adjacent_bold_spans_do_not_illegally_nest() {
    // Greedy first-close means `**a **b** c**` is two separate bold spans
    // with a literal `b` between — valid MarkdownV2, not an illegal
    // same-type nesting.
    assert_eq!(md("**a **b** c**"), "*a *b* c*");
}

#[test]
fn same_type_nesting_emits_inner_delimiters_literally() {
    // A genuine nested emphasis of the same type (bold inside bold) would
    // be rejected by Telegram; the inner `*italic*`-style single markers
    // stay literal when already inside that entity. Here italic-in-italic:
    // `_a _b_ c_` closes at the first inner `_`, leaving ` c_` literal.
    assert_eq!(md("*outer **still bold** end*"), "_outer *still bold* end_");
}

#[test]
fn intraword_underscore_is_literal() {
    assert_eq!(md("snake_case_here"), "snake\\_case\\_here");
    // A real italic span at word boundaries still converts.
    assert_eq!(md("_hi_ there"), "_hi_ there");
}

#[test]
fn every_rendered_chunk_stays_under_the_cap() {
    // A wide table whose header repeats into every row expands far beyond
    // 2x; the post-render safety net must keep every chunk deliverable.
    let header = format!("| {} | {} |", "H1".repeat(120), "H2".repeat(120));
    let mut rows = vec![header, "|---|---|".to_string()];
    for r in 0..6 {
        rows.push(format!("| a{r} | b{r} |"));
    }
    let chunks = render_chunks(&rows.join("\n"));
    assert!(!chunks.is_empty());
    for c in &chunks {
        assert!(
            utf16_len(&c.text) <= TELEGRAM_MAX_UTF16,
            "chunk over cap: {} units",
            utf16_len(&c.text)
        );
    }
}

#[test]
fn oversized_table_falls_back_to_plain_not_dropped() {
    // A table that renders past the cap drops to plain text (never a
    // rejected over-long send, never silent loss).
    let cell = "X".repeat(2500);
    let table = format!("| A | B |\n|---|---|\n| {cell} | {cell} |");
    let chunks = render_chunks(&table);
    assert!(chunks.iter().any(|c| c.parse_mode == ParseMode::Plain));
    // The content survives and every chunk is deliverable (≤ cap).
    let joined: String = chunks.iter().map(|c| c.source.clone()).collect();
    assert!(joined.contains(&cell));
    for c in &chunks {
        assert!(
            utf16_len(&c.text) <= TELEGRAM_MAX_UTF16,
            "chunk over cap: {}",
            utf16_len(&c.text)
        );
    }
}

#[test]
fn split_table_keeps_header_with_rows() {
    // A table forced across chunks must never leave a header orphaned in a
    // chunk with no data rows (which would render to an empty body and
    // silently drop the header). The table is kept atomic.
    let mut rows = vec!["| Name | Val |".to_string(), "|------|-----|".to_string()];
    for r in 0..7 {
        rows.push(format!("| name{r} | {} |", "v".repeat(300)));
    }
    let doc = format!("intro line\n\n{}\n\noutro line", rows.join("\n"));
    let chunks = render_chunks(&doc);
    // No chunk is just an indicator with no real content.
    for c in &chunks {
        let stripped = c.text.replace(['\\', '(', ')', '/', '\n'], "");
        let only_digits =
            !stripped.is_empty() && stripped.chars().all(|ch| ch.is_ascii_digit());
        assert!(
            !only_digits,
            "chunk collapsed to a bare indicator: {:?}",
            c.text
        );
    }
    // Header content survives somewhere.
    assert!(chunks.iter().any(|c| c.source.contains("Name")));
}

#[test]
fn parse_mode_api_value() {
    assert_eq!(ParseMode::MarkdownV2.as_api_value(), Some("MarkdownV2"));
    assert_eq!(ParseMode::Plain.as_api_value(), None);
}

#[test]
fn multiline_document_round_trip() {
    let input =
        "# Report\n\nStatus: **ok**\n\nSee `main.rs` and [repo](http://h/r).\n\n> note: done.";
    let out = md(input);
    let expected =
        "*Report*\n\nStatus: *ok*\n\nSee `main.rs` and [repo](http://h/r)\\.\n\n>note: done\\.";
    assert_eq!(out, expected);
}
