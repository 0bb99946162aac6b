//! Marks of headings and fenced blocks.

use crate::text;
use vstd::prelude::*;

verus! {

/// A line without the marks of a heading.
pub open spec fn without_heading(line: Seq<char>) -> Seq<char> {
    let marks = text::run_of(line, '#', 0) as int;
    if 0 < marks < line.len() && line[marks] == ' ' {
        line.skip(marks + 1)
    } else {
        line
    }
}

/// A line without the marks of a heading.
pub fn strip_heading<'a>(line: &'a [char]) -> (r: &'a [char])
    ensures
        r@ == without_heading(line@),
{
    let marks: usize = text::run_len(line, '#', 0);
    proof {
        text::lemma_run_of(line@, '#', 0);
    }
    if marks > 0 && marks < line.len() && line[marks] == ' ' {
        text::skip(line, marks + 1)
    } else {
        line
    }
}

/// Whether a line opens or closes a fenced block.
pub open spec fn is_fence(line: Seq<char>) -> bool {
    text::begins_with(text::trimmed_start(line), "```"@)
}

/// Whether a line opens or closes a fenced block.
pub fn starts_fence(line: &[char]) -> (b: bool)
    ensures
        b == is_fence(line@),
{
    text::starts_with(text::trim_start(line), "```")
}

} // verus!
