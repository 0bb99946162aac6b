//! Rendering answers in Slack's markup, and cutting them into messages.

use crate::lines;
use crate::markup;
use crate::text;
use vstd::prelude::*;
use vstd::string::*;

verus! {

// ---- Controls ---------------------------------------------------------------

/// Whether the inside of angle brackets is a link.
pub open spec fn is_link(token: Seq<char>) -> bool {
    text::begins_with(token, "http://"@) || text::begins_with(token, "https://"@)
        || text::begins_with(token, "mailto:"@)
}

/// `s` from index `i` on, with the angle brackets of everything but links made
/// harmless.
pub open spec fn tame_from(s: Seq<char>, i: int) -> Seq<char>
    decreases s.len() - i,
    when 0 <= i <= s.len()
    via tame_from_decreases
{
    let start = text::next_at(s, '<', i);
    let end = text::next_at(s, '>', start + 1);
    if start >= s.len() {
        s.skip(i)
    } else if end >= s.len() {
        s.subrange(i, start) + "&lt;"@ + s.skip(start + 1)
    } else {
        let token = s.subrange(start + 1, end);
        s.subrange(i, start) + (if is_link(token) {
            "<"@
        } else {
            "&lt;"@
        }) + token + ">"@ + tame_from(s, end + 1)
    }
}

#[via_fn]
proof fn tame_from_decreases(s: Seq<char>, i: int) {
    text::lemma_next_at(s, '<', i);
    if text::next_at(s, '<', i) < s.len() {
        text::lemma_next_at(s, '>', text::next_at(s, '<', i) + 1);
    }
}

/// `s` with the words that notify everyone broken up.
pub open spec fn hushed(s: Seq<char>) -> Seq<char> {
    text::replaced(
        text::replaced(
            text::replaced(s, "@channel"@, "@\u{200b}channel"@),
            "@here"@,
            "@\u{200b}here"@,
        ),
        "@everyone"@,
        "@\u{200b}everyone"@,
    )
}

/// `s` with nothing left that Slack would act on.
pub open spec fn neutralized(s: Seq<char>) -> Seq<char> {
    hushed(tame_from(s, 0))
}

fn tame(s: &[char]) -> (out: Vec<char>)
    ensures
        out@ == tame_from(s@, 0),
{
    let mut out: Vec<char> = Vec::new();
    let n: usize = s.len();
    let mut i: usize = 0;
    loop
        invariant_except_break
            n == s@.len(),
            i <= n,
            out@ + tame_from(s@, i as int) =~= tame_from(s@, 0),
        ensures
            out@ == tame_from(s@, 0),
        decreases n - i,
    {
        let ghost before = out@;
        let start: usize = text::find_char(s, '<', i);
        if start >= n {
            text::push_all(&mut out, text::skip(s, i));
            break;
        }
        text::push_all(&mut out, text::take(text::skip(s, i), start - i));
        assert(s@.skip(i as int).take(start - i) =~= s@.subrange(i as int, start as int));
        let end: usize = text::find_char(s, '>', start + 1);
        if end >= n {
            text::push_str(&mut out, "&lt;");
            text::push_all(&mut out, text::skip(s, start + 1));
            assert(out@ =~= before + tame_from(s@, i as int));
            break;
        }
        let token = text::take(text::skip(s, start + 1), end - (start + 1));
        assert(token@ =~= s@.subrange(start + 1, end as int));
        if text::starts_with(token, "http://") || text::starts_with(token, "https://")
            || text::starts_with(token, "mailto:") {
            text::push_str(&mut out, "<");
        } else {
            text::push_str(&mut out, "&lt;");
        }
        text::push_all(&mut out, token);
        text::push_str(&mut out, ">");
        assert(out@ + tame_from(s@, end + 1) =~= before + tame_from(s@, i as int));
        i = end + 1;
    }
    out
}

fn neutralize(s: &[char]) -> (out: Vec<char>)
    ensures
        out@ == neutralized(s@),
{
    proof {
        reveal_strlit("@channel");
        reveal_strlit("@here");
        reveal_strlit("@everyone");
    }
    let tamed = tame(s);
    let a = text::replace(tamed.as_slice(), "@channel", "@\u{200b}channel");
    let b = text::replace(a.as_slice(), "@here", "@\u{200b}here");
    text::replace(b.as_slice(), "@everyone", "@\u{200b}everyone")
}

// ---- Lines ------------------------------------------------------------------

/// A part of a line outside code.
pub open spec fn rendered_text(part: Seq<char>) -> Seq<char> {
    neutralized(text::replaced(text::replaced(part, "**"@, "*"@), "__"@, "*"@))
}

/// The parts of a line from the `k`th on, every second one of which is code.
pub open spec fn rendered_parts(parts: Seq<Seq<char>>, k: int) -> Seq<char>
    decreases parts.len() - k,
{
    if k < 0 || k >= parts.len() {
        Seq::empty()
    } else if k % 2 == 0 {
        rendered_text(parts[k]) + rendered_parts(parts, k + 1)
    } else {
        "`"@ + parts[k] + "`"@ + rendered_parts(parts, k + 1)
    }
}

/// A line outside a fenced block.
pub open spec fn rendered_line(line: Seq<char>) -> Seq<char> {
    rendered_parts(text::split_on(markup::without_heading(line), '`'), 0)
}

/// The lines from the `k`th on; those of a fenced block stay as they are.
pub open spec fn rendered_lines(list: Seq<Seq<char>>, k: int, fenced: bool) -> Seq<Seq<char>>
    decreases list.len() - k,
{
    if k < 0 || k >= list.len() {
        Seq::empty()
    } else if markup::is_fence(list[k]) {
        seq![list[k]] + rendered_lines(list, k + 1, !fenced)
    } else if fenced {
        seq![list[k]] + rendered_lines(list, k + 1, fenced)
    } else {
        seq![rendered_line(list[k])] + rendered_lines(list, k + 1, fenced)
    }
}

/// A text in Slack's markup.
pub open spec fn rendered(s: Seq<char>) -> Seq<char> {
    text::joined(rendered_lines(lines::lines(s), 0, false), "\n"@)
}

fn render_line(line: &[char]) -> (out: Vec<char>)
    ensures
        out@ == rendered_line(line@),
{
    proof {
        reveal_strlit("**");
        reveal_strlit("__");
    }
    let parts = text::split_char(markup::strip_heading(line), '`');
    let ghost all = text::slice_views(parts@);
    let mut out: Vec<char> = Vec::new();
    let mut k: usize = 0;
    while k < parts.len()
        invariant
            "**"@.len() > 0,
            "__"@.len() > 0,
            all == text::slice_views(parts@),
            k <= parts@.len(),
            out@ + rendered_parts(all, k as int) =~= rendered_parts(all, 0),
        decreases parts@.len() - k,
    {
        let ghost before = out@;
        assert(all[k as int] == parts@[k as int]@);
        if k % 2 == 0 {
            let bold = text::replace(parts[k], "**", "*");
            let both = text::replace(bold.as_slice(), "__", "*");
            text::push_all(&mut out, neutralize(both.as_slice()).as_slice());
        } else {
            text::push_str(&mut out, "`");
            text::push_all(&mut out, parts[k]);
            text::push_str(&mut out, "`");
        }
        assert(out@ + rendered_parts(all, k + 1) =~= before + rendered_parts(all, k as int));
        k = k + 1;
    }
    out
}

/// A text in Slack's markup: headings lose their marks and emphasis is rendered,
/// but not inside code, and nothing but links is left that Slack would act on.
pub fn render(input: &str) -> (out: String)
    ensures
        out@ == rendered(input@),
{
    let chars = text::to_chars(input);
    let list = lines::split_lines(chars.as_slice());
    let ghost all = text::slice_views(list@);
    let mut parts: Vec<Vec<char>> = Vec::new();
    let mut fenced = false;
    let mut k: usize = 0;
    while k < list.len()
        invariant
            all == text::slice_views(list@),
            all == lines::lines(input@),
            k <= list@.len(),
            text::vec_views(parts@) + rendered_lines(all, k as int, fenced) =~= rendered_lines(
                all,
                0,
                false,
            ),
        decreases list@.len() - k,
    {
        let ghost before = parts@;
        assert(all[k as int] == list@[k as int]@);
        let part = if markup::starts_fence(list[k]) {
            fenced = !fenced;
            text::copy_chars(list[k])
        } else if fenced {
            text::copy_chars(list[k])
        } else {
            render_line(list[k])
        };
        parts.push(part);
        assert(text::vec_views(parts@) =~= text::vec_views(before).push(part@));
        assert(text::vec_views(parts@) + rendered_lines(all, k + 1, fenced) =~= text::vec_views(
            before,
        ) + (seq![part@] + rendered_lines(all, k + 1, fenced)));
        k = k + 1;
    }
    let out = text::join(&parts, "\n");
    text::from_chars(out.as_slice())
}

// ---- Messages ---------------------------------------------------------------

/// The last index before `n` of white space in `s`, or -1.
pub open spec fn last_white(s: Seq<char>, n: nat) -> int
    decreases n,
{
    if n == 0 {
        -1
    } else if text::is_white(s[n - 1]) {
        n - 1
    } else {
        last_white(s, (n - 1) as nat)
    }
}

/// Where a text that is too long is cut: after the last white space that fits, else
/// where the limit is, but not before one character.
pub open spec fn cut_at(s: Seq<char>, limit: nat) -> nat {
    let n = lines::fitting(s, limit);
    if n == 0 {
        1
    } else if last_white(s, n) > 0 {
        (last_white(s, n) + 1) as nat
    } else {
        n
    }
}

proof fn lemma_last_white(s: Seq<char>, n: nat)
    requires
        n <= s.len(),
    ensures
        -1 <= last_white(s, n) < n,
        last_white(s, n) >= 0 ==> text::is_white(s[last_white(s, n)]),
    decreases n,
{
    if n > 0 && !text::is_white(s[n - 1]) {
        lemma_last_white(s, (n - 1) as nat);
    }
}

proof fn lemma_cut_at(s: Seq<char>, limit: nat)
    requires
        s.len() > 0,
    ensures
        1 <= cut_at(s, limit) <= s.len(),
        text::utf8_units(s.take(cut_at(s, limit) as int)) <= limit || cut_at(s, limit) == 1,
{
    let n = lines::fitting(s, limit);
    lines::lemma_fitting(s, limit);
    if n > 0 {
        lemma_last_white(s, n);
        let cut = cut_at(s, limit) as int;
        text::lemma_units_part(s.take(n as int), 0, cut);
        assert(s.take(n as int).subrange(0, cut) =~= s.take(cut));
    }
}

/// The messages of a text that is not empty.
pub open spec fn chunks_from(s: Seq<char>, limit: nat) -> Seq<Seq<char>>
    decreases s.len(),
    via chunks_from_decreases
{
    if s.len() == 0 {
        Seq::empty()
    } else if text::utf8_units(s) <= limit {
        seq![s]
    } else {
        seq![s.take(cut_at(s, limit) as int)] + chunks_from(
            s.skip(cut_at(s, limit) as int),
            limit,
        )
    }
}

#[via_fn]
proof fn chunks_from_decreases(s: Seq<char>, limit: nat) {
    if s.len() > 0 {
        lemma_cut_at(s, limit);
    }
}

/// The messages of a text: one where it fits.
pub open spec fn chunked(s: Seq<char>, limit: nat) -> Seq<Seq<char>> {
    if s.len() == 0 {
        seq![s]
    } else {
        chunks_from(s, limit)
    }
}

fn find_cut(s: &[char], limit: usize) -> (cut: usize)
    requires
        s@.len() > 0,
    ensures
        cut == cut_at(s@, limit as nat),
        1 <= cut <= s@.len(),
{
    proof {
        lemma_cut_at(s@, limit as nat);
        lines::lemma_fitting(s@, limit as nat);
    }
    let n: usize = lines::count_fitting(s, limit);
    if n == 0 {
        return 1;
    }
    let mut k: usize = n;
    while k > 0 && !text::is_whitespace(s[k - 1])
        invariant
            k <= n <= s@.len(),
            last_white(s@, n as nat) == last_white(s@, k as nat),
        decreases k,
    {
        k = k - 1;
    }
    if k > 1 {
        k
    } else {
        n
    }
}

/// The messages of a text, each of at most `limit` bytes; only a single character
/// that is wider makes a message of its own.
pub fn chunk(input: &str, limit: usize) -> (list: Vec<String>)
    requires
        limit > 0,
    ensures
        text::views(list@) == chunked(input@, limit as nat),
{
    let chars = text::to_chars(input);
    let mut list: Vec<String> = Vec::new();
    if chars.len() == 0 {
        list.push(input.to_owned());
        assert(text::views(list@) =~= seq![input@]);
        return list;
    }
    let s = chars.as_slice();
    let n: usize = s.len();
    let total: usize = text::byte_len(input);
    let mut i: usize = 0;
    assert(s@.skip(0) =~= s@);
    while i < n
        invariant
            n == s@.len(),
            i <= n,
            total == text::utf8_units(s@),
            text::views(list@) + chunks_from(s@.skip(i as int), limit as nat) =~= chunks_from(
                s@,
                limit as nat,
            ),
        decreases n - i,
    {
        let ghost before = list@;
        let ghost rest = s@.skip(i as int);
        let remaining = text::skip(s, i);
        let cut: usize = if limit < usize::MAX && text::utf8_capped(remaining, limit + 1) > limit {
            find_cut(remaining, limit)
        } else {
            proof {
                text::lemma_units_part(s@, i as int, n as int);
                assert(s@.subrange(i as int, n as int) =~= remaining@);
                assert(text::utf8_units(rest) <= limit);
                assert(rest.skip(rest.len() as int) =~= Seq::<char>::empty());
            }
            remaining.len()
        };
        let piece = text::from_chars(text::take(remaining, cut));
        list.push(piece);
        assert(text::views(list@) =~= text::views(before) + seq![piece@]);
        assert(s@.skip(i + cut) =~= rest.skip(cut as int));
        assert(rest.take(rest.len() as int) =~= rest);
        assert(text::views(list@) + chunks_from(s@.skip(i + cut), limit as nat) =~= text::views(
            before,
        ) + (seq![piece@] + chunks_from(rest.skip(cut as int), limit as nat)));
        i = i + cut;
    }
    list
}

// ---- Laws -------------------------------------------------------------------

/// Messages put together are the text; each fits the limit or is one character
/// that is wider, and holds something unless the text is empty.
pub proof fn chunks_make_up_the_text(s: Seq<char>, limit: nat)
    ensures
        text::concatenated(chunked(s, limit)) == s,
        chunked(s, limit).len() >= 1,
        forall|i: int|
            0 <= i < chunked(s, limit).len() ==> text::utf8_units(#[trigger] chunked(s, limit)[i])
                <= limit || chunked(s, limit)[i].len() == 1,
        forall|i: int|
            s.len() > 0 && 0 <= i < chunked(s, limit).len() ==> (#[trigger] chunked(
                s,
                limit,
            )[i]).len() > 0,
    decreases s.len(),
{
    if s.len() == 0 {
        text::lemma_concatenated_one(s);
        assert(text::utf8_units(s) == 0);
    } else if text::utf8_units(s) <= limit {
        text::lemma_concatenated_one(s);
    } else {
        lemma_cut_at(s, limit);
        let cut = cut_at(s, limit) as int;
        let head = s.take(cut);
        let rest = s.skip(cut);
        text::lemma_concatenated_one(head);
        text::lemma_concatenated_add(seq![head], chunks_from(rest, limit));
        assert(head + rest =~= s);
        chunks_make_up_the_text(rest, limit);
        if rest.len() == 0 {
            assert(chunks_from(rest, limit) =~= Seq::<Seq<char>>::empty());
            assert(text::concatenated(Seq::<Seq<char>>::empty()) =~= Seq::<char>::empty());
        }
        assert forall|i: int| 0 <= i < chunked(s, limit).len() implies (text::utf8_units(
            #[trigger] chunked(s, limit)[i],
        ) <= limit || chunked(s, limit)[i].len() == 1) && chunked(s, limit)[i].len() > 0 by {
            if i > 0 {
                assert(chunked(s, limit)[i] == chunks_from(rest, limit)[i - 1]);
            }
        }
    }
}

/// Where the limit leaves room for any character, every message fits it.
pub proof fn chunks_fit_a_wide_limit(s: Seq<char>, limit: nat, i: int)
    requires
        limit >= 4,
        0 <= i < chunked(s, limit).len(),
    ensures
        text::utf8_units(chunked(s, limit)[i]) <= limit,
{
    chunks_make_up_the_text(s, limit);
    let piece = chunked(s, limit)[i];
    if piece.len() == 1 {
        assert(piece =~= seq![piece[0]]);
        text::lemma_units_one(piece[0]);
    }
}

/// Whether no angle bracket opens inside another pair.
pub open spec fn unnested(s: Seq<char>) -> bool {
    forall|i: int|
        0 <= i < s.len() && #[trigger] s[i] == '<' ==> text::next_at(s, '<', i + 1) >= s.len()
            || text::next_at(s, '<', i + 1) > text::next_at(s, '>', i + 1)
}

/// Where brackets are not nested, each that is left open for Slack begins a link.
pub proof fn only_links_are_left(s: Seq<char>, i: int, k: int)
    requires
        unnested(s),
        0 <= i <= s.len(),
        0 <= k < tame_from(s, i).len(),
        tame_from(s, i)[k] == '<',
    ensures
        is_link(tame_from(s, i).skip(k + 1)),
    decreases s.len() - i,
{
    reveal_strlit("&lt;");
    reveal_strlit("<");
    reveal_strlit(">");
    text::lemma_next_at(s, '<', i);
    let start = text::next_at(s, '<', i);
    let out = tame_from(s, i);
    if start >= s.len() {
        assert(out[k] == s[i + k]);
    } else {
        assert(s[start] == '<');
        text::lemma_next_at(s, '<', start + 1);
        text::lemma_next_at(s, '>', start + 1);
        let end = text::next_at(s, '>', start + 1);
        let head = s.subrange(i, start);
        if k < head.len() {
            assert(out[k] == s[i + k]);
        } else if end >= s.len() {
            if k >= head.len() + 4 {
                assert(out[k] == s[start + 1 + (k - head.len() - 4)]);
            } else {
                assert(out[k] == "&lt;"@[k - head.len()]);
            }
        } else {
            let token = s.subrange(start + 1, end);
            let open = if is_link(token) {
                "<"@
            } else {
                "&lt;"@
            };
            let rest = tame_from(s, end + 1);
            assert(out =~= head + open + token + ">"@ + rest);
            let at = head.len() + open.len();
            if k < at {
                assert(out[k] == open[k - head.len()]);
                assert(is_link(token));
                assert(open =~= "<"@);
                let tail = out.skip(k + 1);
                assert(tail =~= token + ">"@ + rest);
                lemma_link_extends(token, ">"@ + rest);
                assert(tail =~= token + (">"@ + rest));
            } else if k < at + token.len() {
                assert(out[k] == s[start + 1 + (k - at)]);
            } else if k == at + token.len() {
                assert(out[k] == '>');
            } else {
                let j = k - (at + token.len() + 1);
                assert(out[k] == rest[j]);
                only_links_are_left(s, end + 1, j);
                assert(out.skip(k + 1) =~= rest.skip(j + 1));
            }
        }
    }
}

proof fn lemma_link_extends(token: Seq<char>, more: Seq<char>)
    requires
        is_link(token),
    ensures
        is_link(token + more),
{
    reveal_strlit("http://");
    reveal_strlit("https://");
    reveal_strlit("mailto:");
    assert((token + more).take("http://"@.len() as int) =~= token.take("http://"@.len() as int)
        || token.len() < "http://"@.len());
    assert((token + more).take("https://"@.len() as int) =~= token.take("https://"@.len() as int)
        || token.len() < "https://"@.len());
    assert((token + more).take("mailto:"@.len() as int) =~= token.take("mailto:"@.len() as int)
        || token.len() < "mailto:"@.len());
}

} // verus!
