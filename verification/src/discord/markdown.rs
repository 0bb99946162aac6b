//! Rendering answers for Discord, and cutting them into messages.

use crate::lines;
use crate::markup;
use crate::text;
use vstd::prelude::*;
use vstd::slice::slice_subrange;
use vstd::string::*;

verus! {

/// The most characters of a message.
pub const MESSAGE_LIMIT: usize = 2_000;

/// The most characters of a fence's language that are carried into the next message.
pub const MAX_CARRIED_LANGUAGE: usize = 1_991;

// ---- Rendering --------------------------------------------------------------

/// A line outside a fenced block.
pub open spec fn rendered_line(line: Seq<char>) -> Seq<char> {
    text::replaced(
        text::replaced(markup::without_heading(line), "@everyone"@, "@\u{200b}everyone"@),
        "@here"@,
        "@\u{200b}here"@,
    )
}

/// The lines from the `k`th on; those of a fenced block stay as they are.
pub open spec fn rendered_lines(list: Seq<Seq<char>>, k: int, fenced: bool) -> Seq<Seq<char>>
    decreases list.len() - k,
{
    if k < 0 || k >= list.len() {
        Seq::empty()
    } else if markup::is_fence(list[k]) {
        seq![list[k]] + rendered_lines(list, k + 1, !fenced)
    } else if fenced {
        seq![list[k]] + rendered_lines(list, k + 1, fenced)
    } else {
        seq![rendered_line(list[k])] + rendered_lines(list, k + 1, fenced)
    }
}

/// A text as Discord shows it.
pub open spec fn rendered(s: Seq<char>) -> Seq<char> {
    text::joined(rendered_lines(lines::lines(s), 0, false), "\n"@)
}

fn render_line(line: &[char]) -> (out: Vec<char>)
    ensures
        out@ == rendered_line(line@),
{
    proof {
        reveal_strlit("@everyone");
        reveal_strlit("@here");
    }
    let all = text::replace(markup::strip_heading(line), "@everyone", "@\u{200b}everyone");
    text::replace(all.as_slice(), "@here", "@\u{200b}here")
}

/// A text as Discord shows it: headings lose their marks and no one is notified,
/// but fenced blocks stay as they are.
pub fn render(input: &str) -> (out: String)
    ensures
        out@ == rendered(input@),
{
    let chars = text::to_chars(input);
    let list = lines::split_lines(chars.as_slice());
    let ghost all = text::slice_views(list@);
    let mut parts: Vec<Vec<char>> = Vec::new();
    let mut fenced = false;
    let mut k: usize = 0;
    while k < list.len()
        invariant
            all == text::slice_views(list@),
            all == lines::lines(input@),
            k <= list@.len(),
            text::vec_views(parts@) + rendered_lines(all, k as int, fenced) =~= rendered_lines(
                all,
                0,
                false,
            ),
        decreases list@.len() - k,
    {
        let ghost before = parts@;
        assert(all[k as int] == list@[k as int]@);
        let part = if markup::starts_fence(list[k]) {
            fenced = !fenced;
            text::copy_chars(list[k])
        } else if fenced {
            text::copy_chars(list[k])
        } else {
            render_line(list[k])
        };
        parts.push(part);
        assert(text::vec_views(parts@) =~= text::vec_views(before).push(part@));
        assert(text::vec_views(parts@) + rendered_lines(all, k + 1, fenced) =~= text::vec_views(
            before,
        ) + (seq![part@] + rendered_lines(all, k + 1, fenced)));
        k = k + 1;
    }
    let out = text::join(&parts, "\n");
    text::from_chars(out.as_slice())
}

// ---- Cutting ----------------------------------------------------------------

/// How many of the lines open or close a fenced block.
pub open spec fn fence_count(list: Seq<Seq<char>>) -> nat
    decreases list.len(),
{
    if list.len() == 0 {
        0
    } else if markup::is_fence(list.last()) {
        fence_count(list.drop_last()) + 1
    } else {
        fence_count(list.drop_last())
    }
}

/// The language that the last fence among the lines names.
pub open spec fn last_language(list: Seq<Seq<char>>) -> Option<Seq<char>>
    decreases list.len(),
{
    if list.len() == 0 {
        None
    } else if markup::is_fence(list.last()) {
        Some(
            text::capped(
                text::trimmed(text::trimmed_start(list.last()).skip(3)),
                MAX_CARRIED_LANGUAGE as nat,
            ),
        )
    } else {
        last_language(list.drop_last())
    }
}

/// What a message begins with: the fence that was open before it.
pub open spec fn opening(open: Option<Seq<char>>) -> Seq<char> {
    match open {
        Some(language) => "```"@ + language + "\n"@,
        None => Seq::empty(),
    }
}

/// How many characters of the text a message has room for.
pub open spec fn room(open: Option<Seq<char>>) -> nat {
    if opening(open).len() + 5 <= MESSAGE_LIMIT {
        (MESSAGE_LIMIT - opening(open).len() - 4) as nat
    } else {
        1
    }
}

/// The last index before `n` of `c` in `s`, or -1.
pub open spec fn last_at(s: Seq<char>, c: char, n: nat) -> int
    decreases n,
{
    if n == 0 {
        -1
    } else if s[n - 1] == c {
        n - 1
    } else {
        last_at(s, c, (n - 1) as nat)
    }
}

/// The last index before `n` of white space in `s`, or -1.
pub open spec fn last_white(s: Seq<char>, n: nat) -> int
    decreases n,
{
    if n == 0 {
        -1
    } else if text::is_white(s[n - 1]) {
        n - 1
    } else {
        last_white(s, (n - 1) as nat)
    }
}

/// White space that a message ends with, rather than the next begins with.
pub open spec fn ends_message(c: char) -> bool {
    c == '\n' || c == ' ' || c == '\t' || c == '\r' || c == '\u{c}'
}

/// Where a text that is too long is cut: at the last line break that fits, else at
/// the last white space, else where the room ends.
pub open spec fn cut_at(s: Seq<char>, n: nat) -> nat {
    let boundary = if last_at(s, '\n', n) >= 0 {
        last_at(s, '\n', n)
    } else {
        last_white(s, n)
    };
    if boundary <= 0 {
        n
    } else if ends_message(s[boundary]) {
        (boundary + 1) as nat
    } else {
        boundary as nat
    }
}

/// How much of the text goes into the next message.
pub open spec fn body_len(s: Seq<char>, open: Option<Seq<char>>) -> nat {
    if s.len() <= room(open) {
        s.len()
    } else {
        cut_at(s, room(open))
    }
}

/// The fence that is open after a part of the text.
pub open spec fn open_after(body: Seq<char>, open: Option<Seq<char>>) -> Option<Seq<char>> {
    let list = lines::lines(body);
    if (open is Some) == (fence_count(list) % 2 == 1) {
        None
    } else {
        match last_language(list) {
            Some(language) => Some(language),
            None => match open {
                Some(language) => Some(language),
                None => Some(Seq::empty()),
            },
        }
    }
}

/// A message: the part of the text with the fences around it that it needs.
pub open spec fn message(body: Seq<char>, open: Option<Seq<char>>) -> Seq<char> {
    opening(open) + body + (if open_after(body, open) is Some {
        "\n```"@
    } else {
        Seq::empty()
    })
}

/// The messages of the rest of a text, with the fence that is open before it.
pub open spec fn messages_from(s: Seq<char>, open: Option<Seq<char>>) -> Seq<Seq<char>>
    decreases s.len(),
    via messages_from_decreases
{
    if s.len() == 0 {
        Seq::empty()
    } else {
        let body = s.take(body_len(s, open) as int);
        seq![message(body, open)] + messages_from(
            s.skip(body_len(s, open) as int),
            open_after(body, open),
        )
    }
}

#[via_fn]
proof fn messages_from_decreases(s: Seq<char>, open: Option<Seq<char>>) {
    if s.len() > 0 {
        lemma_body_len(s, open);
    }
}

/// The messages of a text.
pub open spec fn messages(s: Seq<char>) -> Seq<Seq<char>> {
    if s.len() == 0 {
        seq![s]
    } else {
        messages_from(s, None)
    }
}

proof fn lemma_last_at(s: Seq<char>, c: char, n: nat)
    requires
        n <= s.len(),
    ensures
        -1 <= last_at(s, c, n) < n,
    decreases n,
{
    if n > 0 && s[n - 1] != c {
        lemma_last_at(s, c, (n - 1) as nat);
    }
}

proof fn lemma_last_white(s: Seq<char>, n: nat)
    requires
        n <= s.len(),
    ensures
        -1 <= last_white(s, n) < n,
    decreases n,
{
    if n > 0 && !text::is_white(s[n - 1]) {
        lemma_last_white(s, (n - 1) as nat);
    }
}

proof fn lemma_body_len(s: Seq<char>, open: Option<Seq<char>>)
    requires
        s.len() > 0,
    ensures
        1 <= body_len(s, open) <= s.len(),
        body_len(s, open) <= room(open),
{
    if s.len() > room(open) {
        lemma_last_at(s, '\n', room(open));
        lemma_last_white(s, room(open));
    }
}

fn find_cut(s: &[char], n: usize) -> (cut: usize)
    requires
        1 <= n <= s@.len(),
    ensures
        cut == cut_at(s@, n as nat),
{
    let mut k: usize = n;
    while k > 0 && s[k - 1] != '\n'
        invariant
            k <= n <= s@.len(),
            last_at(s@, '\n', n as nat) == last_at(s@, '\n', k as nat),
        decreases k,
    {
        k = k - 1;
    }
    if k == 0 {
        k = n;
        while k > 0 && !text::is_whitespace(s[k - 1])
            invariant
                k <= n <= s@.len(),
                last_white(s@, n as nat) == last_white(s@, k as nat),
            decreases k,
        {
            k = k - 1;
        }
        if k == 0 {
            return n;
        }
    }
    let boundary: usize = k - 1;
    if boundary == 0 {
        return n;
    }
    let c = s[boundary];
    if c == '\n' || c == ' ' || c == '\t' || c == '\r' || c == '\u{c}' {
        boundary + 1
    } else {
        boundary
    }
}

/// The fence that is open after a part of the text.
fn find_open(body: &[char], open: Option<Vec<char>>) -> (r: Option<Vec<char>>)
    ensures
        opt_chars(r) == open_after(body@, opt_chars(open)),
{
    let list = lines::split_lines(body);
    let ghost all = text::slice_views(list@);
    let mut odd = false;
    let mut language: Option<Vec<char>> = None;
    let mut k: usize = 0;
    assert(all.take(0) =~= Seq::<Seq<char>>::empty());
    while k < list.len()
        invariant
            all == text::slice_views(list@),
            k <= list@.len(),
            odd == (fence_count(all.take(k as int)) % 2 == 1),
            opt_chars(language) == last_language(all.take(k as int)),
        decreases list@.len() - k,
    {
        assert(all.take(k + 1).drop_last() =~= all.take(k as int));
        assert(all.take(k + 1).last() == list@[k as int]@);
        if markup::starts_fence(list[k]) {
            odd = !odd;
            proof {
                reveal_strlit("```");
            }
            let tail = text::skip(text::trim_start(list[k]), 3);
            language = Some(text::copy_chars(text::cap(text::trim(tail), MAX_CARRIED_LANGUAGE)));
        }
        k = k + 1;
    }
    assert(all.take(k as int) =~= all);
    if open.is_some() == odd {
        None
    } else {
        match language {
            Some(language) => Some(language),
            None => match open {
                Some(language) => Some(language),
                None => {
                    let none: Vec<char> = Vec::new();
                    assert(none@ =~= Seq::<char>::empty());
                    Some(none)
                },
            },
        }
    }
}

/// An optional text.
pub open spec fn opt_chars(value: Option<Vec<char>>) -> Option<Seq<char>> {
    match value {
        Some(chars) => Some(chars@),
        None => None,
    }
}

fn write_opening(open: &Option<Vec<char>>) -> (out: Vec<char>)
    ensures
        out@ == opening(opt_chars(*open)),
{
    match open {
        Some(language) => {
            let mut out = text::to_chars("```");
            text::push_all(&mut out, language.as_slice());
            text::push_str(&mut out, "\n");
            out
        },
        None => {
            let out: Vec<char> = Vec::new();
            assert(out@ =~= Seq::<char>::empty());
            out
        },
    }
}

/// The messages of a text: cut at line breaks or white space where that is possible,
/// each with balanced fences; a fence that is open at a cut is closed, and opened
/// again in the next message with its language.
pub fn chunk(input: &str) -> (list: Vec<String>)
    ensures
        text::views(list@) == messages(input@),
{
    let chars = text::to_chars(input);
    let mut list: Vec<String> = Vec::new();
    if chars.len() == 0 {
        list.push(input.to_owned());
        assert(text::views(list@) =~= seq![input@]);
        return list;
    }
    let s = chars.as_slice();
    let n: usize = s.len();
    let mut open: Option<Vec<char>> = None;
    let mut i: usize = 0;
    assert(s@.skip(0) =~= s@);
    while i < n
        invariant
            n == s@.len(),
            i <= n,
            text::views(list@) + messages_from(s@.skip(i as int), opt_chars(open))
                =~= messages_from(s@, None),
        decreases n - i,
    {
        let ghost before = list@;
        let ghost rest = s@.skip(i as int);
        let ghost carried = opt_chars(open);
        let mut out = write_opening(&open);
        let space: usize = if out.len() <= 1_995 {
            MESSAGE_LIMIT - out.len() - 4
        } else {
            1
        };
        let remaining = slice_subrange(s, i, n);
        assert(remaining@ =~= rest);
        let end: usize = if remaining.len() <= space {
            remaining.len()
        } else {
            find_cut(remaining, space)
        };
        proof {
            lemma_body_len(rest, carried);
        }
        let body = text::take(remaining, end);
        text::push_all(&mut out, body);
        open = find_open(body, open);
        if open.is_some() {
            text::push_str(&mut out, "\n```");
        }
        assert(out@ =~= message(body@, carried));
        let shown = text::from_chars(out.as_slice());
        list.push(shown);
        assert(text::views(list@) =~= text::views(before) + seq![shown@]);
        assert(s@.skip(i + end) =~= rest.skip(end as int));
        assert(text::views(list@) + messages_from(s@.skip(i + end), opt_chars(open))
            =~= text::views(before) + (seq![shown@] + messages_from(
            rest.skip(end as int),
            opt_chars(open),
        )));
        i = i + end;
    }
    list
}

// ---- Laws -------------------------------------------------------------------

/// Whether the language of an open fence is one that can be carried.
pub open spec fn can_be_carried(open: Option<Seq<char>>) -> bool {
    match open {
        Some(language) => language.len() <= MAX_CARRIED_LANGUAGE && !language.contains('\n'),
        None => true,
    }
}

proof fn lemma_trimmed_part(s: Seq<char>)
    ensures
        text::trimmed_start(s).len() <= s.len(),
        text::trimmed_end(s).len() <= s.len(),
        !s.contains('\n') ==> !text::trimmed_start(s).contains('\n') && !text::trimmed_end(
            s,
        ).contains('\n'),
    decreases s.len(),
{
    if s.len() > 0 {
        if text::is_white(s[0]) {
            lemma_trimmed_part(s.skip(1));
            if !s.contains('\n') {
                assert forall|i: int| 0 <= i < s.skip(1).len() implies s.skip(1)[i] != '\n' by {
                    assert(s[i + 1] == s.skip(1)[i]);
                }
            }
        }
        if text::is_white(s.last()) {
            lemma_trimmed_part(s.drop_last());
            if !s.contains('\n') {
                assert forall|i: int| 0 <= i < s.drop_last().len() implies s.drop_last()[i]
                    != '\n' by {
                    assert(s[i] == s.drop_last()[i]);
                }
            }
        }
    }
}

proof fn lemma_lines_unbroken(s: Seq<char>, i: int)
    requires
        0 <= i <= s.len(),
    ensures
        forall|k: int|
            0 <= k < lines::lines_from(s, i).len() ==> !(#[trigger] lines::lines_from(
                s,
                i,
            )[k]).contains('\n'),
    decreases s.len() - i,
{
    text::lemma_next_at(s, '\n', i);
    let end = text::next_at(s, '\n', i);
    let all = lines::lines_from(s, i);
    if i < s.len() {
        let line = if end >= s.len() {
            s.skip(i)
        } else {
            lines::without_return(s.subrange(i, end))
        };
        assert forall|j: int| 0 <= j < line.len() implies line[j] != '\n' by {
            assert(line[j] == s[i + j]);
        }
        if end < s.len() {
            lemma_lines_unbroken(s, end + 1);
            let rest = lines::lines_from(s, end + 1);
            assert forall|k: int| 0 <= k < all.len() implies !(#[trigger] all[k]).contains(
                '\n',
            ) by {
                if k > 0 {
                    assert(all[k] == rest[k - 1]);
                }
            }
        }
    }
}

proof fn lemma_last_language(list: Seq<Seq<char>>)
    requires
        forall|k: int| 0 <= k < list.len() ==> !(#[trigger] list[k]).contains('\n'),
    ensures
        can_be_carried(last_language(list)),
    decreases list.len(),
{
    if list.len() > 0 {
        if markup::is_fence(list.last()) {
            let line = list.last();
            lemma_trimmed_part(line);
            let start = text::trimmed_start(line);
            reveal_strlit("```");
            let tail = start.skip(3);
            assert forall|j: int| 0 <= j < tail.len() implies tail[j] != '\n' by {
                assert(tail[j] == start[j + 3]);
            }
            lemma_trimmed_part(tail);
            lemma_trimmed_part(text::trimmed_start(tail));
            lemma_trimmed_part(text::trimmed_end(tail));
            let name = text::trimmed(tail);
            let short = text::capped(name, MAX_CARRIED_LANGUAGE as nat);
            assert forall|j: int| 0 <= j < short.len() implies short[j] != '\n' by {
                assert(short[j] == name[j]);
            }
        } else {
            lemma_last_language(list.drop_last());
        }
    }
}

proof fn lemma_open_after(body: Seq<char>, open: Option<Seq<char>>)
    requires
        can_be_carried(open),
    ensures
        can_be_carried(open_after(body, open)),
{
    lemma_lines_unbroken(body, 0);
    lemma_last_language(lines::lines(body));
}

/// The parts of a text that go into its messages, each with the fence that is open
/// before it.
pub open spec fn parts_from(s: Seq<char>, open: Option<Seq<char>>) -> Seq<
    (Option<Seq<char>>, Seq<char>),
>
    decreases s.len(),
    via parts_from_decreases
{
    if s.len() == 0 {
        Seq::empty()
    } else {
        let body = s.take(body_len(s, open) as int);
        seq![(open, body)] + parts_from(
            s.skip(body_len(s, open) as int),
            open_after(body, open),
        )
    }
}

#[via_fn]
proof fn parts_from_decreases(s: Seq<char>, open: Option<Seq<char>>) {
    if s.len() > 0 {
        lemma_body_len(s, open);
    }
}

/// The texts of the parts.
pub open spec fn bodies(parts: Seq<(Option<Seq<char>>, Seq<char>)>) -> Seq<Seq<char>> {
    Seq::new(parts.len(), |i: int| parts[i].1)
}

/// Each message is one part of the text with the fences that it needs, and the parts
/// make up the text: nothing is lost or changed.
pub proof fn messages_make_up_the_text(s: Seq<char>, open: Option<Seq<char>>)
    ensures
        messages_from(s, open).len() == parts_from(s, open).len(),
        forall|i: int|
            0 <= i < parts_from(s, open).len() ==> #[trigger] messages_from(s, open)[i] == message(
                parts_from(s, open)[i].1,
                parts_from(s, open)[i].0,
            ),
        text::concatenated(bodies(parts_from(s, open))) == s,
    decreases s.len(),
{
    if s.len() == 0 {
        assert(bodies(parts_from(s, open)) =~= Seq::<Seq<char>>::empty());
        assert(text::concatenated(Seq::<Seq<char>>::empty()) =~= s);
    } else {
        lemma_body_len(s, open);
        let n = body_len(s, open) as int;
        let body = s.take(n);
        let rest = s.skip(n);
        let next = open_after(body, open);
        messages_make_up_the_text(rest, next);
        let parts = parts_from(s, open);
        let later = parts_from(rest, next);
        assert(parts =~= seq![(open, body)] + later);
        assert(bodies(parts) =~= seq![body] + bodies(later));
        text::lemma_concatenated_add(seq![body], bodies(later));
        text::lemma_concatenated_one(body);
        assert(body + rest =~= s);
        assert forall|i: int| 0 <= i < parts.len() implies #[trigger] messages_from(s, open)[i]
            == message(parts[i].1, parts[i].0) by {
            if i > 0 {
                assert(messages_from(s, open)[i] == messages_from(rest, next)[i - 1]);
                assert(parts[i] == later[i - 1]);
            }
        }
    }
}

proof fn lemma_message_fits(s: Seq<char>, open: Option<Seq<char>>, i: int)
    requires
        can_be_carried(open),
        0 <= i < messages_from(s, open).len(),
    ensures
        messages_from(s, open)[i].len() <= MESSAGE_LIMIT,
        fence_count(lines::lines(messages_from(s, open)[i])) % 2 == 0,
    decreases s.len(),
{
    lemma_body_len(s, open);
    let n = body_len(s, open) as int;
    let body = s.take(n);
    let next = open_after(body, open);
    lemma_open_after(body, open);
    reveal_strlit("```");
    reveal_strlit("\n");
    reveal_strlit("\n```");
    if i == 0 {
        assert(opening(open).len() <= 1_995);
        lemma_balanced(body, open);
    } else {
        lemma_message_fits(s.skip(n), next, i - 1);
        assert(messages_from(s, open)[i] == messages_from(s.skip(n), next)[i - 1]);
    }
}

/// Every message fits the limit.
pub proof fn every_message_fits(s: Seq<char>, i: int)
    requires
        0 <= i < messages(s).len(),
    ensures
        messages(s)[i].len() <= MESSAGE_LIMIT,
{
    if s.len() > 0 {
        lemma_message_fits(s, None, i);
    }
}

/// Every message opens as many fences as it closes.
pub proof fn every_message_has_balanced_fences(s: Seq<char>, i: int)
    requires
        0 <= i < messages(s).len(),
    ensures
        fence_count(lines::lines(messages(s)[i])) % 2 == 0,
{
    if s.len() > 0 {
        lemma_message_fits(s, None, i);
    } else {
        assert(lines::lines(s) =~= Seq::<Seq<char>>::empty());
    }
}

/// The next break is where one is, and none is before it.
proof fn lemma_next_is(s: Seq<char>, i: int, end: int)
    requires
        0 <= i <= end <= s.len(),
        end < s.len() ==> s[end] == '\n',
        forall|j: int| i <= j < end ==> s[j] != '\n',
    ensures
        text::next_at(s, '\n', i) == end,
{
    text::lemma_next_at(s, '\n', i);
    let r = text::next_at(s, '\n', i);
    if r < end {
        assert(s[r] != '\n');
    }
    if end < r {
        assert(s[end] != '\n');
    }
}

proof fn lemma_count_front(line: Seq<char>, list: Seq<Seq<char>>)
    ensures
        fence_count(seq![line] + list) == fence_count(list) + (if markup::is_fence(line) {
            1nat
        } else {
            0
        }),
    decreases list.len(),
{
    let all = seq![line] + list;
    if list.len() == 0 {
        assert(all =~= seq![line]);
        assert(all.last() == line);
        assert(all.drop_last() =~= Seq::<Seq<char>>::empty());
        assert(fence_count(all.drop_last()) == 0);
    } else {
        assert(all.drop_last() =~= seq![line] + list.drop_last());
        assert(all.last() == list.last());
        lemma_count_front(line, list.drop_last());
    }
}

/// A carriage return at the end of a line makes it neither more nor less of a fence.
proof fn lemma_return_is_no_fence(line: Seq<char>)
    requires
        line.len() > 0,
        line.last() == '\r',
    ensures
        markup::is_fence(line) == markup::is_fence(line.drop_last()),
    decreases line.len(),
{
    reveal_strlit("```");
    let less = line.drop_last();
    if text::is_white(line[0]) {
        if line.len() > 1 {
            lemma_return_is_no_fence(line.skip(1));
            assert(line.skip(1).drop_last() =~= less.skip(1));
            assert(text::trimmed_start(line) == text::trimmed_start(line.skip(1)));
            assert(text::trimmed_start(less) == text::trimmed_start(less.skip(1)));
        } else {
            assert(text::trimmed_start(line) == text::trimmed_start(line.skip(1)));
            assert(line.skip(1) =~= Seq::<char>::empty());
            assert(less =~= Seq::<char>::empty());
        }
    } else {
        assert(text::trimmed_start(line) == line);
        if less.len() > 0 {
            assert(text::trimmed_start(less) == less);
        } else {
            assert(text::is_white('\r'));
        }
        if line.len() >= 4 {
            assert(line.take(3) =~= less.take(3));
        } else if line.len() == 3 {
            assert(line.take(3)[2] == '\r');
            assert("```"@[2] == '`');
        }
    }
}

/// A fence after a text adds one fence to it.
proof fn lemma_closing(x: Seq<char>, i: int)
    requires
        0 <= i <= x.len(),
    ensures
        fence_count(lines::lines_from(x + "\n```"@, i)) == fence_count(lines::lines_from(x, i)) + 1,
    decreases x.len() - i,
{
    reveal_strlit("```");
    reveal_strlit("\n```");
    let y = x + "\n```"@;
    let n = x.len() as int;
    text::lemma_next_at(x, '\n', i);
    let end = text::next_at(x, '\n', i);
    assert(y.len() == n + 4);
    if end < n {
        assert forall|j: int| i <= j < end implies y[j] != '\n' by {
            assert(y[j] == x[j]);
        }
        assert(y[end] == x[end]);
        lemma_next_is(y, i, end);
        assert(y.subrange(i, end) =~= x.subrange(i, end));
        lemma_closing(x, end + 1);
        let line = lines::without_return(x.subrange(i, end));
        lemma_count_front(line, lines::lines_from(x, end + 1));
        lemma_count_front(line, lines::lines_from(y, end + 1));
    } else {
        assert forall|j: int| i <= j < n implies y[j] != '\n' by {
            assert(y[j] == x[j]);
        }
        assert(y[n] == '\n');
        lemma_next_is(y, i, n);
        assert forall|j: int| n + 1 <= j < y.len() implies y[j] != '\n' by {
            assert(y[j] == "\n```"@[j - n]);
        }
        lemma_next_is(y, n + 1, y.len() as int);
        let fence = y.skip(n + 1);
        assert(fence =~= "```"@);
        assert(lines::lines_from(y, n + 1) =~= seq![fence]);
        let part = x.skip(i);
        assert(y.subrange(i, n) =~= part);
        let line = lines::without_return(part);
        assert(text::trimmed_start(fence) == fence);
        assert(fence.take(3) =~= fence);
        assert(markup::is_fence(fence));
        lemma_count_front(line, seq![fence]);
        assert(seq![fence] =~= seq![fence] + Seq::<Seq<char>>::empty());
        lemma_count_front(fence, Seq::<Seq<char>>::empty());
        if i == n {
            assert(part =~= Seq::<char>::empty());
            assert(lines::lines_from(x, i) =~= Seq::<Seq<char>>::empty());
            assert(!markup::is_fence(line)) by {
                assert(text::trimmed_start(line).len() == 0);
            }
        } else {
            if part.last() == '\r' {
                lemma_return_is_no_fence(part);
            }
            assert(lines::lines_from(x, i) =~= seq![part] + Seq::<Seq<char>>::empty());
            lemma_count_front(part, Seq::<Seq<char>>::empty());
        }
    }
}

/// A line before a text adds itself to its lines.
proof fn lemma_shifted(a: Seq<char>, b: Seq<char>, i: int)
    requires
        0 <= i <= b.len(),
    ensures
        lines::lines_from(a + b, a.len() + i) == lines::lines_from(b, i),
    decreases b.len() - i,
{
    let y = a + b;
    let n = a.len() as int;
    text::lemma_next_at(b, '\n', i);
    let end = text::next_at(b, '\n', i);
    assert forall|j: int| n + i <= j < n + end implies y[j] != '\n' by {
        assert(y[j] == b[j - n]);
    }
    if end < b.len() {
        assert(y[n + end] == b[end]);
    }
    lemma_next_is(y, n + i, n + end);
    if i < b.len() {
        if end < b.len() {
            assert(y.subrange(n + i, n + end) =~= b.subrange(i, end));
            lemma_shifted(a, b, end + 1);
        } else {
            assert(y.skip(n + i) =~= b.skip(i));
        }
    }
}

/// The fence that a message begins with adds one fence to it.
proof fn lemma_opening(language: Seq<char>, body: Seq<char>)
    requires
        !language.contains('\n'),
    ensures
        fence_count(lines::lines(opening(Some(language)) + body)) == fence_count(lines::lines(body))
            + 1,
{
    reveal_strlit("```");
    reveal_strlit("\n");
    let a = opening(Some(language));
    let y = a + body;
    let end = 3 + language.len();
    let first = "```"@ + language;
    assert forall|j: int| 0 <= j < end implies y[j] != '\n' by {
        assert(y[j] == first[j]);
        if j >= 3 {
            assert(first[j] == language[j - 3]);
        }
    }
    assert(y[end as int] == '\n');
    lemma_next_is(y, 0, end as int);
    assert(y.subrange(0, end as int) =~= first);
    lemma_shifted(a, body, 0);
    assert(a.len() + 0 == end + 1);
    let line = lines::without_return(first);
    assert(line.len() >= 3) by {
        if language.len() == 0 {
            assert(first =~= "```"@);
            assert(first.last() == '`');
        }
    }
    assert(line[0] == '`');
    assert(text::trimmed_start(line) == line);
    assert(line.take(3) =~= "```"@);
    assert(markup::is_fence(line));
    lemma_count_front(line, lines::lines(body));
}

proof fn lemma_balanced(body: Seq<char>, open: Option<Seq<char>>)
    requires
        can_be_carried(open),
    ensures
        fence_count(lines::lines(message(body, open))) % 2 == 0,
{
    let start = opening(open) + body;
    if open is Some {
        lemma_opening(open->0, body);
    } else {
        assert(start =~= body);
    }
    if open_after(body, open) is Some {
        lemma_closing(start, 0);
        assert(message(body, open) =~= start + "\n```"@);
    } else {
        assert(message(body, open) =~= start);
    }
}

} // verus!
