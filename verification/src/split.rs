//! Replies as IRC lines.
//!
//! Basic markdown is stripped, then the text is packed into lines at word
//! boundaries. A line keeps to a character budget and to a byte budget that
//! leaves room for the `PRIVMSG` envelope in a 512-byte protocol line, and never
//! cuts a scalar value.

use crate::text;
use vstd::prelude::*;
use vstd::slice::slice_subrange;

verus! {

/// The most characters in a line.
pub const MAX_CHARS: usize = 450;

/// The most bytes in a line.
pub const MAX_BYTES: usize = 400;

// ---- Markdown ---------------------------------------------------------------

/// A character that marks emphasis or code.
pub open spec fn is_marker(c: char) -> bool {
    c == '*' || c == '_' || c == '`'
}

/// A link `[label](url)` whose `[` stands at `i`: the indices of its `]` and of
/// the first `)` after it.
pub open spec fn link_at(s: Seq<char>, i: int) -> Option<(int, int)> {
    let close = text::next_at(s, ']', i + 1);
    if close + 1 < s.len() && s[close + 1] == '(' {
        let end = text::next_at(s, ')', close + 2);
        if end < s.len() {
            Some((close, end))
        } else {
            None
        }
    } else {
        None
    }
}

/// An autolink `<url>` whose `<` stands at `i`: the index of its `>`.
pub open spec fn autolink_at(s: Seq<char>, i: int) -> Option<int> {
    let end = text::next_at(s, '>', i + 1);
    if end < s.len() && (text::begins_with(s.subrange(i + 1, end), "http://"@)
        || text::begins_with(s.subrange(i + 1, end), "https://"@)) {
        Some(end)
    } else {
        None
    }
}

/// `s` from index `i` on without its markdown; `fresh` says that a line begins at `i`.
pub open spec fn stripped_from(s: Seq<char>, i: int, fresh: bool) -> Seq<char>
    decreases s.len() - i,
    when 0 <= i <= s.len()
    via stripped_from_decreases
{
    if i >= s.len() {
        Seq::empty()
    } else if is_marker(s[i]) {
        stripped_from(s, i + text::run_of(s, s[i], i), false)
    } else if s[i] == '#' && fresh {
        let j = i + text::run_of(s, '#', i);
        stripped_from(s, j + text::run_of(s, ' ', j), false)
    } else if s[i] == '[' && link_at(s, i) is Some {
        let (close, end) = link_at(s, i)->0;
        s.subrange(i + 1, close) + stripped_from(s, end + 1, false)
    } else if s[i] == '<' && autolink_at(s, i) is Some {
        let end = autolink_at(s, i)->0;
        s.subrange(i + 1, end) + stripped_from(s, end + 1, false)
    } else {
        seq![s[i]] + stripped_from(s, i + 1, s[i] == '\n')
    }
}

#[via_fn]
proof fn stripped_from_decreases(s: Seq<char>, i: int, fresh: bool) {
    if i < s.len() {
        lemma_strip_step(s, i);
    }
}

proof fn lemma_strip_step(s: Seq<char>, i: int)
    requires
        0 <= i < s.len(),
    ensures
        text::run_of(s, s[i], i) >= 1,
        i + text::run_of(s, s[i], i) <= s.len(),
        i + text::run_of(s, s[i], i) + text::run_of(s, ' ', i + text::run_of(s, s[i], i))
            <= s.len(),
        link_at(s, i) matches Some((close, end)) ==> i < close < end < s.len(),
        autolink_at(s, i) matches Some(end) ==> i < end < s.len(),
{
    text::lemma_run_of(s, s[i], i);
    text::lemma_run_of(s, ' ', i + text::run_of(s, s[i], i));
    text::lemma_next_at(s, ']', i + 1);
    text::lemma_next_at(s, '>', i + 1);
    let close = text::next_at(s, ']', i + 1);
    if close + 1 < s.len() {
        text::lemma_next_at(s, ')', close + 2);
    }
}

/// `s` without emphasis and code markers, heading markers, link syntax and the
/// brackets of autolinks.
pub open spec fn stripped(s: Seq<char>) -> Seq<char> {
    stripped_from(s, 0, true)
}

/// A link whose `[` stands at `i`.
fn try_parse_link(s: &[char], i: usize) -> (r: Option<(usize, usize)>)
    requires
        i < s@.len(),
    ensures
        match r {
            Some((close, end)) => link_at(s@, i as int) == Some((close as int, end as int)),
            None => link_at(s@, i as int) == None::<(int, int)>,
        },
{
    let n: usize = s.len();
    let close: usize = text::find_char(s, ']', i + 1);
    if close < n && close < n - 1 && s[close + 1] == '(' {
        let end: usize = text::find_char(s, ')', close + 2);
        if end < n {
            return Some((close, end));
        }
    }
    None
}

/// An autolink whose `<` stands at `i`.
fn try_parse_autolink(s: &[char], i: usize) -> (r: Option<usize>)
    requires
        i < s@.len(),
    ensures
        match r {
            Some(end) => autolink_at(s@, i as int) == Some(end as int),
            None => autolink_at(s@, i as int) == None::<int>,
        },
{
    let n: usize = s.len();
    let end: usize = text::find_char(s, '>', i + 1);
    if end < n {
        let url = slice_subrange(s, i + 1, end);
        if text::starts_with(url, "http://") || text::starts_with(url, "https://") {
            return Some(end);
        }
    }
    None
}

/// The characters of `s` without its markdown.
fn strip_chars(s: &[char]) -> (out: Vec<char>)
    ensures
        out@ == stripped(s@),
{
    let mut out: Vec<char> = Vec::new();
    let mut fresh = true;
    let mut i: usize = 0;
    assert(out@ + stripped(s@) =~= stripped(s@));
    while i < s.len()
        invariant
            i <= s@.len(),
            out@ + stripped_from(s@, i as int, fresh) == stripped(s@),
        decreases s@.len() - i,
    {
        let c = s[i];
        let ghost before = out@;
        let ghost from = i as int;
        let ghost was_fresh = fresh;
        let ghost mut piece: Seq<char> = Seq::empty();
        proof {
            lemma_strip_step(s@, i as int);
        }
        if c == '*' || c == '_' || c == '`' {
            i = i + text::run_len(s, c, i);
            fresh = false;
        } else if c == '#' && fresh {
            i = i + text::run_len(s, '#', i);
            i = i + text::run_len(s, ' ', i);
            fresh = false;
        } else {
            let link = if c == '[' {
                try_parse_link(s, i)
            } else {
                None
            };
            let auto_end = if c == '<' {
                try_parse_autolink(s, i)
            } else {
                None
            };
            if let Some((close, end)) = link {
                text::push_all(&mut out, slice_subrange(s, i + 1, close));
                proof {
                    piece = s@.subrange(i + 1, close as int);
                }
                i = end + 1;
                fresh = false;
            } else if let Some(end) = auto_end {
                text::push_all(&mut out, slice_subrange(s, i + 1, end));
                proof {
                    piece = s@.subrange(i + 1, end as int);
                }
                i = end + 1;
                fresh = false;
            } else {
                out.push(c);
                proof {
                    piece = seq![c];
                    assert(out@ =~= before + piece);
                }
                i = i + 1;
                fresh = c == '\n';
            }
        }
        proof {
            let rest = stripped_from(s@, i as int, fresh);
            assert(out@ =~= before + piece);
            assert(stripped_from(s@, from, was_fresh) =~= piece + rest);
            vstd::seq_lib::lemma_concat_associative(before, piece, rest);
        }
    }
    assert(out@ + Seq::<char>::empty() =~= out@);
    out
}

/// `text` without its markdown.
pub fn strip_markdown(text: &str) -> (out: String)
    ensures
        out@ == stripped(text@),
{
    let chars = text::to_chars(text);
    let out = strip_chars(chars.as_slice());
    text::from_chars(out.as_slice())
}

// ---- Packing ----------------------------------------------------------------

/// The bytes that a line to `target` may have: what a 512-byte protocol line
/// leaves beside `PRIVMSG <target> :` and CRLF, but between 100 and `MAX_BYTES`.
pub open spec fn byte_budget(target: Seq<char>) -> nat {
    let used = text::utf8_units(target) + 12;
    if used + MAX_BYTES <= 512 {
        MAX_BYTES as nat
    } else if used + 100 <= 512 {
        (512 - used) as nat
    } else {
        100
    }
}

/// Whether a line keeps both budgets.
pub open spec fn in_budget(line: Seq<char>, budget: nat) -> bool {
    line.len() <= MAX_CHARS && text::utf8_units(line) <= budget
}

/// `current` with `word` after it.
pub open spec fn with_word(current: Seq<char>, word: Seq<char>) -> Seq<char> {
    if current.len() == 0 {
        word
    } else {
        current + seq![' '] + word
    }
}

/// How many characters of `s` from `k` on fit: at most `chars` of them, with at
/// most `bytes` bytes; counted as the index at which the fit ends.
pub open spec fn fit_end(s: Seq<char>, bytes: int, chars: int, k: int) -> int
    decreases s.len() - k,
{
    if k < 0 || k >= s.len() || chars <= 0 || text::utf8_width(s[k]) > bytes {
        k
    } else {
        fit_end(s, bytes - text::utf8_width(s[k]), chars - 1, k + 1)
    }
}

/// The length of the longest prefix of `s` that keeps both budgets.
pub open spec fn fit(s: Seq<char>, budget: nat) -> int {
    fit_end(s, budget as int, MAX_CHARS as int, 0)
}

proof fn lemma_fit_end(s: Seq<char>, bytes: int, chars: int, k: int)
    requires
        0 <= k <= s.len(),
        bytes >= 0,
        chars >= 0,
    ensures
        k <= fit_end(s, bytes, chars, k) <= s.len(),
        fit_end(s, bytes, chars, k) - k <= chars,
        text::utf8_units(s.subrange(k, fit_end(s, bytes, chars, k))) <= bytes,
        k < s.len() && bytes >= 4 && chars >= 1 ==> fit_end(s, bytes, chars, k) > k,
    decreases s.len() - k,
{
    if k < s.len() && chars > 0 && text::utf8_width(s[k]) <= bytes {
        let left = bytes - text::utf8_width(s[k]);
        lemma_fit_end(s, left, chars - 1, k + 1);
        let e = fit_end(s, left, chars - 1, k + 1);
        assert(s.subrange(k, e) =~= seq![s[k]] + s.subrange(k + 1, e));
        text::lemma_units_one(s[k]);
        text::lemma_units_add(seq![s[k]], s.subrange(k + 1, e));
    } else {
        assert(s.subrange(k, k) =~= Seq::empty());
    }
}

/// A word that is over the budget, cut into pieces that are as long as they can be.
pub open spec fn word_pieces(word: Seq<char>, budget: nat) -> Seq<Seq<char>>
    decreases word.len(),
    when budget >= 4
    via word_pieces_decreases
{
    if word.len() == 0 {
        Seq::empty()
    } else {
        seq![word.take(fit(word, budget))] + word_pieces(word.skip(fit(word, budget)), budget)
    }
}

#[via_fn]
proof fn word_pieces_decreases(word: Seq<char>, budget: nat) {
    lemma_fit_end(word, budget as int, MAX_CHARS as int, 0);
}

/// `current` as a line, unless it is empty.
pub open spec fn finished(current: Seq<char>) -> Seq<Seq<char>> {
    if current.len() == 0 {
        Seq::empty()
    } else {
        seq![current]
    }
}

/// The lines that hold the words from `k` on, with `current` begun: each word goes
/// on the line where it fits, and a word that fits no line is cut.
pub open spec fn packed(words: Seq<Seq<char>>, k: int, current: Seq<char>, budget: nat) -> Seq<
    Seq<char>,
>
    decreases words.len() - k,
{
    if k >= words.len() {
        finished(current)
    } else if in_budget(with_word(current, words[k]), budget) {
        packed(words, k + 1, with_word(current, words[k]), budget)
    } else if in_budget(words[k], budget) {
        finished(current) + packed(words, k + 1, words[k], budget)
    } else {
        finished(current) + word_pieces(words[k], budget) + packed(
            words,
            k + 1,
            Seq::empty(),
            budget,
        )
    }
}

/// The IRC lines of the text lines from `k` on.
pub open spec fn lines_from(lines: Seq<Seq<char>>, k: int, budget: nat) -> Seq<Seq<char>>
    decreases lines.len() - k,
{
    if k >= lines.len() {
        Seq::empty()
    } else {
        packed(text::words(lines[k]), 0, Seq::empty(), budget) + lines_from(lines, k + 1, budget)
    }
}

/// The IRC lines of a reply to `target`.
pub open spec fn message_lines(text: Seq<char>, target: Seq<char>) -> Seq<Seq<char>> {
    lines_from(text::split_on(stripped(text), '\n'), 0, byte_budget(target))
}

/// Whether `s` keeps both budgets.
fn keeps_budget(s: &[char], budget: usize) -> (b: bool)
    requires
        budget <= MAX_BYTES,
    ensures
        b == in_budget(s@, budget as nat),
{
    s.len() <= MAX_CHARS && text::utf8_capped(s, MAX_BYTES + 1) <= budget
}

/// The length of the longest prefix of `s` that keeps both budgets.
fn find_fit(s: &[char], budget: usize) -> (k: usize)
    ensures
        k == fit(s@, budget as nat),
        k <= s@.len(),
{
    let mut bytes: usize = budget;
    let mut chars: usize = MAX_CHARS;
    let mut k: usize = 0;
    while k < s.len() && chars > 0 && text::len_utf8(s[k]) <= bytes
        invariant
            k <= s@.len(),
            fit(s@, budget as nat) == fit_end(s@, bytes as int, chars as int, k as int),
        decreases s@.len() - k,
    {
        bytes = bytes - text::len_utf8(s[k]);
        chars = chars - 1;
        k = k + 1;
    }
    k
}

/// Appends the pieces of a word that is over the budget.
fn hard_split(out: &mut Vec<Vec<char>>, word: &[char], budget: usize)
    requires
        budget >= 4,
    ensures
        text::vec_views(final(out)@) == text::vec_views(old(out)@) + word_pieces(
            word@,
            budget as nat,
        ),
{
    let n: usize = word.len();
    let ghost whole = text::vec_views(old(out)@) + word_pieces(word@, budget as nat);
    let mut from: usize = 0;
    assert(word@.skip(0) =~= word@);
    while from < n
        invariant
            budget >= 4,
            n == word@.len(),
            from <= n,
            text::vec_views(out@) + word_pieces(word@.skip(from as int), budget as nat) == whole,
        decreases n - from,
    {
        let rest = text::skip(word, from);
        let k: usize = find_fit(rest, budget);
        let ghost before = text::vec_views(out@);
        proof {
            lemma_fit_end(rest@, budget as int, MAX_CHARS as int, 0);
        }
        out.push(text::copy_chars(text::take(rest, k)));
        proof {
            assert(text::vec_views(out@) =~= before + seq![rest@.take(k as int)]);
            assert(word@.skip(from + k) =~= rest@.skip(k as int));
            vstd::seq_lib::lemma_concat_associative(
                before,
                seq![rest@.take(k as int)],
                word_pieces(word@.skip(from + k), budget as nat),
            );
        }
        from = from + k;
    }
    assert(word@.skip(n as int) =~= Seq::empty());
    assert(text::vec_views(out@) + Seq::<Seq<char>>::empty() =~= text::vec_views(out@));
}

/// Appends `current`, unless it is empty.
fn finish(out: &mut Vec<Vec<char>>, current: Vec<char>)
    ensures
        text::vec_views(final(out)@) == text::vec_views(old(out)@) + finished(current@),
{
    let ghost line = current@;
    let ghost before = text::vec_views(out@);
    if current.len() > 0 {
        out.push(current);
        assert(text::vec_views(out@) =~= before + seq![line]);
    } else {
        assert(before + Seq::<Seq<char>>::empty() =~= before);
    }
}

/// Appends the IRC lines of one text line.
fn split_line(out: &mut Vec<Vec<char>>, line: &[char], budget: usize)
    requires
        4 <= budget <= MAX_BYTES,
    ensures
        text::vec_views(final(out)@) == text::vec_views(old(out)@) + packed(
            text::words(line@),
            0,
            Seq::empty(),
            budget as nat,
        ),
{
    let list = text::split_words(line);
    let ghost all = text::words(line@);
    let ghost whole = text::vec_views(old(out)@) + packed(all, 0, Seq::empty(), budget as nat);
    let mut current: Vec<char> = Vec::new();
    let mut k: usize = 0;
    assert(current@ =~= Seq::empty());
    while k < list.len()
        invariant
            4 <= budget <= MAX_BYTES,
            all == text::slice_views(list@),
            k <= list@.len(),
            text::vec_views(out@) + packed(all, k as int, current@, budget as nat) == whole,
        decreases list@.len() - k,
    {
        let word = list[k];
        assert(all[k as int] == word@);
        let ghost before = text::vec_views(out@);
        let ghost shown = current@;
        let mut next = text::copy_chars(current.as_slice());
        if next.len() > 0 {
            next.push(' ');
        }
        text::push_all(&mut next, word);
        assert(next@ =~= with_word(shown, word@));
        if keeps_budget(next.as_slice(), budget) {
            current = next;
        } else if keeps_budget(word, budget) {
            finish(out, current);
            current = text::copy_chars(word);
            proof {
                vstd::seq_lib::lemma_concat_associative(
                    before,
                    finished(shown),
                    packed(all, k + 1, word@, budget as nat),
                );
            }
        } else {
            finish(out, current);
            hard_split(out, word, budget);
            current = Vec::new();
            proof {
                assert(current@ =~= Seq::empty());
                let pieces = word_pieces(word@, budget as nat);
                let rest = packed(all, k + 1, Seq::empty(), budget as nat);
                assert(before + (finished(shown) + pieces + rest) =~= before + finished(shown)
                    + pieces + rest);
            }
        }
        k = k + 1;
    }
    finish(out, current);
}

/// The bytes that a line to `target` may have.
fn budget_for(target: &str) -> (n: usize)
    ensures
        n == byte_budget(target@),
        100 <= n <= MAX_BYTES,
{
    let used: usize = text::byte_len(target);
    if used <= 100 {
        MAX_BYTES
    } else if used <= 400 {
        500 - used
    } else {
        100
    }
}

/// The IRC lines of a reply to `target`. Blank input has none.
pub fn split_message(text: &str, target: &str) -> (chunks: Vec<String>)
    ensures
        text::views(chunks@) == message_lines(text@, target@),
{
    let chars = text::to_chars(text);
    let plain = strip_chars(chars.as_slice());
    let budget: usize = budget_for(target);
    let lines = text::split_char(plain.as_slice(), '\n');
    let ghost all = text::slice_views(lines@);
    let ghost whole = message_lines(text@, target@);
    let mut out: Vec<Vec<char>> = Vec::new();
    let mut k: usize = 0;
    assert(text::vec_views(out@) + whole =~= whole);
    while k < lines.len()
        invariant
            4 <= budget <= MAX_BYTES,
            all == text::slice_views(lines@),
            k <= lines@.len(),
            text::vec_views(out@) + lines_from(all, k as int, budget as nat) == whole,
        decreases lines@.len() - k,
    {
        let line = lines[k];
        assert(all[k as int] == line@);
        let ghost before = text::vec_views(out@);
        split_line(&mut out, line, budget);
        proof {
            vstd::seq_lib::lemma_concat_associative(
                before,
                packed(text::words(line@), 0, Seq::empty(), budget as nat),
                lines_from(all, k + 1, budget as nat),
            );
        }
        k = k + 1;
    }
    assert(text::vec_views(out@) + Seq::<Seq<char>>::empty() =~= text::vec_views(out@));
    text::strings_of(&out)
}

// ---- What holds of every reply ----------------------------------------------

/// A line that begins and ends with a word, and has nothing but single
/// characters of words and plain spaces in it.
pub open spec fn tidy(line: Seq<char>) -> bool {
    &&& line.len() > 0
    &&& !text::is_white(line[0])
    &&& !text::is_white(line.last())
    &&& forall|i: int| 0 <= i < line.len() ==> text::is_white(#[trigger] line[i]) ==> line[i] == ' '
}

/// A line that is ready to be sent.
spec fn good(line: Seq<char>, budget: nat) -> bool {
    tidy(line) && in_budget(line, budget)
}

/// Lines that are all ready to be sent.
spec fn all_good(lines: Seq<Seq<char>>, budget: nat) -> bool {
    forall|i: int| 0 <= i < lines.len() ==> good(#[trigger] lines[i], budget)
}

proof fn lemma_all_good_add(a: Seq<Seq<char>>, b: Seq<Seq<char>>, budget: nat)
    requires
        all_good(a, budget),
        all_good(b, budget),
    ensures
        all_good(a + b, budget),
{
    let all = a + b;
    assert forall|i: int| 0 <= i < all.len() implies good(#[trigger] all[i], budget) by {
        if i < a.len() {
            assert(good(a[i], budget));
        } else {
            assert(good(b[i - a.len()], budget));
        }
    }
}

proof fn lemma_word_pieces(word: Seq<char>, budget: nat)
    requires
        budget >= 4,
        text::no_white(word),
    ensures
        all_good(word_pieces(word, budget), budget),
        text::concatenated(word_pieces(word, budget)) == word,
    decreases word.len(),
{
    if word.len() > 0 {
        lemma_fit_end(word, budget as int, MAX_CHARS as int, 0);
        let k = fit(word, budget);
        let head = word.take(k);
        let rest = word.skip(k);
        assert(word.subrange(0, k) =~= head);
        assert(text::no_white(rest)) by {
            assert forall|i: int| 0 <= i < rest.len() implies !text::is_white(#[trigger] rest[i]) by {
                assert(!text::is_white(word[k + i]));
            }
        }
        assert(good(head, budget)) by {
            assert forall|i: int| 0 <= i < head.len() implies !text::is_white(#[trigger] head[i]) by {
                assert(!text::is_white(word[i]));
            }
        }
        lemma_word_pieces(rest, budget);
        lemma_all_good_add(seq![head], word_pieces(rest, budget), budget);
        text::lemma_concatenated_add(seq![head], word_pieces(rest, budget));
        text::lemma_concatenated_one(head);
        assert(word =~= head + rest);
    }
}

/// The words from `k` on, one after the other.
spec fn words_after(words: Seq<Seq<char>>, k: int) -> Seq<char> {
    text::concatenated(words.skip(k))
}

proof fn lemma_words_step(words: Seq<Seq<char>>, k: int)
    requires
        0 <= k < words.len(),
    ensures
        words_after(words, k) == words[k] + words_after(words, k + 1),
{
    assert(words.skip(k) =~= seq![words[k]] + words.skip(k + 1));
    text::lemma_concatenated_add(seq![words[k]], words.skip(k + 1));
    text::lemma_concatenated_one(words[k]);
}

proof fn lemma_with_word(current: Seq<char>, word: Seq<char>)
    requires
        text::no_white(word),
        word.len() > 0,
        current.len() > 0 ==> tidy(current),
    ensures
        tidy(with_word(current, word)),
        text::dense(with_word(current, word)) == text::dense(current) + word,
{
    text::lemma_dense_no_white(word);
    assert(!text::is_white(word[0]));
    assert(!text::is_white(word[word.len() - 1]));
    if current.len() > 0 {
        let next = with_word(current, word);
        text::lemma_dense_add(current + seq![' '], word);
        text::lemma_dense_add(current, seq![' ']);
        text::lemma_dense_white(seq![' ']);
        assert(text::dense(current) + Seq::<char>::empty() =~= text::dense(current));
        assert forall|i: int|
            0 <= i < next.len() && text::is_white(#[trigger] next[i]) implies next[i] == ' ' by {
            if i < current.len() {
                assert(next[i] == current[i]);
            } else if i > current.len() {
                assert(next[i] == word[i - current.len() - 1]);
            }
        }
    } else {
        assert(text::dense(current) + word =~= word);
    }
}

proof fn lemma_packed(words: Seq<Seq<char>>, k: int, current: Seq<char>, budget: nat)
    requires
        0 <= k <= words.len(),
        budget >= 4,
        forall|j: int|
            0 <= j < words.len() ==> text::no_white(#[trigger] words[j]) && words[j].len() > 0,
        current.len() > 0 ==> good(current, budget),
    ensures
        all_good(packed(words, k, current, budget), budget),
        text::dense(text::concatenated(packed(words, k, current, budget))) == text::dense(current)
            + words_after(words, k),
    decreases words.len() - k,
{
    if k >= words.len() {
        assert(words.skip(k) =~= Seq::empty());
        assert(text::dense(current) + words_after(words, k) =~= text::dense(current));
        if current.len() > 0 {
            text::lemma_concatenated_one(current);
        }
    } else {
        let word = words[k];
        lemma_words_step(words, k);
        lemma_with_word(current, word);
        lemma_with_word(Seq::empty(), word);
        text::lemma_dense_no_white(word);
        let next = with_word(current, word);
        let tail = words_after(words, k + 1);
        if current.len() > 0 {
            text::lemma_concatenated_one(current);
        }
        let front = finished(current);
        assert(text::dense(text::concatenated(front)) == text::dense(current));
        if in_budget(next, budget) {
            lemma_packed(words, k + 1, next, budget);
            assert(text::dense(current) + word + tail =~= text::dense(current) + (word + tail));
        } else if in_budget(word, budget) {
            lemma_packed(words, k + 1, word, budget);
            let rest = packed(words, k + 1, word, budget);
            lemma_all_good_add(front, rest, budget);
            text::lemma_concatenated_add(front, rest);
            text::lemma_dense_add(text::concatenated(front), text::concatenated(rest));
        } else {
            lemma_packed(words, k + 1, Seq::empty(), budget);
            lemma_word_pieces(word, budget);
            let pieces = word_pieces(word, budget);
            let rest = packed(words, k + 1, Seq::empty(), budget);
            lemma_all_good_add(front, pieces, budget);
            lemma_all_good_add(front + pieces, rest, budget);
            text::lemma_concatenated_add(front, pieces);
            text::lemma_concatenated_add(front + pieces, rest);
            text::lemma_dense_add(text::concatenated(front), text::concatenated(pieces));
            text::lemma_dense_add(text::concatenated(front + pieces), text::concatenated(rest));
            assert(text::dense(Seq::<char>::empty()) + tail =~= tail);
            assert(text::dense(current) + word + tail =~= text::dense(current) + (word + tail));
        }
    }
}

proof fn lemma_lines_from(lines: Seq<Seq<char>>, k: int, budget: nat)
    requires
        0 <= k <= lines.len(),
        budget >= 4,
    ensures
        all_good(lines_from(lines, k, budget), budget),
        text::dense(text::concatenated(lines_from(lines, k, budget))) == text::dense(
            text::concatenated(lines.skip(k)),
        ),
    decreases lines.len() - k,
{
    if k >= lines.len() {
        assert(lines.skip(k) =~= Seq::empty());
    } else {
        let words = text::words(lines[k]);
        text::lemma_words(lines[k], 0);
        assert(lines[k].subrange(0, lines[k].len() as int) =~= lines[k]);
        lemma_packed(words, 0, Seq::empty(), budget);
        assert(words.skip(0) =~= words);
        assert(text::dense(Seq::<char>::empty()) + text::concatenated(words)
            =~= text::concatenated(words));
        let front = packed(words, 0, Seq::empty(), budget);
        let rest = lines_from(lines, k + 1, budget);
        lemma_lines_from(lines, k + 1, budget);
        lemma_all_good_add(front, rest, budget);
        text::lemma_concatenated_add(front, rest);
        text::lemma_dense_add(text::concatenated(front), text::concatenated(rest));
        assert(lines.skip(k) =~= seq![lines[k]] + lines.skip(k + 1));
        text::lemma_concatenated_add(seq![lines[k]], lines.skip(k + 1));
        text::lemma_concatenated_one(lines[k]);
        text::lemma_dense_add(lines[k], text::concatenated(lines.skip(k + 1)));
    }
}

/// Every line keeps the character budget and the byte budget, begins and ends with
/// a word, and holds no white space but plain spaces.
pub proof fn every_line_keeps_its_budgets(text: Seq<char>, target: Seq<char>, i: int)
    requires
        0 <= i < message_lines(text, target).len(),
    ensures
        message_lines(text, target)[i].len() <= MAX_CHARS,
        text::utf8_units(message_lines(text, target)[i]) <= MAX_BYTES,
        in_budget(message_lines(text, target)[i], byte_budget(target)),
        tidy(message_lines(text, target)[i]),
{
    let budget = byte_budget(target);
    lemma_lines_from(text::split_on(stripped(text), '\n'), 0, budget);
    assert(good(message_lines(text, target)[i], budget));
}

/// A line fits a 512-byte protocol line together with its envelope, as long as the
/// target itself has at most 400 bytes.
pub proof fn every_line_fits_the_protocol(text: Seq<char>, target: Seq<char>, i: int)
    requires
        0 <= i < message_lines(text, target).len(),
        text::utf8_units(target) <= 400,
    ensures
        "PRIVMSG "@.len() + text::utf8_units(target) + " :"@.len() + text::utf8_units(
            message_lines(text, target)[i],
        ) + "\r\n"@.len() <= 512,
{
    reveal_strlit("PRIVMSG ");
    reveal_strlit(" :");
    reveal_strlit("\r\n");
    every_line_keeps_its_budgets(text, target, i);
}

/// No word is lost: leaving white space aside, the lines hold the stripped text.
pub proof fn no_word_is_lost(text: Seq<char>, target: Seq<char>)
    ensures
        text::dense(text::concatenated(message_lines(text, target))) == text::dense(stripped(text)),
{
    let plain = stripped(text);
    let lines = text::split_on(plain, '\n');
    lemma_lines_from(lines, 0, byte_budget(target));
    assert(lines.skip(0) =~= lines);
    text::lemma_lines_dense(plain, 0);
    assert(plain.subrange(0, plain.len() as int) =~= plain);
}

/// Blank text has no lines.
pub proof fn blank_text_has_no_lines(text: Seq<char>, target: Seq<char>)
    requires
        forall|i: int| 0 <= i < text.len() ==> text::is_white(#[trigger] text[i]),
    ensures
        message_lines(text, target).len() == 0,
{
    lemma_plain_is_kept(text, 0, true);
    assert(text.skip(0) =~= text);
    only_blank_text_has_no_lines(text, target);
}

/// The lines of a reply are none exactly where the stripped text is blank.
pub proof fn only_blank_text_has_no_lines(text: Seq<char>, target: Seq<char>)
    ensures
        message_lines(text, target).len() == 0 <==> text::is_blank(stripped(text)),
        text::is_blank(stripped(text)) <==> forall|i: int|
            0 <= i < stripped(text).len() ==> text::is_white(#[trigger] stripped(text)[i]),
{
    text::lemma_blank(stripped(text));
    no_word_is_lost(text, target);
    let lines = message_lines(text, target);
    if lines.len() > 0 {
        every_line_keeps_its_budgets(text, target, 0);
        let first = lines[0];
        text::lemma_concatenated_add(seq![first], lines.skip(1));
        text::lemma_concatenated_one(first);
        assert(lines =~= seq![first] + lines.skip(1));
        text::lemma_dense_add(first, text::concatenated(lines.skip(1)));
        text::lemma_dense_add(seq![first[0]], first.skip(1));
        assert(first =~= seq![first[0]] + first.skip(1));
        text::lemma_dense_no_white(seq![first[0]]);
        assert(text::dense(text::concatenated(lines)).len() > 0);
    } else {
        assert(text::concatenated(lines) =~= Seq::<char>::empty());
    }
}

/// The IRC lines of one line of a text.
pub open spec fn line_parts(line: Seq<char>, budget: nat) -> Seq<Seq<char>> {
    packed(text::words(line), 0, Seq::empty(), budget)
}

/// The IRC lines of each of some lines of a text.
pub open spec fn parts_of_lines(lines: Seq<Seq<char>>, budget: nat) -> Seq<Seq<Seq<char>>> {
    Seq::new(lines.len(), |k: int| line_parts(lines[k], budget))
}

proof fn lemma_lines_flatten(lines: Seq<Seq<char>>, k: int, budget: nat)
    requires
        0 <= k <= lines.len(),
    ensures
        lines_from(lines, k, budget) == parts_of_lines(lines, budget).skip(k).flatten(),
    decreases lines.len() - k,
{
    let rest = parts_of_lines(lines, budget).skip(k);
    if k < lines.len() {
        lemma_lines_flatten(lines, k + 1, budget);
        assert(rest.first() == line_parts(lines[k], budget));
        assert(rest.drop_first() =~= parts_of_lines(lines, budget).skip(k + 1));
    } else {
        assert(rest =~= Seq::empty());
    }
}

proof fn lemma_flatten_member(parts: Seq<Seq<Seq<char>>>, i: int) -> (place: (int, int))
    requires
        0 <= i < parts.flatten().len(),
    ensures
        0 <= place.0 < parts.len(),
        0 <= place.1 < parts[place.0].len(),
        parts.flatten()[i] == parts[place.0][place.1],
    decreases parts.len(),
{
    let first = parts.first();
    if i < first.len() {
        (0, i)
    } else {
        let rest = parts.drop_first();
        let place = lemma_flatten_member(rest, i - first.len());
        assert(rest[place.0] == parts[place.0 + 1]);
        (place.0 + 1, place.1)
    }
}

proof fn lemma_flatten_holds(parts: Seq<Seq<Seq<char>>>, k: int, j: int)
    requires
        0 <= k < parts.len(),
        0 <= j < parts[k].len(),
    ensures
        parts.flatten().contains(parts[k][j]),
    decreases parts.len(),
{
    let first = parts.first();
    let rest = parts.drop_first();
    if k == 0 {
        assert(parts.flatten()[j] == parts[k][j]);
    } else {
        assert(rest[k - 1] == parts[k]);
        lemma_flatten_holds(rest, k - 1, j);
        let n = choose|n: int| 0 <= n < rest.flatten().len() && rest.flatten()[n] == parts[k][j];
        assert(parts.flatten()[first.len() + n] == parts[k][j]);
    }
}

/// No line of a reply holds text of two lines of the stripped text: the lines are
/// those of its first line, of its second and so on; each is made of one of them
/// alone, and those of one hold all of it but white space.
pub proof fn no_line_spans_two_lines(text: Seq<char>, target: Seq<char>)
    ensures
        ({
            let lines = text::split_on(stripped(text), '\n');
            let parts = parts_of_lines(lines, byte_budget(target));
            &&& message_lines(text, target) == parts.flatten()
            &&& forall|k: int|
                0 <= k < lines.len() ==> text::dense(text::concatenated(#[trigger] parts[k]))
                    == text::dense(lines[k])
            &&& forall|i: int|
                0 <= i < message_lines(text, target).len() ==> exists|k: int|
                    0 <= k < lines.len() && (#[trigger] parts[k]).contains(
                        #[trigger] message_lines(text, target)[i],
                    )
        }),
{
    let budget = byte_budget(target);
    let lines = text::split_on(stripped(text), '\n');
    let parts = parts_of_lines(lines, budget);
    let all = message_lines(text, target);
    lemma_lines_flatten(lines, 0, budget);
    assert(parts.skip(0) =~= parts);
    assert forall|k: int| 0 <= k < lines.len() implies text::dense(
        text::concatenated(#[trigger] parts[k]),
    ) == text::dense(lines[k]) by {
        let line = lines[k];
        let words = text::words(line);
        text::lemma_words(line, 0);
        lemma_packed(words, 0, Seq::empty(), budget);
        assert(words.skip(0) =~= words);
        assert(line.subrange(0, line.len() as int) =~= line);
        assert(text::dense(Seq::<char>::empty()) + text::concatenated(words)
            =~= text::concatenated(words));
    }
    assert forall|i: int| 0 <= i < all.len() implies exists|k: int|
        0 <= k < lines.len() && (#[trigger] parts[k]).contains(#[trigger] all[i]) by {
        let place = lemma_flatten_member(parts, i);
        assert(parts[place.0].contains(all[i]));
    }
}

/// The words of some lines, in order.
pub open spec fn all_words(lines: Seq<Seq<char>>) -> Seq<Seq<char>>
    decreases lines.len(),
{
    if lines.len() == 0 {
        Seq::empty()
    } else {
        all_words(lines.drop_last()) + text::words(lines.last())
    }
}

/// The words from `k` on, where each that fits no line is cut into pieces.
pub open spec fn cut_words(words: Seq<Seq<char>>, k: int, budget: nat) -> Seq<Seq<char>>
    decreases words.len() - k,
{
    if k >= words.len() {
        Seq::empty()
    } else {
        (if in_budget(words[k], budget) {
            seq![words[k]]
        } else {
            word_pieces(words[k], budget)
        }) + cut_words(words, k + 1, budget)
    }
}

proof fn lemma_all_words_add(a: Seq<Seq<char>>, b: Seq<Seq<char>>)
    ensures
        all_words(a + b) == all_words(a) + all_words(b),
    decreases b.len(),
{
    if b.len() == 0 {
        assert(a + b =~= a);
        assert(all_words(a) + all_words(b) =~= all_words(a));
    } else {
        assert((a + b).drop_last() =~= a + b.drop_last());
        lemma_all_words_add(a, b.drop_last());
        assert(all_words(a + b) =~= all_words(a) + all_words(b));
    }
}

proof fn lemma_all_words_one(line: Seq<char>)
    ensures
        all_words(seq![line]) == text::words(line),
{
    reveal_with_fuel(all_words, 2);
    assert(seq![line].drop_last() =~= Seq::<Seq<char>>::empty());
    assert(all_words(seq![line]) =~= text::words(line));
}

proof fn lemma_words_of_pieces(word: Seq<char>, budget: nat)
    requires
        budget >= 4,
        text::no_white(word),
    ensures
        all_words(word_pieces(word, budget)) == word_pieces(word, budget),
    decreases word.len(),
{
    if word.len() > 0 {
        lemma_fit_end(word, budget as int, MAX_CHARS as int, 0);
        let k = fit(word, budget);
        let head = word.take(k);
        let rest = word.skip(k);
        assert forall|i: int| 0 <= i < head.len() implies !text::is_white(#[trigger] head[i]) by {
            assert(!text::is_white(word[i]));
        }
        assert forall|i: int| 0 <= i < rest.len() implies !text::is_white(#[trigger] rest[i]) by {
            assert(!text::is_white(word[k + i]));
        }
        lemma_words_of_pieces(rest, budget);
        text::lemma_one_word(head);
        lemma_all_words_one(head);
        lemma_all_words_add(seq![head], word_pieces(rest, budget));
    }
}

proof fn lemma_packed_words(words: Seq<Seq<char>>, k: int, current: Seq<char>, budget: nat)
    requires
        0 <= k <= words.len(),
        budget >= 4,
        forall|j: int|
            0 <= j < words.len() ==> text::no_white(#[trigger] words[j]) && words[j].len() > 0,
    ensures
        all_words(packed(words, k, current, budget)) == text::words(current) + cut_words(
            words,
            k,
            budget,
        ),
    decreases words.len() - k,
{
    let front = finished(current);
    let before = text::words(current);
    assert(all_words(front) == before) by {
        if current.len() > 0 {
            lemma_all_words_one(current);
        } else {
            assert(before =~= Seq::<Seq<char>>::empty());
        }
    }
    if k >= words.len() {
        assert(before + cut_words(words, k, budget) =~= before);
    } else {
        let word = words[k];
        let next = with_word(current, word);
        let tail = cut_words(words, k + 1, budget);
        assert(text::no_white(word));
        text::lemma_one_word(word);
        if in_budget(next, budget) {
            lemma_packed_words(words, k + 1, next, budget);
            if current.len() > 0 {
                text::lemma_one_more_word(current, word);
                lemma_part_in_budget(current, word, budget);
            }
            assert(text::words(next) =~= before + seq![word]);
            assert(text::words(next) + tail =~= before + (seq![word] + tail));
        } else if in_budget(word, budget) {
            lemma_packed_words(words, k + 1, word, budget);
            lemma_all_words_add(front, packed(words, k + 1, word, budget));
        } else {
            let pieces = word_pieces(word, budget);
            let rest = packed(words, k + 1, Seq::empty(), budget);
            lemma_packed_words(words, k + 1, Seq::empty(), budget);
            lemma_words_of_pieces(word, budget);
            lemma_all_words_add(front, pieces);
            lemma_all_words_add(front + pieces, rest);
            assert(text::words(Seq::<char>::empty()) + tail =~= tail);
            assert(before + pieces + tail =~= before + (pieces + tail));
        }
    }
}

/// A word that fits a line after others fits a line of its own.
proof fn lemma_part_in_budget(current: Seq<char>, word: Seq<char>, budget: nat)
    requires
        current.len() > 0,
        in_budget(with_word(current, word), budget),
    ensures
        in_budget(word, budget),
{
    text::lemma_units_add(current + seq![' '], word);
}

/// The lines of one line of a text hold its words, in order and each once; only a word
/// that fits no line is cut.
pub proof fn only_words_that_fit_no_line_are_cut(line: Seq<char>, target: Seq<char>)
    ensures
        all_words(line_parts(line, byte_budget(target))) == cut_words(
            text::words(line),
            0,
            byte_budget(target),
        ),
{
    text::lemma_words(line, 0);
    lemma_packed_words(text::words(line), 0, Seq::empty(), byte_budget(target));
    assert(text::words(Seq::<char>::empty()) + cut_words(
        text::words(line),
        0,
        byte_budget(target),
    ) =~= cut_words(text::words(line), 0, byte_budget(target)));
}

proof fn lemma_cut_words_keep(words: Seq<Seq<char>>, k: int, j: int, budget: nat)
    requires
        0 <= k <= j < words.len(),
        in_budget(words[j], budget),
    ensures
        cut_words(words, k, budget).contains(words[j]),
    decreases words.len() - k,
{
    let all = cut_words(words, k, budget);
    let rest = cut_words(words, k + 1, budget);
    if k == j {
        assert(all[0] == words[j]);
    } else {
        lemma_cut_words_keep(words, k + 1, j, budget);
        let n = choose|n: int| 0 <= n < rest.len() && rest[n] == words[j];
        assert(all[all.len() - rest.len() + n] == words[j]);
    }
}

proof fn lemma_line_of_word(lines: Seq<Seq<char>>, word: Seq<char>) -> (i: int)
    requires
        all_words(lines).contains(word),
    ensures
        0 <= i < lines.len(),
        text::words(lines[i]).contains(word),
    decreases lines.len(),
{
    let init = all_words(lines.drop_last());
    let last = text::words(lines.last());
    let n = choose|n: int| 0 <= n < all_words(lines).len() && all_words(lines)[n] == word;
    if n < init.len() {
        assert(init[n] == word);
        lemma_line_of_word(lines.drop_last(), word)
    } else {
        assert(last[n - init.len()] == word);
        lines.len() - 1
    }
}

proof fn lemma_words_of_lines(s: Seq<char>, start: int)
    requires
        0 <= start <= s.len(),
    ensures
        all_words(text::split_from(s, '\n', start)) == text::words(
            s.subrange(start, s.len() as int),
        ),
    decreases s.len() - start,
{
    text::lemma_next_at(s, '\n', start);
    let n = s.len() as int;
    let end = text::next_at(s, '\n', start);
    if end >= n {
        lemma_all_words_one(s.subrange(start, n));
    } else {
        let line = s.subrange(start, end);
        let rest = s.subrange(end + 1, n);
        lemma_words_of_lines(s, end + 1);
        lemma_all_words_one(line);
        lemma_all_words_add(seq![line], text::split_from(s, '\n', end + 1));
        text::lemma_words_of_line(line, rest);
        assert(s.subrange(start, n) =~= line + seq!['\n'] + rest);
    }
}

/// A word of the stripped text that has at most 100 bytes stays whole: it is a word of
/// one of the lines.
pub proof fn short_words_stay_whole(text: Seq<char>, target: Seq<char>, j: int)
    requires
        0 <= j < text::words(stripped(text)).len(),
        text::utf8_units(text::words(stripped(text))[j]) <= 100,
    ensures
        exists|i: int|
            0 <= i < message_lines(text, target).len() && text::words(
                #[trigger] message_lines(text, target)[i],
            ).contains(text::words(stripped(text))[j]),
{
    let budget = byte_budget(target);
    let plain = stripped(text);
    let lines = text::split_on(plain, '\n');
    let parts = parts_of_lines(lines, budget);
    let word = text::words(plain)[j];
    lemma_words_of_lines(plain, 0);
    assert(plain.subrange(0, plain.len() as int) =~= plain);
    assert(all_words(lines).contains(word));
    let k = lemma_line_of_word(lines, word);
    let words = text::words(lines[k]);
    let w = choose|w: int| 0 <= w < words.len() && words[w] == word;
    text::lemma_units_bounds(word);
    lemma_cut_words_keep(words, 0, w, budget);
    only_words_that_fit_no_line_are_cut(lines[k], target);
    let n = lemma_line_of_word(parts[k], word);
    lemma_lines_flatten(lines, 0, budget);
    assert(parts.skip(0) =~= parts);
    lemma_flatten_holds(parts, k, n);
    let all = message_lines(text, target);
    let i = choose|i: int| 0 <= i < all.len() && all[i] == parts[k][n];
    assert(text::words(all[i]).contains(word));
}

/// A character that is no markdown of any kind.
pub open spec fn is_plain(c: char) -> bool {
    !is_marker(c) && c != '#' && c != '[' && c != '<'
}

proof fn lemma_plain_is_kept(s: Seq<char>, i: int, fresh: bool)
    requires
        0 <= i <= s.len(),
        forall|k: int| 0 <= k < s.len() ==> is_plain(#[trigger] s[k]),
    ensures
        stripped_from(s, i, fresh) == s.skip(i),
    decreases s.len() - i,
{
    if i < s.len() {
        assert(is_plain(s[i]));
        lemma_plain_is_kept(s, i + 1, s[i] == '\n');
        assert(s.skip(i) =~= seq![s[i]] + s.skip(i + 1));
    } else {
        assert(s.skip(i) =~= Seq::empty());
    }
}

/// Text without markdown is left as it is.
pub proof fn plain_text_is_kept(s: Seq<char>)
    requires
        forall|k: int| 0 <= k < s.len() ==> is_plain(#[trigger] s[k]),
    ensures
        stripped(s) == s,
{
    lemma_plain_is_kept(s, 0, true);
    assert(s.skip(0) =~= s);
}

} // verus!
