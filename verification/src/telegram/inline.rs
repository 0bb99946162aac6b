//! What holds of the inline spans of every line.

use crate::telegram::laws;
use crate::telegram::spans;
use crate::telegram::spans::{Active, Place, Span, Style};
use crate::text;
use crate::text_laws;
use vstd::prelude::*;

verus! {

// ---- Escaping ---------------------------------------------------------------

/// A character that is no mark of MarkdownV2.
pub open spec fn is_no_mark(c: char) -> bool {
    c != '_' && c != '*' && c != '[' && c != ']' && c != '(' && c != ')' && c != '~' && c != '`'
        && c != '>' && c != '#' && c != '+' && c != '-' && c != '=' && c != '|' && c != '{' && c
        != '}' && c != '.' && c != '!' && c != '\\'
}

/// Text is escaped character by character: each mark gets a backslash, which in code are
/// the backtick and the backslash, and in the target of a link the closing parenthesis and
/// the backslash; any other character stays.
pub proof fn marks_get_a_backslash(a: Seq<char>, b: Seq<char>, c: char, place: Place)
    ensures
        spans::escaped(a + b, place) == spans::escaped(a, place) + spans::escaped(b, place),
        spans::escaped(Seq::<char>::empty(), place) == Seq::<char>::empty(),
        spans::escaped(seq![c], Place::Body) == if is_no_mark(c) {
            seq![c]
        } else {
            seq!['\\', c]
        },
        spans::escaped(seq![c], Place::Code) == if c == '`' || c == '\\' {
            seq!['\\', c]
        } else {
            seq![c]
        },
        spans::escaped(seq![c], Place::Url) == if c == ')' || c == '\\' {
            seq!['\\', c]
        } else {
            seq![c]
        },
{
    laws::lemma_escaped_add(a, b, place);
    laws::lemma_escaped_one(c, Place::Body);
    laws::lemma_escaped_one(c, Place::Code);
    laws::lemma_escaped_one(c, Place::Url);
}

/// A text without its escaping: a backslash is dropped, and what follows it is kept.
pub open spec fn unescaped(s: Seq<char>) -> Seq<char>
    decreases s.len(),
{
    if s.len() == 0 {
        s
    } else if s[0] == '\\' && s.len() > 1 {
        seq![s[1]] + unescaped(s.skip(2))
    } else {
        seq![s[0]] + unescaped(s.skip(1))
    }
}

/// What is escaped is read as the text that it was.
pub proof fn escaped_text_is_read_back(s: Seq<char>, place: Place)
    ensures
        unescaped(spans::escaped(s, place)) == s,
    decreases s.len(),
{
    if s.len() > 0 {
        let rest = s.skip(1);
        assert(s =~= seq![s[0]] + rest);
        laws::lemma_escaped_add(seq![s[0]], rest, place);
        laws::lemma_escaped_one(s[0], place);
        escaped_text_is_read_back(rest, place);
        let first = spans::escaped_char(s[0], place);
        let all = spans::escaped(s, place);
        assert(all.skip(first.len() as int) =~= spans::escaped(rest, place));
    }
}

proof fn lemma_escaped_kept(s: Seq<char>, place: Place, keep: spec_fn(char) -> bool)
    requires
        !keep('\\'),
    ensures
        spans::escaped(s, place).filter(keep) == s.filter(keep),
    decreases s.len(),
{
    if s.len() > 0 {
        let front = s.drop_last();
        let c = s.last();
        lemma_escaped_kept(front, place, keep);
        assert(s =~= front + seq![c]);
        Seq::filter_distributes_over_add(front, seq![c], keep);
        Seq::filter_distributes_over_add(
            spans::escaped(front, place),
            spans::escaped_char(c, place),
            keep,
        );
        if spans::special_in(place, c) {
            assert(seq!['\\', c] =~= seq!['\\'] + seq![c]);
            Seq::filter_distributes_over_add(seq!['\\'], seq![c], keep);
            text_laws::lemma_none_kept(seq!['\\'], keep);
            assert(seq!['\\'].filter(keep) + seq![c].filter(keep) =~= seq![c].filter(keep));
        }
    } else {
        assert(s =~= Seq::<char>::empty());
    }
}

proof fn lemma_marks_dropped(s: Seq<char>, keep: spec_fn(char) -> bool)
    requires
        forall|i: int| 0 <= i < s.len() ==> !keep(#[trigger] s[i]),
    ensures
        s.filter(keep) == Seq::<char>::empty(),
{
    text_laws::lemma_none_kept(s, keep);
    assert(s.filter(keep) =~= Seq::<char>::empty());
}

proof fn lemma_cut_kept(s: Seq<char>, i: int, j: int, keep: spec_fn(char) -> bool)
    requires
        0 <= i <= j <= s.len(),
    ensures
        s.skip(i).filter(keep) == s.subrange(i, j).filter(keep) + s.skip(j).filter(keep),
{
    assert(s.skip(i) =~= s.subrange(i, j) + s.skip(j));
    Seq::filter_distributes_over_add(s.subrange(i, j), s.skip(j), keep);
}

proof fn lemma_three_kept(a: Seq<char>, b: Seq<char>, c: Seq<char>, keep: spec_fn(char) -> bool)
    requires
        forall|i: int| 0 <= i < a.len() ==> !keep(#[trigger] a[i]),
        forall|i: int| 0 <= i < c.len() ==> !keep(#[trigger] c[i]),
    ensures
        (a + b + c).filter(keep) == b.filter(keep),
{
    Seq::filter_distributes_over_add(a + b, c, keep);
    Seq::filter_distributes_over_add(a, b, keep);
    lemma_marks_dropped(a, keep);
    lemma_marks_dropped(c, keep);
    assert(Seq::<char>::empty() + b.filter(keep) + Seq::<char>::empty() =~= b.filter(keep));
}

proof fn lemma_inline_kept(s: Seq<char>, active: Active, i: int)
    requires
        0 <= i <= s.len(),
    ensures
        spans::inline_from(s, active, i).filter(|c: char| is_no_mark(c)) == s.skip(i).filter(
            |c: char| is_no_mark(c),
        ),
    decreases s.len(), s.len() - i,
{
    let keep = |c: char| is_no_mark(c);
    if i < s.len() {
        spans::lemma_span_at(s, active, i);
        match spans::span_at(s, active, i) {
            Span::Code(end) => {
                let code = s.subrange(i + 1, end);
                let shown = spans::escaped(code, Place::Code);
                lemma_inline_kept(s, active, end + 1);
                Seq::filter_distributes_over_add(
                    seq!['`'] + shown + seq!['`'],
                    spans::inline_from(s, active, end + 1),
                    keep,
                );
                lemma_three_kept(seq!['`'], shown, seq!['`'], keep);
                lemma_escaped_kept(code, Place::Code, keep);
                lemma_cut_kept(s, i, end + 1, keep);
                text::lemma_next_at(s, '`', i + 1);
                assert(s.subrange(i, end + 1) =~= seq!['`'] + code + seq!['`']);
                lemma_three_kept(seq!['`'], code, seq!['`'], keep);
            },
            Span::Link(open, label_end, url_end) => {
                lemma_link_kept(s, active, i, open, label_end, url_end);
            },
            Span::Emphasis(style, j) => {
                let w = spans::delimiter_width(style);
                let inner = s.subrange(i + w, j);
                let shown = spans::inline_from(inner, spans::opened(active, style), 0);
                lemma_inline_kept(inner, spans::opened(active, style), 0);
                assert(inner.skip(0) =~= inner);
                lemma_inline_kept(s, active, j + w);
                let m = spans::mark(style);
                Seq::filter_distributes_over_add(
                    m + shown + m,
                    spans::inline_from(s, active, j + w),
                    keep,
                );
                lemma_three_kept(m, shown, m, keep);
                lemma_cut_kept(s, i, j + w, keep);
                lemma_emphasis_marks(s, active, i);
                let a = s.subrange(i, i + w);
                let c = s.subrange(j, j + w);
                assert(s.subrange(i, j + w) =~= a + inner + c);
                lemma_three_kept(a, inner, c, keep);
            },
            Span::Literal => {
                lemma_inline_kept(s, active, i + 1);
                let c = s[i];
                laws::lemma_escaped_one(c, Place::Body);
                lemma_escaped_kept(seq![c], Place::Body, keep);
                Seq::filter_distributes_over_add(
                    spans::escaped_char(c, Place::Body),
                    spans::inline_from(s, active, i + 1),
                    keep,
                );
                lemma_cut_kept(s, i, i + 1, keep);
                assert(s.subrange(i, i + 1) =~= seq![c]);
            },
        }
    } else {
        assert(s.skip(i) =~= Seq::<char>::empty());
        assert(spans::inline_from(s, active, i) =~= Seq::<char>::empty());
    }
}

/// The characters on both sides of a span of emphasis are its marks.
proof fn lemma_emphasis_marks(s: Seq<char>, active: Active, i: int)
    requires
        0 <= i < s.len(),
    ensures
        spans::span_at(s, active, i) matches Span::Emphasis(style, j) ==> {
            let w = spans::delimiter_width(style);
            &&& i + w < j && j + w <= s.len()
            &&& forall|k: int| i <= k < i + w ==> !is_no_mark(#[trigger] s[k])
            &&& forall|k: int| j <= k < j + w ==> !is_no_mark(#[trigger] s[k])
        },
{
    spans::lemma_span_at(s, active, i);
    if let Span::Emphasis(style, j) = spans::span_at(s, active, i) {
        lemma_single_at(s, s[i], i + 1);
        lemma_double_at(s, s[i], i + 2);
    }
}

proof fn lemma_single_at(s: Seq<char>, c: char, j: int)
    requires
        0 <= j,
    ensures
        spans::single_close(s, c, j) < s.len() ==> 0 <= spans::single_close(s, c, j) && s[spans::single_close(s, c, j)] == c,
    decreases s.len() - j,
{
    if j < s.len() {
        if s[j] != c {
            lemma_single_at(s, c, j + 1);
        } else if text::run_of(s, c, j) > 1 {
            text::lemma_run_of(s, c, j);
            lemma_single_at(s, c, j + text::run_of(s, c, j));
        }
    }
}

proof fn lemma_double_at(s: Seq<char>, c: char, j: int)
    requires
        0 <= j,
    ensures
        spans::double_close(s, c, j) < s.len() ==> spans::doubled(s, c, spans::double_close(s, c, j)),
    decreases s.len() - j,
{
    if j < s.len() && !spans::doubled(s, c, j) {
        lemma_double_at(s, c, j + 1);
    }
}

proof fn lemma_link_kept(
    s: Seq<char>,
    active: Active,
    i: int,
    open: int,
    label_end: int,
    url_end: int,
)
    requires
        0 <= i < s.len(),
        spans::span_at(s, active, i) == Span::<int>::Link(open, label_end, url_end),
    ensures
        spans::inline_from(s, active, i).filter(|c: char| is_no_mark(c)) == s.skip(i).filter(
            |c: char| is_no_mark(c),
        ),
    decreases s.len(), s.len() - i, 0int,
{
    let keep = |c: char| is_no_mark(c);
    spans::lemma_span_at(s, active, i);
    text::lemma_next_at(s, ']', open + 1);
    lemma_paren_at(s, label_end + 2, 0);
    let label = s.subrange(open + 1, label_end);
    let url = s.subrange(label_end + 2, url_end);
    let shown = spans::inline_from(label, active, 0);
    lemma_inline_kept(label, active, 0);
    assert(label.skip(0) =~= label);
    lemma_inline_kept(s, active, url_end + 1);
    let safe = spans::escaped(url, Place::Url);
    lemma_escaped_kept(url, Place::Url, keep);
    let link = spans::link_text(shown, url);
    Seq::filter_distributes_over_add(link, spans::inline_from(s, active, url_end + 1), keep);
    lemma_cut_kept(s, i, url_end + 1, keep);
    let start = s.subrange(i, open + 1);
    let source = s.subrange(i, url_end + 1);
    assert(source =~= (start + label + seq![']', '(']) + url + seq![')']);
    Seq::filter_distributes_over_add(start + label + seq![']', '('] + url, seq![')'], keep);
    Seq::filter_distributes_over_add(start + label + seq![']', '('], url, keep);
    lemma_three_kept(start, label, seq![']', '('], keep);
    Seq::filter_distributes_over_add(seq!['['] + shown + seq![']', '('] + safe, seq![')'], keep);
    Seq::filter_distributes_over_add(seq!['['] + shown + seq![']', '('], safe, keep);
    lemma_three_kept(seq!['['], shown, seq![']', '('], keep);
}

proof fn lemma_paren_at(s: Seq<char>, j: int, depth: nat)
    requires
        0 <= j <= s.len(),
    ensures
        spans::paren_close(s, j, depth) < s.len() ==> s[spans::paren_close(s, j, depth)] == ')',
    decreases s.len() - j,
{
    if j < s.len() {
        if s[j] == '(' {
            lemma_paren_at(s, j + 1, depth + 1);
        } else if s[j] == ')' {
            if depth > 0 {
                lemma_paren_at(s, j + 1, (depth - 1) as nat);
            }
        } else {
            lemma_paren_at(s, j + 1, depth);
        }
    }
}

/// Leaving marks aside, a rendered line holds the characters of the line, in order: the
/// text of every span is kept, with the label and the target of every link.
pub proof fn rendering_keeps_all_but_marks(s: Seq<char>)
    ensures
        spans::rendered(s).filter(|c: char| is_no_mark(c)) == s.filter(|c: char| is_no_mark(c)),
{
    lemma_inline_kept(s, spans::nothing_active(), 0);
    assert(s.skip(0) =~= s);
}

// ---- Spans ------------------------------------------------------------------

proof fn lemma_plain_prefix(s: Seq<char>, active: Active, i: int, n: int)
    requires
        0 <= i <= n <= s.len(),
        forall|k: int| i <= k < n ==> laws::opens_nothing(#[trigger] s[k]),
        n < s.len() && s[n] == '[' && i < n ==> s[n - 1] != '!',
    ensures
        spans::inline_from(s, active, i) == spans::escaped(s.subrange(i, n), Place::Body)
            + spans::inline_from(s, active, n),
    decreases n - i,
{
    if i < n {
        assert(laws::opens_nothing(s[i]));
        if i + 1 < n {
            assert(laws::opens_nothing(s[i + 1]));
        }
        assert(spans::span_at(s, active, i) is Literal);
        lemma_plain_prefix(s, active, i + 1, n);
        assert(s.subrange(i, n) =~= seq![s[i]] + s.subrange(i + 1, n));
        laws::lemma_escaped_add(seq![s[i]], s.subrange(i + 1, n), Place::Body);
        laws::lemma_escaped_one(s[i], Place::Body);
        assert(spans::inline_from(s, active, i) =~= spans::escaped(s.subrange(i, n), Place::Body)
            + spans::inline_from(s, active, n));
    } else {
        assert(s.subrange(i, n) =~= Seq::<char>::empty());
        assert(Seq::<char>::empty() + spans::inline_from(s, active, n) =~= spans::inline_from(
            s,
            active,
            n,
        ));
    }
}

proof fn lemma_run_shift(s: Seq<char>, c: char, d: int, i: int)
    requires
        0 <= d,
        0 <= i,
        d + i <= s.len(),
    ensures
        text::run_of(s, c, d + i) == text::run_of(s.skip(d), c, i),
{
    let t = s.skip(d);
    text_laws::lemma_run(t, c, i);
    let n = text::run_of(t, c, i) as int;
    assert forall|j: int| d + i <= j < d + i + n implies s[j] == c by {
        assert(s[j] == t[j - d]);
    }
    if d + i + n < s.len() {
        assert(s[d + i + n] == t[i + n]);
    }
    text_laws::lemma_run_is(s, c, d + i, d + i + n);
}

proof fn lemma_double_shift(s: Seq<char>, c: char, d: int, j: int)
    requires
        0 <= d <= s.len(),
        0 <= j,
    ensures
        d + j <= s.len() ==> spans::double_close(s, c, d + j) == d + spans::double_close(
            s.skip(d),
            c,
            j,
        ),
        d + j > s.len() ==> spans::double_close(s, c, d + j) == s.len() && spans::double_close(
            s.skip(d),
            c,
            j,
        ) == s.len() - d,
    decreases s.len() - d - j,
{
    let t = s.skip(d);
    if d + j < s.len() {
        assert(spans::doubled(s, c, d + j) == spans::doubled(t, c, j));
        if !spans::doubled(t, c, j) {
            lemma_double_shift(s, c, d, j + 1);
        }
    }
}

proof fn lemma_single_shift(s: Seq<char>, c: char, d: int, j: int)
    requires
        0 <= d <= s.len(),
        0 <= j,
    ensures
        spans::single_close(s, c, d + j) == d + spans::single_close(s.skip(d), c, j),
    decreases s.len() - d - j,
{
    let t = s.skip(d);
    if d + j < s.len() {
        assert(t[j] == s[d + j]);
        lemma_run_shift(s, c, d, j);
        if s[d + j] != c {
            lemma_single_shift(s, c, d, j + 1);
        } else if text::run_of(t, c, j) > 1 {
            text::lemma_run_of(t, c, j);
            lemma_single_shift(s, c, d, j + text::run_of(t, c, j));
        }
    }
}

proof fn lemma_paren_shift(s: Seq<char>, d: int, j: int, depth: nat)
    requires
        0 <= d <= s.len(),
        0 <= j,
        d + j <= s.len(),
    ensures
        spans::paren_close(s, d + j, depth) == d + spans::paren_close(s.skip(d), j, depth),
    decreases s.len() - d - j,
{
    let t = s.skip(d);
    if d + j < s.len() {
        assert(t[j] == s[d + j]);
        if t[j] == '(' {
            lemma_paren_shift(s, d, j + 1, depth + 1);
        } else if t[j] == ')' {
            if depth > 0 {
                lemma_paren_shift(s, d, j + 1, (depth - 1) as nat);
            }
        } else {
            lemma_paren_shift(s, d, j + 1, depth);
        }
    }
}

/// What a span is where `d` characters more stand before it.
pub open spec fn moved(span: Span<int>, d: int) -> Span<int> {
    match span {
        Span::Code(end) => Span::Code(d + end),
        Span::Link(open, label_end, url_end) => Span::Link(d + open, d + label_end, d + url_end),
        Span::Emphasis(style, j) => Span::Emphasis(style, d + j),
        Span::Literal => Span::Literal,
    }
}

proof fn lemma_span_shift(s: Seq<char>, active: Active, d: int, i: int)
    requires
        0 <= d,
        0 <= i,
        d + i < s.len(),
        i > 0 || d == 0 || s[d] != '_',
    ensures
        spans::span_at(s, active, d + i) == moved(spans::span_at(s.skip(d), active, i), d),
{
    let t = s.skip(d);
    let c = s[d + i];
    assert(t[i] == c);
    if d + i + 1 < s.len() {
        assert(t[i + 1] == s[d + i + 1]);
    }
    if i > 0 {
        assert(t[i - 1] == s[d + i - 1]);
    }
    if c == '`' {
        text_laws::lemma_next_shift(s, '`', d, i + 1);
    } else if c == '[' || (c == '!' && i + 1 < t.len() && t[i + 1] == '[') {
        let open = if c == '[' {
            i
        } else {
            i + 1
        };
        text_laws::lemma_next_shift(s, ']', d, open + 1);
        text::lemma_next_at(t, ']', open + 1);
        let label_end = text::next_at(t, ']', open + 1);
        if label_end + 1 < t.len() {
            assert(t[label_end + 1] == s[d + label_end + 1]);
            lemma_paren_shift(s, d, label_end + 2, 0);
        }
    } else {
        assert(spans::doubled(s, c, d + i) == spans::doubled(t, c, i));
        lemma_double_shift(s, c, d, i + 2);
        lemma_single_shift(s, c, d, i + 1);
    }
}

/// The rendering from an index on depends on nothing before it.
proof fn lemma_inline_shift(s: Seq<char>, active: Active, d: int, i: int)
    requires
        0 <= d,
        0 <= i,
        d + i <= s.len(),
        i > 0 || d == 0 || d == s.len() || s[d] != '_',
    ensures
        spans::inline_from(s, active, d + i) == spans::inline_from(s.skip(d), active, i),
    decreases s.len() - d - i,
{
    let t = s.skip(d);
    if d + i < s.len() {
        lemma_span_shift(s, active, d, i);
        spans::lemma_span_at(t, active, i);
        match spans::span_at(t, active, i) {
            Span::Code(end) => {
                assert(s.subrange(d + i + 1, d + end) =~= t.subrange(i + 1, end));
                lemma_inline_shift(s, active, d, end + 1);
            },
            Span::Link(open, label_end, url_end) => {
                assert(s.subrange(d + open + 1, d + label_end) =~= t.subrange(open + 1, label_end));
                assert(s.subrange(d + label_end + 2, d + url_end) =~= t.subrange(
                    label_end + 2,
                    url_end,
                ));
                lemma_inline_shift(s, active, d, url_end + 1);
            },
            Span::Emphasis(style, j) => {
                let w = spans::delimiter_width(style);
                assert(s.subrange(d + i + w, d + j) =~= t.subrange(i + w, j));
                lemma_inline_shift(s, active, d, j + w);
            },
            Span::Literal => {
                assert(t[i] == s[d + i]);
                lemma_inline_shift(s, active, d, i + 1);
            },
        }
    }
}

/// Whether a text is made of characters that open nothing.
pub open spec fn is_plain(s: Seq<char>) -> bool {
    forall|k: int| 0 <= k < s.len() ==> laws::opens_nothing(#[trigger] s[k])
}

proof fn lemma_start(a: Seq<char>, x: Seq<char>)
    requires
        is_plain(a),
        x.len() > 0 && x[0] == '[' && a.len() > 0 ==> a.last() != '!',
    ensures
        spans::rendered(a + x) == spans::escaped(a, Place::Body) + spans::inline_from(
            a + x,
            spans::nothing_active(),
            a.len() as int,
        ),
{
    let s = a + x;
    assert forall|k: int| 0 <= k < a.len() implies laws::opens_nothing(#[trigger] s[k]) by {
        assert(s[k] == a[k]);
    }
    lemma_plain_prefix(s, spans::nothing_active(), 0, a.len() as int);
    assert(s.subrange(0, a.len() as int) =~= a);
}

/// The rendering of the plain text inside a span.
proof fn lemma_inner(b: Seq<char>, active: Active)
    requires
        is_plain(b),
    ensures
        spans::inline_from(b, active, 0) == spans::escaped(b, Place::Body),
{
    lemma_plain_prefix(b, active, 0, b.len() as int);
    assert(b.subrange(0, b.len() as int) =~= b);
    assert(spans::inline_from(b, active, b.len() as int) =~= Seq::<char>::empty());
    assert(spans::escaped(b, Place::Body) + Seq::<char>::empty() =~= spans::escaped(
        b,
        Place::Body,
    ));
}

/// Code between two backticks stays code: what stands before it is escaped, the code is
/// escaped as code, and what follows is rendered as it is alone.
pub proof fn code_stays_code(a: Seq<char>, code: Seq<char>, c: Seq<char>)
    requires
        is_plain(a),
        !code.contains('`'),
        c.len() > 0 ==> c[0] != '_',
    ensures
        spans::rendered(a + seq!['`'] + code + seq!['`'] + c) == spans::escaped(a, Place::Body)
            + seq!['`'] + spans::escaped(code, Place::Code) + seq!['`'] + spans::rendered(c),
{
    let x = seq!['`'] + code + seq!['`'] + c;
    let s = a + x;
    let n = a.len() as int;
    let end = n + 1 + code.len();
    assert(a + seq!['`'] + code + seq!['`'] + c =~= s);
    lemma_start(a, x);
    assert forall|j: int| n + 1 <= j < end implies s[j] != '`' by {
        assert(s[j] == code[j - n - 1]);
        assert(code.contains(s[j]));
    }
    assert(s[end] == '`');
    text_laws::lemma_next_is(s, '`', n + 1, end);
    assert(s.subrange(n + 1, end) =~= code);
    assert(s.skip(end + 1) =~= c);
    lemma_inline_shift(s, spans::nothing_active(), end + 1, 0);
    assert(spans::rendered(s) =~= spans::escaped(a, Place::Body) + seq!['`'] + spans::escaped(
        code,
        Place::Code,
    ) + seq!['`'] + spans::rendered(c));
}

/// A link keeps its label and its target, each escaped in its way; an image is shown as a
/// link.
pub proof fn links_keep_label_and_target(
    a: Seq<char>,
    label: Seq<char>,
    url: Seq<char>,
    c: Seq<char>,
)
    requires
        is_plain(a) && (a.len() > 0 ==> a.last() != '!'),
        is_plain(label) && !label.contains(']'),
        !url.contains('(') && !url.contains(')'),
        c.len() > 0 ==> c[0] != '_',
    ensures
        ({
            let link = seq!['['] + label + seq![']', '('] + url + seq![')'] + c;
            let shown = spans::escaped(a, Place::Body) + seq!['['] + spans::escaped(
                label,
                Place::Body,
            ) + seq![']', '('] + spans::escaped(url, Place::Url) + seq![')'] + spans::rendered(c);
            &&& spans::rendered(a + link) == shown
            &&& spans::rendered(a + seq!['!'] + link) == shown
        }),
{
    let link = seq!['['] + label + seq![']', '('] + url + seq![')'] + c;
    let n = a.len() as int;
    let s = a + link;
    lemma_start(a, link);
    assert(s.skip(n) =~= link);
    lemma_link_shown(s, n, n, label, url, c);
    let image = seq!['!'] + link;
    let t = a + image;
    lemma_start(a, image);
    assert(a + seq!['!'] + link =~= t);
    assert(t.skip(n + 1) =~= link);
    assert(t[n] == '!' && t[n + 1] == '[');
    lemma_link_shown(t, n, n + 1, label, url, c);
    let e = spans::escaped(a, Place::Body);
    let f = spans::escaped(label, Place::Body);
    let g = spans::escaped(url, Place::Url);
    let rest = spans::rendered(c);
    assert(e + (seq!['['] + f + seq![']', '('] + g + seq![')'] + rest) =~= e + seq!['['] + f + seq![
        ']',
        '(',
    ] + g + seq![')'] + rest);
}

/// What is shown of a link with a plain label, and of what follows it.
proof fn lemma_link_shown(
    s: Seq<char>,
    i: int,
    open: int,
    label: Seq<char>,
    url: Seq<char>,
    c: Seq<char>,
)
    requires
        0 <= i <= open < s.len(),
        open == i || open == i + 1 && s[i] == '!',
        s.skip(open) == seq!['['] + label + seq![']', '('] + url + seq![')'] + c,
        is_plain(label) && !label.contains(']'),
        !url.contains('(') && !url.contains(')'),
        c.len() > 0 ==> c[0] != '_',
    ensures
        spans::inline_from(s, spans::nothing_active(), i) == seq!['['] + spans::escaped(
            label,
            Place::Body,
        ) + seq![']', '('] + spans::escaped(url, Place::Url) + seq![')'] + spans::rendered(c),
{
    let active = spans::nothing_active();
    lemma_link_at(s, open, label, url, c);
    lemma_inner(label, active);
    let label_end = open + 1 + label.len();
    let url_end = label_end + 2 + url.len();
    assert(spans::span_at(s, active, i) == Span::<int>::Link(open, label_end, url_end));
    assert(spans::inline_from(s, active, i) == spans::link_text(
        spans::inline_from(label, active, 0),
        url,
    ) + spans::inline_from(s, active, url_end + 1));
}

proof fn lemma_link_at(s: Seq<char>, open: int, label: Seq<char>, url: Seq<char>, c: Seq<char>)
    requires
        0 <= open <= s.len(),
        s.skip(open) == seq!['['] + label + seq![']', '('] + url + seq![')'] + c,
        !label.contains(']'),
        !url.contains('(') && !url.contains(')'),
        c.len() > 0 ==> c[0] != '_',
    ensures
        ({
            let label_end = open + 1 + label.len();
            let url_end = label_end + 2 + url.len();
            &&& s[open] == '['
            &&& spans::link_at(s, open) == Some((label_end, url_end))
            &&& s.subrange(open + 1, label_end) == label
            &&& s.subrange(label_end + 2, url_end) == url
            &&& 0 <= url_end + 1 <= s.len()
            &&& spans::inline_from(s, spans::nothing_active(), url_end + 1) == spans::rendered(c)
        }),
{
    let t = s.skip(open);
    let label_end = open + 1 + label.len();
    let url_end = label_end + 2 + url.len();
    assert(t.len() == label.len() + url.len() + c.len() + 4);
    assert forall|j: int| open <= j < s.len() implies s[j] == t[j - open] by {}
    assert(t[0] == '[');
    assert forall|j: int| open + 1 <= j < label_end implies s[j] != ']' by {
        assert(t[j - open] == label[j - open - 1]);
        assert(label.contains(label[j - open - 1]));
    }
    assert(t[1 + label.len() as int] == ']');
    assert(t[2 + label.len() as int] == '(');
    assert(s[label_end] == ']' && s[label_end + 1] == '(');
    text_laws::lemma_next_is(s, ']', open + 1, label_end);
    assert forall|j: int| label_end + 2 <= j < url_end implies s[j] != '(' && s[j] != ')' by {
        let k = j - label_end - 2;
        assert(t[j - open] == url[k]);
        assert(url.contains(url[k]));
    }
    assert(t[url_end - open] == ')');
    lemma_paren_is(s, label_end + 2, url_end);
    assert(s.subrange(open + 1, label_end) =~= label) by {
        assert forall|j: int| 0 <= j < label.len() implies s.subrange(open + 1, label_end)[j]
            == label[j] by {
            assert(t[1 + j] == label[j]);
        }
    }
    assert(s.subrange(label_end + 2, url_end) =~= url) by {
        assert forall|j: int| 0 <= j < url.len() implies s.subrange(label_end + 2, url_end)[j]
            == url[j] by {
            assert(t[3 + label.len() + j] == url[j]);
        }
    }
    assert(s.skip(url_end + 1) =~= c) by {
        assert forall|j: int| 0 <= j < c.len() implies s.skip(url_end + 1)[j] == c[j] by {
            assert(t[4 + label.len() + url.len() + j] == c[j]);
        }
    }
    if c.len() > 0 {
        assert(s[url_end + 1] == s.skip(url_end + 1)[0]);
    }
    lemma_inline_shift(s, spans::nothing_active(), url_end + 1, 0);
}

proof fn lemma_paren_is(s: Seq<char>, j: int, end: int)
    requires
        0 <= j <= end < s.len(),
        forall|k: int| j <= k < end ==> s[k] != '(' && s[k] != ')',
        s[end] == ')',
    ensures
        spans::paren_close(s, j, 0) == end,
    decreases end - j,
{
    if j < end {
        lemma_paren_is(s, j + 1, end);
    }
}

/// Emphasis becomes the one mark of its kind on each side: what stands before it and
/// inside it is escaped, and what follows is rendered as it is alone.
pub proof fn emphasis_becomes_its_mark(a: Seq<char>, b: Seq<char>, c: Seq<char>, d: char)
    requires
        is_plain(a),
        is_plain(b) && b.len() > 0,
        c.len() > 0 ==> c[0] != '_',
    ensures
        d == '*' || d == '_' ==> spans::rendered(a + seq![d, d] + b + seq![d, d] + c)
            == spans::escaped(a, Place::Body) + seq!['*'] + spans::escaped(b, Place::Body) + seq![
            '*',
        ] + spans::rendered(c),
        d == '~' ==> spans::rendered(a + seq![d, d] + b + seq![d, d] + c) == spans::escaped(
            a,
            Place::Body,
        ) + seq!['~'] + spans::escaped(b, Place::Body) + seq!['~'] + spans::rendered(c),
        d == '|' ==> spans::rendered(a + seq![d, d] + b + seq![d, d] + c) == spans::escaped(
            a,
            Place::Body,
        ) + seq!['|', '|'] + spans::escaped(b, Place::Body) + seq!['|', '|'] + spans::rendered(c),
        (d == '*' || d == '_' && (a.len() == 0 || !spans::unicode_alphanumeric(a.last()))) && (
        c.len() == 0 || c[0] != d) ==> spans::rendered(a + seq![d] + b + seq![d] + c)
            == spans::escaped(a, Place::Body) + seq!['_'] + spans::escaped(b, Place::Body) + seq![
            '_',
        ] + spans::rendered(c),
{
    if d == '*' || d == '_' {
        lemma_pair(a, b, c, d, Style::Bold);
    }
    if d == '~' {
        lemma_pair(a, b, c, d, Style::Strike);
    }
    if d == '|' {
        lemma_pair(a, b, c, d, Style::Spoiler);
    }
    if (d == '*' || d == '_' && (a.len() == 0 || !spans::unicode_alphanumeric(a.last()))) && (
    c.len() == 0 || c[0] != d) {
        lemma_italic(a, b, c, d);
    }
}

proof fn lemma_pair(a: Seq<char>, b: Seq<char>, c: Seq<char>, d: char, style: Style)
    requires
        is_plain(a),
        is_plain(b) && b.len() > 0,
        c.len() > 0 ==> c[0] != '_',
        style == Style::Bold && (d == '*' || d == '_') || style == Style::Strike && d == '~' || style
            == Style::Spoiler && d == '|',
    ensures
        spans::rendered(a + seq![d, d] + b + seq![d, d] + c) == spans::escaped(a, Place::Body)
            + spans::mark(style) + spans::escaped(b, Place::Body) + spans::mark(style)
            + spans::rendered(c),
{
    let active = spans::nothing_active();
    let x = seq![d, d] + b + seq![d, d] + c;
    let s = a + x;
    let n = a.len() as int;
    let j = n + 2 + b.len();
    assert(a + seq![d, d] + b + seq![d, d] + c =~= s);
    lemma_start(a, x);
    assert(s[n] == d && s[n + 1] == d);
    assert forall|k: int| n + 2 <= k < j implies !spans::doubled(s, d, k) by {
        assert(s[k] == b[k - n - 2]);
        assert(laws::opens_nothing(b[k - n - 2]));
    }
    assert(s[j] == d && s[j + 1] == d);
    lemma_double_is(s, d, n + 2, j);
    assert(spans::doubled(s, d, n));
    assert(spans::span_at(s, active, n) == Span::<int>::Emphasis(style, j));
    assert(s.subrange(n + 2, j) =~= b);
    assert(s.skip(j + 2) =~= c);
    lemma_emphasis_shown(s, n, j, style, b, c);
    let e = spans::escaped(a, Place::Body);
    let m = spans::mark(style);
    let f = spans::escaped(b, Place::Body);
    assert(e + (m + f + m + spans::rendered(c)) =~= e + m + f + m + spans::rendered(c));
}

/// What is shown of a span of emphasis around plain text, and of what follows it.
proof fn lemma_emphasis_shown(
    s: Seq<char>,
    n: int,
    j: int,
    style: Style,
    b: Seq<char>,
    c: Seq<char>,
)
    requires
        0 <= n < s.len(),
        spans::span_at(s, spans::nothing_active(), n) == Span::<int>::Emphasis(style, j),
        n + spans::delimiter_width(style) < j,
        j + spans::delimiter_width(style) <= s.len(),
        s.subrange(n + spans::delimiter_width(style), j) == b,
        s.skip(j + spans::delimiter_width(style)) == c,
        is_plain(b),
        c.len() > 0 ==> c[0] != '_',
    ensures
        spans::inline_from(s, spans::nothing_active(), n) == spans::mark(style) + spans::escaped(
            b,
            Place::Body,
        ) + spans::mark(style) + spans::rendered(c),
{
    let active = spans::nothing_active();
    let end = j + spans::delimiter_width(style);
    lemma_inner(b, spans::opened(active, style));
    if end < s.len() {
        assert(s[end] == s.skip(end)[0]);
    }
    lemma_inline_shift(s, active, end, 0);
}

proof fn lemma_italic(a: Seq<char>, b: Seq<char>, c: Seq<char>, d: char)
    requires
        is_plain(a),
        is_plain(b) && b.len() > 0,
        c.len() > 0 ==> c[0] != '_' && c[0] != d,
        d == '*' || d == '_' && (a.len() == 0 || !spans::unicode_alphanumeric(a.last())),
    ensures
        spans::rendered(a + seq![d] + b + seq![d] + c) == spans::escaped(a, Place::Body) + seq![
            '_',
        ] + spans::escaped(b, Place::Body) + seq!['_'] + spans::rendered(c),
{
    let active = spans::nothing_active();
    let x = seq![d] + b + seq![d] + c;
    let s = a + x;
    let n = a.len() as int;
    let j = n + 1 + b.len();
    assert(a + seq![d] + b + seq![d] + c =~= s);
    lemma_start(a, x);
    assert(s[n] == d);
    assert(s[n + 1] == b[0]);
    assert(laws::opens_nothing(b[0]));
    if n > 0 {
        assert(s[n - 1] == a.last());
    }
    assert forall|k: int| n + 1 <= k < j implies s[k] != d by {
        assert(s[k] == b[k - n - 1]);
        assert(laws::opens_nothing(b[k - n - 1]));
    }
    assert(s[j] == d);
    if j + 1 < s.len() {
        assert(s[j + 1] == c[0]);
    }
    lemma_single_is(s, d, n + 1, j);
    lemma_italic_at(s, n, j, d);
    assert(s.subrange(n + 1, j) =~= b);
    assert(s.skip(j + 1) =~= c);
    lemma_emphasis_shown(s, n, j, Style::Italic, b, c);
    let e = spans::escaped(a, Place::Body);
    let f = spans::escaped(b, Place::Body);
    let m = seq!['_'];
    assert(e + (m + f + m + spans::rendered(c)) =~= e + m + f + m + spans::rendered(c));
}

proof fn lemma_italic_at(s: Seq<char>, n: int, j: int, d: char)
    requires
        0 <= n,
        n + 1 < j < s.len(),
        s[n] == d,
        d == '*' || d == '_',
        s[n + 1] != d,
        d == '_' && n > 0 ==> !spans::unicode_alphanumeric(s[n - 1]),
        spans::single_close(s, d, n + 1) == j,
    ensures
        spans::span_at(s, spans::nothing_active(), n) == Span::<int>::Emphasis(Style::Italic, j),
{
}

proof fn lemma_double_is(s: Seq<char>, c: char, j: int, end: int)
    requires
        0 <= j <= end < s.len(),
        forall|k: int| j <= k < end ==> !spans::doubled(s, c, k),
        spans::doubled(s, c, end),
    ensures
        spans::double_close(s, c, j) == end,
    decreases end - j,
{
    if j < end {
        lemma_double_is(s, c, j + 1, end);
    }
}

proof fn lemma_single_is(s: Seq<char>, c: char, j: int, end: int)
    requires
        0 <= j <= end < s.len(),
        forall|k: int| j <= k < end ==> s[k] != c,
        s[end] == c,
        end + 1 < s.len() ==> s[end + 1] != c,
    ensures
        spans::single_close(s, c, j) == end,
    decreases end - j,
{
    if j < end {
        lemma_single_is(s, c, j + 1, end);
    } else {
        text_laws::lemma_run_is(s, c, end, end + 1);
    }
}

/// A mark that nothing closes is text: it is escaped like the text around it.
pub proof fn unclosed_marks_are_escaped(a: Seq<char>, b: Seq<char>, d: char)
    requires
        is_plain(a),
        is_plain(b),
        d == '`' || d == '*' || d == '_' || d == '~' || d == '|',
    ensures
        spans::rendered(a + seq![d] + b) == spans::escaped(a + seq![d] + b, Place::Body),
{
    let active = spans::nothing_active();
    let x = seq![d] + b;
    let s = a + x;
    let n = a.len() as int;
    assert(a + seq![d] + b =~= s);
    lemma_start(a, x);
    assert(s[n] == d);
    assert forall|k: int| n + 1 <= k < s.len() implies laws::opens_nothing(#[trigger] s[k]) by {
        assert(s[k] == b[k - n - 1]);
    }
    if n + 1 < s.len() {
        assert(laws::opens_nothing(s[n + 1]));
    }
    assert forall|k: int| n + 1 <= k < s.len() implies s[k] != d by {
        assert(laws::opens_nothing(s[k]));
    }
    text_laws::lemma_next_is(s, d, n + 1, s.len() as int);
    lemma_never_single(s, d, n + 1);
    assert(spans::span_at(s, active, n) is Literal);
    lemma_plain_prefix(s, active, n + 1, s.len() as int);
    assert(s.subrange(n + 1, s.len() as int) =~= b);
    laws::lemma_escaped_one(d, Place::Body);
    laws::lemma_escaped_add(seq![d], b, Place::Body);
    laws::lemma_escaped_add(a, x, Place::Body);
    assert(spans::inline_from(s, active, s.len() as int) =~= Seq::<char>::empty());
    assert(spans::rendered(s) =~= spans::escaped(s, Place::Body));
}

proof fn lemma_never_single(s: Seq<char>, c: char, j: int)
    requires
        0 <= j <= s.len(),
        forall|k: int| j <= k < s.len() ==> s[k] != c,
    ensures
        spans::single_close(s, c, j) == s.len(),
    decreases s.len() - j,
{
    if j < s.len() {
        lemma_never_single(s, c, j + 1);
    }
}

proof fn lemma_single_over(s: Seq<char>, c: char, j: int, n: int)
    requires
        0 <= j <= n,
        n + 1 < s.len(),
        forall|k: int| j <= k < n ==> s[k] != c,
        s[n] == c && s[n + 1] == c,
        n + 2 < s.len() ==> s[n + 2] != c,
    ensures
        spans::single_close(s, c, j) == spans::single_close(s, c, n + 2),
    decreases n - j,
{
    if j < n {
        lemma_single_over(s, c, j + 1, n);
    } else {
        text_laws::lemma_run_is(s, c, n, n + 2);
    }
}

/// Bold text inside italic text is bold and italic: the marks of the one do not end the
/// other.
pub proof fn bold_stands_inside_italics(a: Seq<char>, b: Seq<char>, c: Seq<char>, d: char)
    requires
        is_plain(a) && a.len() > 0,
        is_plain(b) && b.len() > 0,
        is_plain(c) && c.len() > 0,
        d == '*' || d == '_',
    ensures
        spans::rendered(seq![d] + a + seq![d, d] + b + seq![d, d] + c + seq![d]) == seq!['_']
            + spans::escaped(a, Place::Body) + seq!['*'] + spans::escaped(b, Place::Body) + seq![
            '*',
        ] + spans::escaped(c, Place::Body) + seq!['_'],
{
    let inner = a + seq![d, d] + b + seq![d, d] + c;
    let s = seq![d] + inner + seq![d];
    let none = Seq::<char>::empty();
    assert(seq![d] + a + seq![d, d] + b + seq![d, d] + c + seq![d] =~= s);
    let n = 1 + a.len() as int;
    let m = n + 2 + b.len();
    let end = m + 2 + c.len();
    assert forall|k: int| 1 <= k < n implies s[k] != d by {
        assert(s[k] == a[k - 1]);
        assert(laws::opens_nothing(a[k - 1]));
    }
    assert forall|k: int| n + 2 <= k < m implies s[k] != d by {
        assert(s[k] == b[k - n - 2]);
        assert(laws::opens_nothing(b[k - n - 2]));
    }
    assert forall|k: int| m + 2 <= k < end implies s[k] != d by {
        assert(s[k] == c[k - m - 2]);
        assert(laws::opens_nothing(c[k - m - 2]));
    }
    assert(s[0] == d && s[n] == d && s[n + 1] == d && s[m] == d && s[m + 1] == d && s[end] == d);
    assert(s[n + 2] != d && s[m + 2] != d && s[1] != d);
    lemma_single_over(s, d, 1, n);
    lemma_single_over(s, d, n + 2, m);
    lemma_single_is(s, d, m + 2, end);
    lemma_italic_at(s, 0, end, d);
    let italic = spans::opened(spans::nothing_active(), Style::Italic);
    assert(s.subrange(1, end) =~= inner);
    assert(spans::inline_from(s, spans::nothing_active(), end + 1) =~= none);
    lemma_bold_in(a, b, c, d, italic);
    let shown = spans::escaped(a, Place::Body) + seq!['*'] + spans::escaped(b, Place::Body) + seq![
        '*',
    ] + spans::escaped(c, Place::Body);
    assert(spans::rendered(s) == seq!['_'] + shown + seq!['_'] + none);
    assert(seq!['_'] + shown + seq!['_'] + none =~= seq!['_'] + spans::escaped(a, Place::Body)
        + seq!['*'] + spans::escaped(b, Place::Body) + seq!['*'] + spans::escaped(c, Place::Body)
        + seq!['_']);
}

proof fn lemma_bold_in(a: Seq<char>, b: Seq<char>, c: Seq<char>, d: char, active: Active)
    requires
        is_plain(a),
        is_plain(b) && b.len() > 0,
        is_plain(c),
        d == '*' || d == '_',
        !active.bold,
    ensures
        spans::inline_from(a + seq![d, d] + b + seq![d, d] + c, active, 0) == spans::escaped(
            a,
            Place::Body,
        ) + seq!['*'] + spans::escaped(b, Place::Body) + seq!['*'] + spans::escaped(c, Place::Body),
{
    let s = a + seq![d, d] + b + seq![d, d] + c;
    let n = a.len() as int;
    let j = n + 2 + b.len();
    let size = s.len() as int;
    assert forall|k: int| 0 <= k < n implies laws::opens_nothing(#[trigger] s[k]) by {
        assert(s[k] == a[k]);
    }
    lemma_plain_prefix(s, active, 0, n);
    assert(s.subrange(0, n) =~= a);
    assert(s[n] == d && s[n + 1] == d);
    assert forall|k: int| n + 2 <= k < j implies !spans::doubled(s, d, k) by {
        assert(s[k] == b[k - n - 2]);
        assert(laws::opens_nothing(b[k - n - 2]));
    }
    assert(s[j] == d && s[j + 1] == d);
    lemma_double_is(s, d, n + 2, j);
    assert(spans::doubled(s, d, n));
    assert(spans::span_at(s, active, n) == Span::<int>::Emphasis(Style::Bold, j));
    assert(s.subrange(n + 2, j) =~= b);
    lemma_inner(b, spans::opened(active, Style::Bold));
    assert forall|k: int| j + 2 <= k < size implies laws::opens_nothing(#[trigger] s[k]) by {
        assert(s[k] == c[k - j - 2]);
    }
    lemma_plain_prefix(s, active, j + 2, size);
    assert(s.subrange(j + 2, size) =~= c);
    assert(spans::inline_from(s, active, size) =~= Seq::<char>::empty());
    let e = spans::escaped(a, Place::Body);
    let f = spans::escaped(b, Place::Body);
    let g = spans::escaped(c, Place::Body);
    assert(spans::inline_from(s, active, n) == seq!['*'] + f + seq!['*'] + (g + Seq::<
        char,
    >::empty()));
    assert(e + (seq!['*'] + f + seq!['*'] + (g + Seq::<char>::empty())) =~= e + seq!['*'] + f
        + seq!['*'] + g);
}

} // verus!
