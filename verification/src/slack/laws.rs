//! What holds of every answer that is rendered for Slack.

use crate::lines;
use crate::markup;
use crate::slack::mrkdwn;
use crate::text;
use crate::text_laws;
use vstd::prelude::*;
use vstd::string::*;

verus! {

// ---- Literals ---------------------------------------------------------------

proof fn lemma_words()
    ensures
        text_laws::is_call("@channel"@),
        text_laws::is_call("@here"@),
        text_laws::is_call("@everyone"@),
        text_laws::is_call("@\u{200b}channel"@),
        text_laws::is_call("@\u{200b}here"@),
        text_laws::is_call("@\u{200b}everyone"@),
        "@channel"@[1] == 'c',
        "@here"@[1] == 'h',
        "@everyone"@[1] == 'e',
        "@\u{200b}channel"@[1] == '\u{200b}',
        "@\u{200b}here"@[1] == '\u{200b}',
        "@\u{200b}everyone"@[1] == '\u{200b}',
        "@\u{200b}channel"@ == seq!['@', '\u{200b}'] + "@channel"@.skip(1),
        "@\u{200b}here"@ == seq!['@', '\u{200b}'] + "@here"@.skip(1),
        "@\u{200b}everyone"@ == seq!['@', '\u{200b}'] + "@everyone"@.skip(1),
        "@channel"@ == seq!['@'] + "@channel"@.skip(1),
        "@here"@ == seq!['@'] + "@here"@.skip(1),
        "@everyone"@ == seq!['@'] + "@everyone"@.skip(1),
        "**"@ == seq!['*', '*'],
        "__"@ == seq!['_', '_'],
        "*"@ == seq!['*'],
        "`"@ == seq!['`'],
        "<"@ == seq!['<'],
        ">"@ == seq!['>'],
        "\n"@ == seq!['\n'],
        "&lt;"@ == seq!['&', 'l', 't', ';'],
{
    reveal_strlit("@channel");
    reveal_strlit("@here");
    reveal_strlit("@everyone");
    reveal_strlit("@\u{200b}channel");
    reveal_strlit("@\u{200b}here");
    reveal_strlit("@\u{200b}everyone");
    reveal_strlit("**");
    reveal_strlit("__");
    reveal_strlit("*");
    reveal_strlit("`");
    reveal_strlit("<");
    reveal_strlit(">");
    reveal_strlit("\n");
    reveal_strlit("&lt;");
    assert("@\u{200b}channel"@ =~= seq!['@', '\u{200b}'] + "@channel"@.skip(1));
    assert("@\u{200b}here"@ =~= seq!['@', '\u{200b}'] + "@here"@.skip(1));
    assert("@\u{200b}everyone"@ =~= seq!['@', '\u{200b}'] + "@everyone"@.skip(1));
    assert("@channel"@ =~= seq!['@'] + "@channel"@.skip(1));
    assert("@here"@ =~= seq!['@'] + "@here"@.skip(1));
    assert("@everyone"@ =~= seq!['@'] + "@everyone"@.skip(1));
    assert("**"@ =~= seq!['*', '*']);
    assert("__"@ =~= seq!['_', '_']);
    assert("*"@ =~= seq!['*']);
    assert("`"@ =~= seq!['`']);
    assert("<"@ =~= seq!['<']);
    assert(">"@ =~= seq!['>']);
    assert("\n"@ =~= seq!['\n']);
    assert("&lt;"@ =~= seq!['&', 'l', 't', ';']);
}

/// The zero-width space in a broken word is all that is added to it.
proof fn lemma_word_kept(word: Seq<char>, tail: Seq<char>, with: Seq<char>, keep: spec_fn(char) -> bool)
    requires
        word == seq!['@'] + tail,
        with == seq!['@', '\u{200b}'] + tail,
        !keep('\u{200b}'),
    ensures
        word.filter(keep) == with.filter(keep),
{
    assert(with =~= (seq!['@'] + seq!['\u{200b}']) + tail);
    Seq::filter_distributes_over_add(seq!['@'] + seq!['\u{200b}'], tail, keep);
    Seq::filter_distributes_over_add(seq!['@'], seq!['\u{200b}'], keep);
    Seq::filter_distributes_over_add(seq!['@'], tail, keep);
    text_laws::lemma_none_kept(seq!['\u{200b}'], keep);
    assert(seq!['@'].filter(keep) + seq!['\u{200b}'].filter(keep) =~= seq!['@'].filter(keep));
}

// ---- Angle brackets ---------------------------------------------------------

/// Angle brackets are made harmless one pair after the other: what stands before an
/// opening bracket stays, the bracket stays only before a link, what is inside stays,
/// and what follows the pair is treated likewise. A bracket that is not closed is made
/// harmless, and what follows it stays.
pub proof fn brackets_are_kept_for_links_alone(a: Seq<char>, token: Seq<char>, b: Seq<char>)
    requires
        !a.contains('<'),
        !token.contains('>'),
    ensures
        mrkdwn::tame_from(a, 0) == a,
        mrkdwn::tame_from(a + seq!['<'] + token, 0) == a + "&lt;"@ + token,
        mrkdwn::tame_from(a + seq!['<'] + token + seq!['>'] + b, 0) == a + (if text::begins_with(
            token,
            "http://"@,
        ) || text::begins_with(token, "https://"@) || text::begins_with(token, "mailto:"@) {
            seq!['<']
        } else {
            "&lt;"@
        }) + token + seq!['>'] + mrkdwn::tame_from(b, 0),
{
    lemma_words();
    let n = a.len() as int;
    assert forall|j: int| 0 <= j < n implies a[j] != '<' by {
        assert(!a.contains('<'));
    }
    assert forall|j: int| 0 <= j < token.len() implies token[j] != '>' by {
        assert(!token.contains('>'));
    }
    text_laws::lemma_next_is(a, '<', 0, n);
    assert(a.skip(0) =~= a);
    let open = a + seq!['<'] + token;
    assert forall|j: int| 0 <= j < n implies open[j] != '<' by {
        assert(open[j] == a[j]);
    }
    assert(open[n] == '<');
    text_laws::lemma_next_is(open, '<', 0, n);
    assert forall|j: int| n + 1 <= j < open.len() implies open[j] != '>' by {
        assert(open[j] == token[j - n - 1]);
    }
    text_laws::lemma_next_is(open, '>', n + 1, open.len() as int);
    assert(open.subrange(0, n) =~= a);
    assert(open.skip(n + 1) =~= token);
    let s = a + seq!['<'] + token + seq!['>'] + b;
    let end = n + 1 + token.len();
    assert forall|j: int| 0 <= j < n implies s[j] != '<' by {
        assert(s[j] == a[j]);
    }
    assert(s[n] == '<');
    text_laws::lemma_next_is(s, '<', 0, n);
    assert forall|j: int| n + 1 <= j < end implies s[j] != '>' by {
        assert(s[j] == token[j - n - 1]);
    }
    assert(s[end] == '>');
    text_laws::lemma_next_is(s, '>', n + 1, end);
    assert(s.subrange(0, n) =~= a);
    assert(s.subrange(n + 1, end) =~= token);
    lemma_tame_shift(s, end + 1, 0);
    assert(s.skip(end + 1) =~= b);
}

proof fn lemma_tame_shift(s: Seq<char>, d: int, i: int)
    requires
        0 <= d,
        0 <= i,
        d + i <= s.len(),
    ensures
        mrkdwn::tame_from(s, d + i) == mrkdwn::tame_from(s.skip(d), i),
    decreases s.len() - i,
{
    let t = s.skip(d);
    text_laws::lemma_next_shift(s, '<', d, i);
    text::lemma_next_at(t, '<', i);
    let start = text::next_at(t, '<', i);
    if start >= t.len() {
        assert(s.skip(d + i) =~= t.skip(i));
    } else {
        text_laws::lemma_next_shift(s, '>', d, start + 1);
        text::lemma_next_at(t, '>', start + 1);
        let end = text::next_at(t, '>', start + 1);
        assert(s.subrange(d + i, d + start) =~= t.subrange(i, start));
        if end >= t.len() {
            assert(s.skip(d + start + 1) =~= t.skip(start + 1));
        } else {
            assert(s.subrange(d + start + 1, d + end) =~= t.subrange(start + 1, end));
            lemma_tame_shift(s, d, end + 1);
        }
    }
}

proof fn lemma_tame_kept(s: Seq<char>, keep: spec_fn(char) -> bool, i: int)
    requires
        0 <= i <= s.len(),
        s.contains('<') ==> !keep('<') && !keep('&') && !keep('l') && !keep('t') && !keep(';'),
    ensures
        mrkdwn::tame_from(s, i).filter(keep) == s.skip(i).filter(keep),
    decreases s.len() - i,
{
    lemma_words();
    text::lemma_next_at(s, '<', i);
    let start = text::next_at(s, '<', i);
    if start < s.len() {
        assert(s.contains(s[start]));
        text::lemma_next_at(s, '>', start + 1);
        let end = text::next_at(s, '>', start + 1);
        let head = s.subrange(i, start);
        let none = Seq::<char>::empty();
        assert forall|k: int| 0 <= k < "&lt;"@.len() implies !keep(#[trigger] "&lt;"@[k]) by {}
        text_laws::lemma_none_kept("&lt;"@, keep);
        text_laws::lemma_none_kept("<"@, keep);
        text_laws::lemma_none_kept(seq!['<'], keep);
        assert("&lt;"@.filter(keep) =~= none);
        assert("<"@.filter(keep) =~= none);
        assert(seq!['<'].filter(keep) =~= none);
        if end >= s.len() {
            let tail = s.skip(start + 1);
            Seq::filter_distributes_over_add(head + "&lt;"@, tail, keep);
            Seq::filter_distributes_over_add(head, "&lt;"@, keep);
            Seq::filter_distributes_over_add(head + seq!['<'], tail, keep);
            Seq::filter_distributes_over_add(head, seq!['<'], keep);
            assert(s.skip(i) =~= head + seq!['<'] + tail);
        } else {
            let token = s.subrange(start + 1, end);
            let rest = mrkdwn::tame_from(s, end + 1);
            lemma_tame_kept(s, keep, end + 1);
            let open = if mrkdwn::is_link(token) {
                "<"@
            } else {
                "&lt;"@
            };
            Seq::filter_distributes_over_add(head + open + token + ">"@, rest, keep);
            Seq::filter_distributes_over_add(head + open + token, ">"@, keep);
            Seq::filter_distributes_over_add(head + open, token, keep);
            Seq::filter_distributes_over_add(head, open, keep);
            Seq::filter_distributes_over_add(
                head + seq!['<'] + token + seq!['>'],
                s.skip(end + 1),
                keep,
            );
            Seq::filter_distributes_over_add(head + seq!['<'] + token, seq!['>'], keep);
            Seq::filter_distributes_over_add(head + seq!['<'], token, keep);
            Seq::filter_distributes_over_add(head, seq!['<'], keep);
            assert(s.skip(i) =~= head + seq!['<'] + token + seq!['>'] + s.skip(end + 1));
        }
    }
}

// ---- Text outside code ------------------------------------------------------

proof fn lemma_text_kept(part: Seq<char>, keep: spec_fn(char) -> bool)
    requires
        !keep('\u{200b}') && !keep('*') && !keep('_'),
        part.contains('<') ==> !keep('<') && !keep('&') && !keep('l') && !keep('t') && !keep(';'),
    ensures
        mrkdwn::rendered_text(part).filter(keep) == part.filter(keep),
{
    lemma_words();
    let a = text::replaced(part, "**"@, "*"@);
    let b = text::replaced(a, "__"@, "*"@);
    let none = Seq::<char>::empty();
    text_laws::lemma_none_kept("**"@, keep);
    text_laws::lemma_none_kept("__"@, keep);
    text_laws::lemma_none_kept("*"@, keep);
    assert("**"@.filter(keep) =~= none);
    assert("__"@.filter(keep) =~= none);
    assert("*"@.filter(keep) =~= none);
    text_laws::what_both_hold_is_kept(part, "**"@, "*"@, keep);
    text_laws::what_both_hold_is_kept(a, "__"@, "*"@, keep);
    let brackets = |c: char| c == '<';
    text_laws::lemma_none_kept("**"@, brackets);
    text_laws::lemma_none_kept("__"@, brackets);
    text_laws::lemma_none_kept("*"@, brackets);
    assert("**"@.filter(brackets) =~= none);
    assert("__"@.filter(brackets) =~= none);
    assert("*"@.filter(brackets) =~= none);
    text_laws::what_both_hold_is_kept(part, "**"@, "*"@, brackets);
    text_laws::what_both_hold_is_kept(a, "__"@, "*"@, brackets);
    text_laws::lemma_none_kept(part, brackets);
    text_laws::lemma_none_kept(b, brackets);
    if b.contains('<') && !part.contains('<') {
        let i = choose|i: int| 0 <= i < b.len() && b[i] == '<';
        assert(brackets(b[i]));
        assert forall|j: int| 0 <= j < part.len() implies !brackets(#[trigger] part[j]) by {
            assert(part.contains(part[j]));
        }
    }
    lemma_tame_kept(b, keep, 0);
    assert(b.skip(0) =~= b);
    let t = mrkdwn::tame_from(b, 0);
    let u = text::replaced(t, "@channel"@, "@\u{200b}channel"@);
    let v = text::replaced(u, "@here"@, "@\u{200b}here"@);
    lemma_word_kept("@channel"@, "@channel"@.skip(1), "@\u{200b}channel"@, keep);
    lemma_word_kept("@here"@, "@here"@.skip(1), "@\u{200b}here"@, keep);
    lemma_word_kept("@everyone"@, "@everyone"@.skip(1), "@\u{200b}everyone"@, keep);
    text_laws::what_both_hold_is_kept(t, "@channel"@, "@\u{200b}channel"@, keep);
    text_laws::what_both_hold_is_kept(u, "@here"@, "@\u{200b}here"@, keep);
    text_laws::what_both_hold_is_kept(v, "@everyone"@, "@\u{200b}everyone"@, keep);
}

/// Whether Slack would neither change nor act on anything in a text.
pub open spec fn is_quiet(s: Seq<char>) -> bool {
    &&& !s.contains('<')
    &&& forall|i: int|
        !text_laws::stands_at(s, "**"@, i) && !text_laws::stands_at(s, "__"@, i)
            && !text_laws::stands_at(s, "@channel"@, i) && !text_laws::stands_at(s, "@here"@, i)
            && !text_laws::stands_at(s, "@everyone"@, i)
}

proof fn lemma_quiet_text(part: Seq<char>)
    requires
        is_quiet(part),
    ensures
        mrkdwn::rendered_text(part) == part,
{
    lemma_words();
    text_laws::text_without_the_pattern_stays(part, "**"@, "*"@);
    text_laws::text_without_the_pattern_stays(part, "__"@, "*"@);
    brackets_are_kept_for_links_alone(part, Seq::empty(), Seq::empty());
    text_laws::text_without_the_pattern_stays(part, "@channel"@, "@\u{200b}channel"@);
    text_laws::text_without_the_pattern_stays(part, "@here"@, "@\u{200b}here"@);
    text_laws::text_without_the_pattern_stays(part, "@everyone"@, "@\u{200b}everyone"@);
}

proof fn lemma_quiet_part(s: Seq<char>, i: int, j: int)
    requires
        is_quiet(s),
        0 <= i <= j <= s.len(),
    ensures
        is_quiet(s.subrange(i, j)),
{
    let part = s.subrange(i, j);
    assert(!part.contains('<')) by {
        assert forall|k: int| 0 <= k < part.len() implies part[k] != '<' by {
            assert(s.contains(s[i + k]));
        }
    }
    assert forall|k: int|
        !text_laws::stands_at(part, "**"@, k) && !text_laws::stands_at(part, "__"@, k)
            && !text_laws::stands_at(part, "@channel"@, k) && !text_laws::stands_at(
            part,
            "@here"@,
            k,
        ) && !text_laws::stands_at(part, "@everyone"@, k) by {
        lemma_stands_in(s, i, j, "**"@, k);
        lemma_stands_in(s, i, j, "__"@, k);
        lemma_stands_in(s, i, j, "@channel"@, k);
        lemma_stands_in(s, i, j, "@here"@, k);
        lemma_stands_in(s, i, j, "@everyone"@, k);
    }
}

proof fn lemma_stands_in(s: Seq<char>, i: int, j: int, pattern: Seq<char>, k: int)
    requires
        0 <= i <= j <= s.len(),
    ensures
        text_laws::stands_at(s.subrange(i, j), pattern, k) ==> text_laws::stands_at(
            s,
            pattern,
            i + k,
        ),
{
    if text_laws::stands_at(s.subrange(i, j), pattern, k) {
        assert(s.subrange(i + k, i + k + pattern.len()) =~= s.subrange(i, j).subrange(
            k,
            k + pattern.len(),
        ));
    }
}

// ---- Parts of a line --------------------------------------------------------

proof fn lemma_parts_shift(parts: Seq<Seq<char>>, d: int, k: int)
    requires
        0 <= d <= parts.len(),
        d % 2 == 0,
        0 <= k,
    ensures
        mrkdwn::rendered_parts(parts, d + k) == mrkdwn::rendered_parts(parts.skip(d), k),
    decreases parts.len() - d - k,
{
    if d + k < parts.len() {
        lemma_parts_shift(parts, d, k + 1);
        assert(parts.skip(d)[k] == parts[d + k]);
    }
}

/// The parts of a text after a code span.
proof fn lemma_split_code(a: Seq<char>, code: Seq<char>, b: Seq<char>)
    requires
        !a.contains('`'),
        !code.contains('`'),
    ensures
        text::split_on(a + seq!['`'] + code + seq!['`'] + b, '`') == seq![a, code]
            + text::split_on(b, '`'),
        text::split_on(a + seq!['`'] + code, '`') == seq![a, code],
        text::split_on(a, '`') == seq![a],
{
    let rest = text::split_on(b, '`');
    text_laws::parts_joined_are_the_text(b, '`');
    let parts = seq![a, code] + rest;
    assert forall|k: int| 0 <= k < parts.len() implies !(#[trigger] parts[k]).contains('`') by {
        if k >= 2 {
            assert(parts[k] == rest[k - 2]);
        }
    }
    text_laws::joined_parts_are_split_again(parts, '`');
    text_laws::joined_parts_are_split_again(seq![a, code], '`');
    text_laws::joined_parts_are_split_again(seq![a], '`');
    text_laws::joining_puts_separators_between(seq![a, code], rest, a, seq!['`']);
    text_laws::joining_puts_separators_between(seq![a], seq![code], a, seq!['`']);
    text_laws::joining_puts_separators_between(seq![a], seq![code], code, seq!['`']);
    assert(seq![a, code] =~= seq![a] + seq![code]);
    assert(a + seq!['`'] + code + seq!['`'] + b =~= (a + seq!['`'] + code) + seq!['`'] + b);
}

proof fn lemma_heading_before_code(a: Seq<char>, x: Seq<char>)
    requires
        x.len() > 0,
        x[0] == '`',
    ensures
        markup::without_heading(a + x) == markup::without_heading(a) + x,
{
    let s = a + x;
    text_laws::lemma_run(a, '#', 0);
    let n = text::run_of(a, '#', 0) as int;
    assert forall|j: int| 0 <= j < n implies s[j] == '#' by {
        assert(s[j] == a[j]);
    }
    if n < a.len() {
        assert(s[n] == a[n]);
    } else {
        assert(s[n] == x[0]);
    }
    text_laws::lemma_run_is(s, '#', 0, n);
    if 0 < n < a.len() && a[n] == ' ' {
        assert(s.skip(n + 1) =~= a.skip(n + 1) + x);
    }
}

proof fn lemma_line_kept(line: Seq<char>, keep: spec_fn(char) -> bool)
    requires
        !keep('\u{200b}') && !keep('*') && !keep('_') && !keep('`'),
        line.contains('<') ==> !keep('<') && !keep('&') && !keep('l') && !keep('t') && !keep(';'),
    ensures
        mrkdwn::rendered_line(line).filter(keep) == markup::without_heading(line).filter(keep),
{
    let s = markup::without_heading(line);
    text::lemma_run_of(line, '#', 0);
    let parts = text::split_on(s, '`');
    text_laws::parts_joined_are_the_text(s, '`');
    assert forall|k: int| 0 <= k < parts.len() && (#[trigger] parts[k]).contains(
        '<',
    ) implies line.contains('<') by {
        lemma_part_of_joined(parts, k, '<', '`');
        let i = choose|i: int| 0 <= i < s.len() && s[i] == '<';
        assert(line[line.len() - s.len() + i] == '<');
    }
    lemma_parts_kept(parts, keep, 0);
    assert(parts.skip(0) =~= parts);
}

proof fn lemma_part_of_joined(parts: Seq<Seq<char>>, k: int, c: char, sep: char)
    requires
        0 <= k < parts.len(),
        parts[k].contains(c),
    ensures
        text::joined(parts, seq![sep]).contains(c),
    decreases parts.len(),
{
    let s = text::joined(parts, seq![sep]);
    if parts.len() > 1 {
        let front = text::joined(parts.drop_last(), seq![sep]);
        if k == parts.len() - 1 {
            let i = choose|i: int| 0 <= i < parts[k].len() && parts[k][i] == c;
            assert(s[front.len() + 1 + i] == c);
        } else {
            assert(parts.drop_last()[k] == parts[k]);
            lemma_part_of_joined(parts.drop_last(), k, c, sep);
            let i = choose|i: int| 0 <= i < front.len() && front[i] == c;
            assert(s[i] == c);
        }
    }
}

proof fn lemma_parts_kept(parts: Seq<Seq<char>>, keep: spec_fn(char) -> bool, k: int)
    requires
        0 <= k <= parts.len(),
        !keep('\u{200b}') && !keep('*') && !keep('_') && !keep('`'),
        forall|j: int|
            0 <= j < parts.len() && (#[trigger] parts[j]).contains('<') ==> !keep('<') && !keep('&')
                && !keep('l') && !keep('t') && !keep(';'),
    ensures
        mrkdwn::rendered_parts(parts, k).filter(keep) == text::joined(
            parts.skip(k),
            seq!['`'],
        ).filter(keep),
    decreases parts.len() - k,
{
    lemma_words();
    let none = Seq::<char>::empty();
    text_laws::lemma_none_kept(seq!['`'], keep);
    assert(seq!['`'].filter(keep) =~= none);
    if k < parts.len() {
        lemma_parts_kept(parts, keep, k + 1);
        let rest = mrkdwn::rendered_parts(parts, k + 1);
        let tail = parts.skip(k + 1);
        assert(parts.skip(k) =~= seq![parts[k]] + tail);
        text::lemma_joined_front(parts[k], tail, seq!['`']);
        let later = text::joined(tail, seq!['`']);
        if tail.len() == 0 {
            assert(later =~= none);
            Seq::filter_distributes_over_add(parts[k], none, keep);
            assert(parts[k] + none =~= parts[k]);
        } else {
            Seq::filter_distributes_over_add(parts[k] + seq!['`'], later, keep);
            Seq::filter_distributes_over_add(parts[k], seq!['`'], keep);
            assert(parts[k].filter(keep) + none =~= parts[k].filter(keep));
        }
        if k % 2 == 0 {
            lemma_text_kept(parts[k], keep);
            Seq::filter_distributes_over_add(mrkdwn::rendered_text(parts[k]), rest, keep);
        } else {
            Seq::filter_distributes_over_add("`"@ + parts[k] + "`"@, rest, keep);
            Seq::filter_distributes_over_add("`"@ + parts[k], "`"@, keep);
            Seq::filter_distributes_over_add("`"@, parts[k], keep);
            assert(none + parts[k].filter(keep) + none =~= parts[k].filter(keep));
        }
    } else {
        assert(parts.skip(k) =~= Seq::<Seq<char>>::empty());
    }
}

// ---- Lines ------------------------------------------------------------------

proof fn lemma_rendered_lines(list: Seq<Seq<char>>, k: int, fenced: bool)
    requires
        0 <= k <= list.len(),
        fenced == text_laws::is_inside(list, k),
    ensures
        mrkdwn::rendered_lines(list, k, fenced).len() == list.len() - k,
        forall|j: int|
            k <= j < list.len() ==> #[trigger] mrkdwn::rendered_lines(list, k, fenced)[j - k]
                == if markup::is_fence(list[j]) || text_laws::is_inside(list, j) {
                list[j]
            } else {
                mrkdwn::rendered_line(list[j])
            },
    decreases list.len() - k,
{
    if k < list.len() {
        text_laws::lemma_inside_next(list, k);
        let next = if markup::is_fence(list[k]) {
            !fenced
        } else {
            fenced
        };
        lemma_rendered_lines(list, k + 1, next);
        let all = mrkdwn::rendered_lines(list, k, fenced);
        let rest = mrkdwn::rendered_lines(list, k + 1, next);
        assert forall|j: int| k <= j < list.len() implies #[trigger] all[j - k]
            == if markup::is_fence(list[j]) || text_laws::is_inside(list, j) {
            list[j]
        } else {
            mrkdwn::rendered_line(list[j])
        } by {
            if j > k {
                assert(all[j - k] == rest[j - (k + 1)]);
            }
        }
    }
}

proof fn lemma_rendered_lines_start(list: Seq<Seq<char>>)
    ensures
        mrkdwn::rendered_lines(list, 0, false).len() == list.len(),
        forall|j: int|
            0 <= j < list.len() ==> #[trigger] mrkdwn::rendered_lines(list, 0, false)[j - 0]
                == if markup::is_fence(list[j]) || text_laws::is_inside(list, j) {
                list[j]
            } else {
                mrkdwn::rendered_line(list[j])
            },
        list.len() > 0 ==> !text_laws::is_inside(list, 0),
{
    if list.len() > 0 {
        text_laws::lemma_inside_next(list, 0);
    } else {
        assert(list.take(0) =~= list);
        reveal(Seq::filter);
    }
    lemma_rendered_lines(list, 0, false);
}

proof fn lemma_one_line(line: Seq<char>)
    requires
        !line.contains('\n'),
    ensures
        !mrkdwn::rendered_line(line).contains('\n'),
        !markup::is_fence(line) ==> mrkdwn::rendered(line) == mrkdwn::rendered_line(line),
{
    let shown = mrkdwn::rendered_line(line);
    let keep = |c: char| c == '\n';
    lemma_line_kept(line, keep);
    let s = markup::without_heading(line);
    text::lemma_run_of(line, '#', 0);
    assert forall|i: int| 0 <= i < s.len() implies !keep(#[trigger] s[i]) by {
        assert(s[i] == line[line.len() - s.len() + i]);
        assert(line.contains(s[i]));
    }
    text_laws::lemma_none_kept(s, keep);
    text_laws::lemma_none_kept(shown, keep);
    assert forall|i: int| 0 <= i < shown.len() implies shown[i] != '\n' by {
        assert(!keep(shown[i]));
    }
    if !markup::is_fence(line) {
        text_laws::lines_end_at_line_feeds(line, Seq::empty());
        let list = lines::lines(line);
        if line.len() == 0 {
            assert(line =~= Seq::<char>::empty());
            assert(mrkdwn::rendered_lines(list, 0, false) =~= Seq::<Seq<char>>::empty());
            assert(!line.contains('`') && !line.contains('<'));
            lemma_split_code(line, line, line);
            lemma_quiet_empty();
            assert(s =~= line);
            reveal_with_fuel(mrkdwn::rendered_parts, 2);
            assert(shown =~= Seq::<char>::empty());
        } else {
            lemma_rendered_lines_start(list);
            assert(mrkdwn::rendered_lines(list, 0, false)[0 - 0] == shown);
            assert(mrkdwn::rendered_lines(list, 0, false) =~= seq![shown]);
        }
    }
}

proof fn lemma_quiet_empty()
    ensures
        mrkdwn::rendered_text(Seq::<char>::empty()) == Seq::<char>::empty(),
{
    lemma_words();
    assert(is_quiet(Seq::<char>::empty()));
    lemma_quiet_text(Seq::<char>::empty());
}

/// An answer is rendered line by line: there are as many lines as before, those of a
/// fenced block and its fences stand where they stood, character for character, and any
/// other is rendered as it is alone.
pub proof fn every_line_is_rendered_in_its_place(s: Seq<char>)
    ensures
        ({
            let source = lines::lines(s);
            let shown = text::split_on(mrkdwn::rendered(s), '\n');
            &&& source.len() == 0 ==> mrkdwn::rendered(s).len() == 0
            &&& source.len() > 0 ==> shown.len() == source.len()
            &&& forall|k: int|
                0 <= k < source.len() && (markup::is_fence(source[k]) || text_laws::is_inside(
                    source,
                    k,
                )) ==> #[trigger] shown[k] == source[k]
            &&& forall|k: int|
                0 <= k < source.len() && !markup::is_fence(source[k]) && !text_laws::is_inside(
                    source,
                    k,
                ) ==> #[trigger] shown[k] == mrkdwn::rendered(source[k])
        }),
{
    reveal_strlit("\n");
    assert("\n"@ =~= seq!['\n']);
    let source = lines::lines(s);
    let list = mrkdwn::rendered_lines(source, 0, false);
    lemma_rendered_lines_start(source);
    assert forall|k: int| 0 <= k < list.len() implies !(#[trigger] list[k]).contains('\n') by {
        text_laws::lines_hold_no_line_feeds(s, k);
        lemma_one_line(source[k]);
        assert(list[k] == list[k - 0]);
    }
    if source.len() > 0 {
        text_laws::joined_parts_are_split_again(list, '\n');
    }
    let shown = text::split_on(mrkdwn::rendered(s), '\n');
    assert forall|k: int|
        0 <= k < source.len() && !markup::is_fence(source[k]) && !text_laws::is_inside(
            source,
            k,
        ) implies #[trigger] shown[k] == mrkdwn::rendered(source[k]) by {
        text_laws::lines_hold_no_line_feeds(s, k);
        lemma_one_line(source[k]);
        assert(list[k] == list[k - 0]);
    }
    assert forall|k: int|
        0 <= k < source.len() && (markup::is_fence(source[k]) || text_laws::is_inside(
            source,
            k,
        )) implies #[trigger] shown[k] == source[k] by {
        assert(list[k] == list[k - 0]);
    }
}

/// A line with a code span is what stands before it rendered, the code as it is between
/// its backticks, and what stands after it rendered. A backtick that nothing closes makes
/// code of the rest of the line.
pub proof fn the_text_around_code_is_kept(a: Seq<char>, code: Seq<char>, b: Seq<char>)
    requires
        !a.contains('`') && !a.contains('\n'),
        !code.contains('`') && !code.contains('\n'),
        !b.contains('\n') && !markup::is_fence(b) && !text_laws::is_heading(b),
        !markup::is_fence(a + seq!['`'] + code + seq!['`'] + b),
    ensures
        mrkdwn::rendered(a + seq!['`'] + code + seq!['`'] + b) == mrkdwn::rendered(a) + seq!['`']
            + code + seq!['`'] + mrkdwn::rendered(b),
        mrkdwn::rendered(a + seq!['`'] + code) == mrkdwn::rendered(a) + seq!['`'] + code + seq![
            '`',
        ],
{
    lemma_words();
    let x = seq!['`'] + code + seq!['`'] + b;
    let y = seq!['`'] + code;
    let line = a + seq!['`'] + code + seq!['`'] + b;
    let short = a + seq!['`'] + code;
    assert(line =~= a + x);
    assert(short =~= a + y);
    lemma_heading_before_code(a, x);
    lemma_heading_before_code(a, y);
    let wa = markup::without_heading(a);
    text::lemma_run_of(a, '#', 0);
    assert(!wa.contains('`')) by {
        assert forall|i: int| 0 <= i < wa.len() implies wa[i] != '`' by {
            assert(wa[i] == a[a.len() - wa.len() + i]);
            assert(a.contains(wa[i]));
        }
    }
    lemma_split_code(wa, code, b);
    assert(wa + x =~= wa + seq!['`'] + code + seq!['`'] + b);
    assert(wa + y =~= wa + seq!['`'] + code);
    let parts = seq![wa, code] + text::split_on(b, '`');
    lemma_parts_shift(parts, 2, 0);
    assert(parts.skip(2) =~= text::split_on(b, '`'));
    text_laws::headings_lose_their_marks(seq!['#'], Seq::empty(), b);
    lemma_unfold(parts);
    lemma_unfold(seq![wa, code]);
    lemma_unfold_one(wa);
    assert(mrkdwn::rendered_parts(seq![wa, code], 2) =~= Seq::<char>::empty());
    lemma_no_break(a, code, b);
    lemma_no_fence(a);
    lemma_no_fence_short(a, code, b);
    lemma_one_line(line);
    lemma_one_line(short);
    lemma_one_line(a);
    lemma_one_line(b);
    assert(mrkdwn::rendered_line(line) =~= mrkdwn::rendered(a) + seq!['`'] + code + seq!['`']
        + mrkdwn::rendered(b));
    assert(mrkdwn::rendered_line(short) =~= mrkdwn::rendered(a) + seq!['`'] + code + seq!['`']);
}

proof fn lemma_unfold(parts: Seq<Seq<char>>)
    requires
        parts.len() >= 2,
    ensures
        mrkdwn::rendered_parts(parts, 0) == mrkdwn::rendered_text(parts[0]) + (seq!['`'] + parts[1]
            + seq!['`'] + mrkdwn::rendered_parts(parts, 2)),
{
    lemma_words();
    assert(mrkdwn::rendered_parts(parts, 1) == "`"@ + parts[1] + "`"@ + mrkdwn::rendered_parts(
        parts,
        2,
    ));
}

proof fn lemma_unfold_one(part: Seq<char>)
    ensures
        mrkdwn::rendered_parts(seq![part], 0) == mrkdwn::rendered_text(part),
{
    assert(mrkdwn::rendered_parts(seq![part], 1) =~= Seq::<char>::empty());
    assert(mrkdwn::rendered_text(part) + Seq::<char>::empty() =~= mrkdwn::rendered_text(part));
}

proof fn lemma_no_break(a: Seq<char>, code: Seq<char>, b: Seq<char>)
    requires
        !a.contains('\n') && !code.contains('\n') && !b.contains('\n'),
    ensures
        !(a + seq!['`'] + code + seq!['`'] + b).contains('\n'),
        !(a + seq!['`'] + code).contains('\n'),
{
    let line = a + seq!['`'] + code + seq!['`'] + b;
    let n = a.len();
    let m = n + 1 + code.len();
    assert forall|i: int| 0 <= i < line.len() implies line[i] != '\n' by {
        if i < n {
            assert(a.contains(line[i]));
        } else if n < i < m {
            assert(line[i] == code[i - n - 1]);
            assert(code.contains(line[i]));
        } else if i > m {
            assert(line[i] == b[i - m - 1]);
            assert(b.contains(line[i]));
        }
    }
    let short = a + seq!['`'] + code;
    assert forall|i: int| 0 <= i < short.len() implies short[i] != '\n' by {
        assert(short[i] == line[i]);
    }
}

proof fn lemma_no_fence(a: Seq<char>)
    requires
        !a.contains('`'),
    ensures
        !markup::is_fence(a),
{
    text_laws::fences_begin_with_three_backticks(a);
    if markup::is_fence(a) {
        let i = choose|i: int|
            0 <= i && i + 3 <= a.len() && #[trigger] a[i] == '`' && a[i + 1] == '`' && a[i + 2]
                == '`' && forall|j: int| 0 <= j < i ==> text::is_white(#[trigger] a[j]);
        assert(a.contains(a[i]));
    }
}

proof fn lemma_no_fence_short(a: Seq<char>, code: Seq<char>, b: Seq<char>)
    requires
        !a.contains('`'),
        !code.contains('`'),
    ensures
        !markup::is_fence(a + seq!['`'] + code),
{
    let s = a + seq!['`'] + code;
    text_laws::fences_begin_with_three_backticks(s);
    if markup::is_fence(s) {
        let i = choose|i: int|
            0 <= i && i + 3 <= s.len() && #[trigger] s[i] == '`' && s[i + 1] == '`' && s[i + 2]
                == '`' && forall|j: int| 0 <= j < i ==> text::is_white(#[trigger] s[j]);
        if i < a.len() {
            assert(a.contains(s[i]));
        } else {
            assert(s[i + 1] == code[i + 1 - a.len() - 1]);
            assert(code.contains(s[i + 1]));
        }
    }
}

/// A line loses nothing but the marks of a heading and of emphasis, and gains nothing but
/// zero-width spaces, backticks and, for an angle bracket, its harmless form.
pub proof fn lines_lose_only_marks(line: Seq<char>, marks: Seq<char>, title: Seq<char>)
    requires
        !line.contains('\n'),
        !markup::is_fence(line),
        !text_laws::is_heading(line),
        !title.contains('\n'),
        marks.len() > 0,
        forall|j: int| 0 <= j < marks.len() ==> #[trigger] marks[j] == '#',
    ensures
        ({
            let keep = |c: char|
                c != '\u{200b}' && c != '*' && c != '_' && c != '`' && c != '<' && c != '&' && c
                    != 'l' && c != 't' && c != ';';
            &&& mrkdwn::rendered(line).filter(keep) == line.filter(keep)
            &&& mrkdwn::rendered(marks + seq![' '] + title).filter(keep) == title.filter(keep)
        }),
        ({
            let keep = |c: char| c != '\u{200b}' && c != '*' && c != '_' && c != '`';
            &&& !line.contains('<') ==> mrkdwn::rendered(line).filter(keep) == line.filter(keep)
            &&& !title.contains('<') ==> mrkdwn::rendered(marks + seq![' '] + title).filter(keep)
                == title.filter(keep)
        }),
{
    let wide = |c: char|
        c != '\u{200b}' && c != '*' && c != '_' && c != '`' && c != '<' && c != '&' && c != 'l' && c
            != 't' && c != ';';
    let keep = |c: char| c != '\u{200b}' && c != '*' && c != '_' && c != '`';
    let heading = marks + seq![' '] + title;
    text_laws::headings_lose_their_marks(marks, title, line);
    lemma_line_kept(line, wide);
    lemma_line_kept(heading, wide);
    if !line.contains('<') {
        lemma_line_kept(line, keep);
    }
    if !title.contains('<') {
        assert(!heading.contains('<')) by {
            assert forall|j: int| 0 <= j < heading.len() implies heading[j] != '<' by {
                if j < marks.len() {
                    assert(heading[j] == marks[j]);
                } else if j > marks.len() {
                    assert(heading[j] == title[j - marks.len() - 1]);
                    assert(title.contains(heading[j]));
                }
            }
        }
        lemma_line_kept(heading, keep);
    }
    lemma_one_line(line);
    assert(!heading.contains('\n')) by {
        assert forall|j: int| 0 <= j < heading.len() implies heading[j] != '\n' by {
            if j < marks.len() {
                assert(heading[j] == marks[j]);
            } else if j > marks.len() {
                assert(heading[j] == title[j - marks.len() - 1]);
                assert(title.contains(heading[j]));
            }
        }
    }
    assert(!markup::is_fence(heading)) by {
        reveal_strlit("```");
        assert(heading[0] == marks[0]);
        assert(text::trimmed_start(heading) == heading);
        if markup::is_fence(heading) {
            assert(heading.take(3)[0] == '`');
        }
    }
    lemma_one_line(heading);
}

/// A line that is no heading, holds nothing that Slack would change or act on, and closes
/// every backtick that it opens, is rendered as itself.
pub proof fn quiet_lines_stay(line: Seq<char>)
    requires
        !line.contains('\n'),
        !markup::is_fence(line),
        !text_laws::is_heading(line),
        is_quiet(line),
        line.filter(|c: char| c == '`').len() % 2 == 0,
    ensures
        mrkdwn::rendered(line) == line,
{
    lemma_one_line(line);
    text_laws::headings_lose_their_marks(seq!['#'], Seq::empty(), line);
    text_laws::parts_joined_are_the_text(line, '`');
    let parts = text::split_on(line, '`');
    lemma_quiet_parts(line, 0);
    lemma_backticks(parts);
    lemma_quiet_rendered(parts, 0);
    assert(parts.skip(0) =~= parts);
}

proof fn lemma_quiet_parts(line: Seq<char>, i: int)
    requires
        is_quiet(line),
        0 <= i <= line.len(),
    ensures
        forall|k: int|
            0 <= k < text::split_from(line, '`', i).len() ==> is_quiet(
                #[trigger] text::split_from(line, '`', i)[k],
            ),
    decreases line.len() - i,
{
    text::lemma_next_at(line, '`', i);
    let end = text::next_at(line, '`', i);
    lemma_quiet_part(line, i, end);
    if end < line.len() {
        lemma_quiet_parts(line, end + 1);
        let all = text::split_from(line, '`', i);
        let rest = text::split_from(line, '`', end + 1);
        assert forall|k: int| 0 <= k < all.len() implies is_quiet(#[trigger] all[k]) by {
            if k > 0 {
                assert(all[k] == rest[k - 1]);
            }
        }
    }
}

/// There is one part more than there are separators.
proof fn lemma_backticks(parts: Seq<Seq<char>>)
    requires
        parts.len() >= 1,
        forall|k: int| 0 <= k < parts.len() ==> !(#[trigger] parts[k]).contains('`'),
    ensures
        text::joined(parts, seq!['`']).filter(|c: char| c == '`').len() == parts.len() - 1,
    decreases parts.len(),
{
    let keep = |c: char| c == '`';
    let last = parts.last();
    assert(!parts[parts.len() - 1].contains('`'));
    assert forall|i: int| 0 <= i < last.len() implies !keep(#[trigger] last[i]) by {
        assert(last.contains(last[i]));
    }
    text_laws::lemma_none_kept(last, keep);
    if parts.len() > 1 {
        let front = parts.drop_last();
        assert forall|k: int| 0 <= k < front.len() implies !(#[trigger] front[k]).contains('`') by {
            assert(front[k] == parts[k]);
        }
        lemma_backticks(front);
        let s = text::joined(front, seq!['`']);
        Seq::filter_distributes_over_add(s + seq!['`'], last, keep);
        Seq::filter_distributes_over_add(s, seq!['`'], keep);
        assert forall|i: int| 0 <= i < seq!['`'].len() implies keep(#[trigger] seq!['`'][i]) by {}
        text_laws::lemma_all_kept(seq!['`'], keep);
    } else {
        assert(parts[0] == last);
    }
}

proof fn lemma_quiet_rendered(parts: Seq<Seq<char>>, k: int)
    requires
        0 <= k <= parts.len(),
        parts.len() % 2 == 1,
        k % 2 == 0,
        forall|j: int| 0 <= j < parts.len() ==> is_quiet(#[trigger] parts[j]),
    ensures
        mrkdwn::rendered_parts(parts, k) == text::joined(parts.skip(k), seq!['`']),
    decreases parts.len() - k,
{
    lemma_words();
    assert(k < parts.len());
    lemma_quiet_text(parts[k]);
    let tail = parts.skip(k + 1);
    assert(parts.skip(k) =~= seq![parts[k]] + tail);
    text::lemma_joined_front(parts[k], tail, seq!['`']);
    if k + 1 < parts.len() {
        let code = parts[k + 1];
        let rest = parts.skip(k + 2);
        lemma_quiet_rendered(parts, k + 2);
        assert(tail =~= seq![code] + rest);
        text::lemma_joined_front(code, rest, seq!['`']);
        assert(mrkdwn::rendered_parts(parts, k + 1) == "`"@ + code + "`"@ + mrkdwn::rendered_parts(
            parts,
            k + 2,
        ));
        assert(mrkdwn::rendered_parts(parts, k) =~= text::joined(parts.skip(k), seq!['`']));
    } else {
        assert(mrkdwn::rendered_parts(parts, k + 1) =~= Seq::<char>::empty());
        assert(parts[k] + Seq::<char>::empty() =~= parts[k]);
    }
}

/// Two stars or two underscores on each side of a text become one star, and the text
/// inside and around them stays.
pub proof fn emphasis_gets_single_stars(a: Seq<char>, b: Seq<char>, c: Seq<char>, mark: char)
    requires
        mark == '*' || mark == '_',
        forall|i: int| 0 <= i < a.len() ==> !is_markup(#[trigger] a[i]),
        forall|i: int| 0 <= i < b.len() ==> !is_markup(#[trigger] b[i]),
        forall|i: int| 0 <= i < c.len() ==> !is_markup(#[trigger] c[i]),
    ensures
        mrkdwn::rendered(a + seq![mark, mark] + b + seq![mark, mark] + c) == a + seq!['*'] + b
            + seq!['*'] + c,
{
    lemma_words();
    let pair = seq![mark, mark];
    let other = if mark == '*' {
        seq!['_', '_']
    } else {
        seq!['*', '*']
    };
    let line = a + pair + b + pair + c;
    let inner = b + pair + c;
    let none = Seq::<char>::empty();
    let done = a + seq!['*'] + b + seq!['*'] + c;
    let n = a.len() as int;
    let m = b.len() as int;
    assert(line =~= a + pair + inner);
    assert forall|i: int| 0 <= i < n implies !text_laws::stands_at(line, pair, i) by {
        assert(line[i] == a[i]);
        if text_laws::stands_at(line, pair, i) {
            assert(line.subrange(i, i + 2)[0] == pair[0]);
        }
    }
    text_laws::the_first_occurrence_is_replaced(a, pair, inner, seq!['*']);
    assert forall|i: int| 0 <= i < m implies !text_laws::stands_at(inner, pair, i) by {
        assert(inner[i] == b[i]);
        if text_laws::stands_at(inner, pair, i) {
            assert(inner.subrange(i, i + 2)[0] == pair[0]);
        }
    }
    text_laws::the_first_occurrence_is_replaced(b, pair, c, seq!['*']);
    assert forall|i: int| 0 <= i < c.len() implies !text_laws::stands_at(c, pair, i) by {
        if text_laws::stands_at(c, pair, i) {
            assert(c.subrange(i, i + 2)[0] == pair[0]);
        }
    }
    text_laws::text_without_the_pattern_stays(c, pair, seq!['*']);
    assert(text::replaced(line, pair, seq!['*']) =~= done);
    // The other pair stands nowhere, before or after.
    assert forall|i: int| 0 <= i < line.len() implies #[trigger] line[i] == mark || !is_markup(
        line[i],
    ) by {
        lemma_pieces(a, pair, b, pair, c, i);
    }
    assert forall|i: int| 0 <= i < done.len() implies #[trigger] done[i] == '*' || !is_markup(
        done[i],
    ) by {
        lemma_pieces(a, seq!['*'], b, seq!['*'], c, i);
    }
    assert forall|i: int| 0 <= i < line.len() implies !text_laws::stands_at(line, other, i) by {
        if text_laws::stands_at(line, other, i) {
            assert(line.subrange(i, i + 2)[0] == other[0]);
            assert(line[i] == other[0]);
        }
    }
    text_laws::text_without_the_pattern_stays(line, other, seq!['*']);
    if mark == '*' {
        assert forall|i: int| 0 <= i < done.len() implies !text_laws::stands_at(done, other, i) by {
            if text_laws::stands_at(done, other, i) {
                assert(done.subrange(i, i + 2)[0] == other[0]);
                assert(done[i] == '_');
            }
        }
        text_laws::text_without_the_pattern_stays(done, other, seq!['*']);
    }
    lemma_nothing_to_tame(done);
    assert(mrkdwn::rendered_text(line) == done);
    assert(!line.contains('`') && !line.contains('\n')) by {
        assert forall|i: int| 0 <= i < line.len() implies line[i] != '`' && line[i] != '\n' by {
            assert(line[i] == mark || !is_markup(line[i]));
        }
    }
    assert(!text_laws::is_heading(line)) by {
        if text_laws::is_heading(line) {
            let k = choose|k: int|
                0 < k < line.len() && #[trigger] line[k] == ' ' && forall|j: int|
                    0 <= j < k ==> line[j] == '#';
            assert(line[0] == '#');
        }
    }
    text_laws::headings_lose_their_marks(seq!['#'], none, line);
    lemma_no_fence(line);
    lemma_one_line(line);
    lemma_split_code(line, none, none);
    lemma_unfold_one(line);
}

/// Characters that are or may begin markup.
pub open spec fn is_markup(c: char) -> bool {
    c == '*' || c == '_' || c == '`' || c == '<' || c == '@' || c == '#' || c == '\n'
}

proof fn lemma_pieces(a: Seq<char>, x: Seq<char>, b: Seq<char>, y: Seq<char>, c: Seq<char>, i: int)
    requires
        0 <= i < (a + x + b + y + c).len(),
        forall|j: int| 0 <= j < a.len() ==> !is_markup(#[trigger] a[j]),
        forall|j: int| 0 <= j < b.len() ==> !is_markup(#[trigger] b[j]),
        forall|j: int| 0 <= j < c.len() ==> !is_markup(#[trigger] c[j]),
        x.len() > 0 && x == y,
        forall|j: int| 0 <= j < x.len() ==> #[trigger] x[j] == x[0],
    ensures
        (a + x + b + y + c)[i] == x[0] || !is_markup((a + x + b + y + c)[i]),
{
    let s = a + x + b + y + c;
    let n = a.len();
    let m = n + x.len();
    let k = m + b.len();
    let l = k + y.len();
    if i < n {
        assert(s[i] == a[i]);
    } else if i < m {
        assert(s[i] == x[i - n]);
    } else if i < k {
        assert(s[i] == b[i - m]);
    } else if i < l {
        assert(s[i] == y[i - k]);
    } else {
        assert(s[i] == c[i - l]);
    }
}

proof fn lemma_nothing_to_tame(s: Seq<char>)
    requires
        forall|i: int| 0 <= i < s.len() ==> #[trigger] s[i] == '*' || !is_markup(s[i]),
    ensures
        mrkdwn::neutralized(s) == s,
{
    lemma_words();
    assert(!s.contains('<')) by {
        assert forall|i: int| 0 <= i < s.len() implies s[i] != '<' by {
            assert(s[i] == '*' || !is_markup(s[i]));
        }
    }
    brackets_are_kept_for_links_alone(s, Seq::empty(), Seq::empty());
    lemma_no_calls(s, "@channel"@);
    lemma_no_calls(s, "@here"@);
    lemma_no_calls(s, "@everyone"@);
    text_laws::text_without_the_pattern_stays(s, "@channel"@, "@\u{200b}channel"@);
    text_laws::text_without_the_pattern_stays(s, "@here"@, "@\u{200b}here"@);
    text_laws::text_without_the_pattern_stays(s, "@everyone"@, "@\u{200b}everyone"@);
}

proof fn lemma_no_calls(s: Seq<char>, word: Seq<char>)
    requires
        forall|i: int| 0 <= i < s.len() ==> #[trigger] s[i] == '*' || !is_markup(s[i]),
        text_laws::is_call(word),
    ensures
        forall|i: int| 0 <= i < s.len() ==> !text_laws::stands_at(s, word, i),
{
    assert forall|i: int| 0 <= i < s.len() implies !text_laws::stands_at(s, word, i) by {
        if text_laws::stands_at(s, word, i) {
            assert(s.subrange(i, i + word.len())[0] == word[0]);
            assert(s[i] == '*' || !is_markup(s[i]));
        }
    }
}

/// No line without code notifies anyone, and no angle bracket in it opens anything but a
/// link, where brackets are not nested.
pub proof fn lines_without_code_are_harmless(line: Seq<char>)
    requires
        !line.contains('\n'),
        !line.contains('`'),
    ensures
        forall|i: int|
            !text_laws::stands_at(mrkdwn::rendered(line), "@channel"@, i) && !text_laws::stands_at(
                mrkdwn::rendered(line),
                "@here"@,
                i,
            ) && !text_laws::stands_at(mrkdwn::rendered(line), "@everyone"@, i),
        (forall|i: int| 0 <= i < line.len() ==> !is_emphasis_or_call(#[trigger] line[i]))
            && !text_laws::is_heading(line) ==> mrkdwn::rendered(line) == mrkdwn::tame_from(line, 0),
{
    lemma_words();
    lemma_no_fence(line);
    lemma_one_line(line);
    let s = markup::without_heading(line);
    text::lemma_run_of(line, '#', 0);
    assert(!s.contains('`')) by {
        assert forall|i: int| 0 <= i < s.len() implies s[i] != '`' by {
            assert(s[i] == line[line.len() - s.len() + i]);
            assert(line.contains(s[i]));
        }
    }
    lemma_split_code(s, Seq::empty(), Seq::empty());
    lemma_unfold_one(s);
    let b = text::replaced(text::replaced(s, "**"@, "*"@), "__"@, "*"@);
    let t = mrkdwn::tame_from(b, 0);
    let u = text::replaced(t, "@channel"@, "@\u{200b}channel"@);
    let v = text::replaced(u, "@here"@, "@\u{200b}here"@);
    text_laws::replaced_calls_are_gone(t, "@channel"@, "@\u{200b}channel"@, "@channel"@);
    text_laws::replaced_calls_are_gone(u, "@here"@, "@\u{200b}here"@, "@channel"@);
    text_laws::replaced_calls_are_gone(u, "@here"@, "@\u{200b}here"@, "@here"@);
    text_laws::replaced_calls_are_gone(v, "@everyone"@, "@\u{200b}everyone"@, "@channel"@);
    text_laws::replaced_calls_are_gone(v, "@everyone"@, "@\u{200b}everyone"@, "@here"@);
    text_laws::replaced_calls_are_gone(v, "@everyone"@, "@\u{200b}everyone"@, "@everyone"@);
    if (forall|i: int| 0 <= i < line.len() ==> !is_emphasis_or_call(#[trigger] line[i]))
        && !text_laws::is_heading(line) {
        text_laws::headings_lose_their_marks(seq!['#'], Seq::empty(), line);
        lemma_absent_first(line, "**"@);
        lemma_absent_first(line, "__"@);
        text_laws::text_without_the_pattern_stays(line, "**"@, "*"@);
        text_laws::text_without_the_pattern_stays(line, "__"@, "*"@);
        lemma_tame_at(line);
        text::lemma_replaced_absent(t, "@channel"@, "@\u{200b}channel"@, 0);
        text::lemma_replaced_absent(t, "@here"@, "@\u{200b}here"@, 0);
        text::lemma_replaced_absent(t, "@everyone"@, "@\u{200b}everyone"@, 0);
        assert(t.skip(0) =~= t);
    }
}

/// Characters that begin emphasis or a word that notifies everyone.
pub open spec fn is_emphasis_or_call(c: char) -> bool {
    c == '*' || c == '_' || c == '@'
}

proof fn lemma_absent_first(s: Seq<char>, pattern: Seq<char>)
    requires
        pattern.len() > 0,
        is_emphasis_or_call(pattern[0]),
        forall|i: int| 0 <= i < s.len() ==> !is_emphasis_or_call(#[trigger] s[i]),
    ensures
        forall|i: int| 0 <= i < s.len() ==> !text_laws::stands_at(s, pattern, i),
{
    assert forall|i: int| 0 <= i < s.len() implies !text_laws::stands_at(s, pattern, i) by {
        if text_laws::stands_at(s, pattern, i) {
            assert(s.subrange(i, i + pattern.len())[0] == pattern[0]);
            assert(!is_emphasis_or_call(s[i]));
        }
    }
}

/// Taming brackets brings up no word that notifies everyone.
proof fn lemma_tame_at(s: Seq<char>)
    requires
        forall|i: int| 0 <= i < s.len() ==> !is_emphasis_or_call(#[trigger] s[i]),
    ensures
        forall|i: int|
            0 <= i < mrkdwn::tame_from(s, 0).len() ==> (#[trigger] mrkdwn::tame_from(s, 0)[i])
                != '@',
{
    let keep = |c: char| c == '@';
    lemma_tame_kept(s, keep, 0);
    assert(s.skip(0) =~= s);
    assert forall|i: int| 0 <= i < s.len() implies !keep(#[trigger] s[i]) by {
        assert(!is_emphasis_or_call(s[i]));
    }
    text_laws::lemma_none_kept(s, keep);
    let t = mrkdwn::tame_from(s, 0);
    text_laws::lemma_none_kept(t, keep);
    assert forall|i: int| 0 <= i < t.len() implies (#[trigger] t[i]) != '@' by {
        assert(!keep(t[i]));
    }
}

} // verus!
