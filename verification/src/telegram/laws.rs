//! What holds of every reply that is rendered and cut into chunks.

use crate::telegram::blocks;
use crate::telegram::markdown;
use crate::telegram::markdown::{ChunkView, ParseMode};
use crate::telegram::source;
use crate::telegram::spans;
use crate::telegram::spans::{Active, Place, Span, Style};
use crate::text;
use vstd::prelude::*;

verus! {

// ---- Escaping and spans -----------------------------------------------------

pub(crate) proof fn lemma_escaped_add(a: Seq<char>, b: Seq<char>, place: Place)
    ensures
        spans::escaped(a + b, place) == spans::escaped(a, place) + spans::escaped(b, place),
    decreases b.len(),
{
    if b.len() == 0 {
        assert(a + b =~= a);
        assert(spans::escaped(a, place) + Seq::<char>::empty() =~= spans::escaped(a, place));
    } else {
        assert((a + b).drop_last() =~= a + b.drop_last());
        lemma_escaped_add(a, b.drop_last(), place);
        assert(spans::escaped(a, place) + spans::escaped(b.drop_last(), place)
            + spans::escaped_char(b.last(), place) =~= spans::escaped(a, place) + (spans::escaped(
            b.drop_last(),
            place,
        ) + spans::escaped_char(b.last(), place)));
    }
}

pub(crate) proof fn lemma_escaped_one(c: char, place: Place)
    ensures
        spans::escaped(seq![c], place) == spans::escaped_char(c, place),
{
    reveal_with_fuel(spans::escaped, 2);
    assert(seq![c].drop_last() =~= Seq::<char>::empty());
    assert(Seq::<char>::empty() + spans::escaped_char(c, place) =~= spans::escaped_char(c, place));
}

proof fn lemma_backslash(c: char, place: Place)
    ensures
        text::utf16_units(spans::escaped_char(c, place)) <= 2 * text::utf16_width(c),
{
    text::lemma_units_one(c);
    text::lemma_units_one('\\');
    text::lemma_units_add(seq!['\\'], seq![c]);
    assert(seq!['\\', c] =~= seq!['\\'] + seq![c]);
}

/// Escaping at most doubles a text.
pub proof fn escaping_at_most_doubles(s: Seq<char>, place: Place)
    ensures
        text::utf16_units(spans::escaped(s, place)) <= 2 * text::utf16_units(s),
    decreases s.len(),
{
    if s.len() > 0 {
        escaping_at_most_doubles(s.drop_last(), place);
        lemma_backslash(s.last(), place);
        text::lemma_units_add(
            spans::escaped(s.drop_last(), place),
            spans::escaped_char(s.last(), place),
        );
    }
}

proof fn lemma_units_skip(s: Seq<char>, i: int, j: int)
    requires
        0 <= i <= j <= s.len(),
    ensures
        text::utf16_units(s.skip(i)) == text::utf16_units(s.subrange(i, j)) + text::utf16_units(
            s.skip(j),
        ),
{
    assert(s.skip(i) =~= s.subrange(i, j) + s.skip(j));
    text::lemma_units_add(s.subrange(i, j), s.skip(j));
}

proof fn lemma_mark_units(style: Style)
    ensures
        text::utf16_units(spans::mark(style)) <= 2 * spans::delimiter_width(style),
        text::utf16_units(spans::mark(style)) <= 2,
{
    text::lemma_units_bounds(spans::mark(style));
    text::lemma_units_one('*');
    text::lemma_units_one('_');
    text::lemma_units_one('~');
    text::lemma_units_one('|');
    text::lemma_units_add(seq!['|'], seq!['|']);
    assert(seq!['|', '|'] =~= seq!['|'] + seq!['|']);
}

proof fn lemma_sum(a: Seq<char>, b: Seq<char>, c: Seq<char>)
    ensures
        text::utf16_units(a + b + c) == text::utf16_units(a) + text::utf16_units(b)
            + text::utf16_units(c),
{
    text::lemma_units_add(a, b);
    text::lemma_units_add(a + b, c);
}

/// A code span is at most doubled.
proof fn lemma_code_doubles(s: Seq<char>, i: int, end: int)
    requires
        0 <= i < end < s.len(),
    ensures
        text::utf16_units(
            seq!['`'] + spans::escaped(s.subrange(i + 1, end), Place::Code) + seq!['`'],
        ) <= 2 * text::utf16_units(s.subrange(i, end + 1)),
{
    let code = s.subrange(i + 1, end);
    escaping_at_most_doubles(code, Place::Code);
    text::lemma_units_one('`');
    lemma_sum(seq!['`'], spans::escaped(code, Place::Code), seq!['`']);
    assert(s.subrange(i, end + 1) =~= s.subrange(i, i + 1) + code + s.subrange(end, end + 1));
    lemma_sum(s.subrange(i, i + 1), code, s.subrange(end, end + 1));
    text::lemma_units_bounds(s.subrange(i, i + 1));
    text::lemma_units_bounds(s.subrange(end, end + 1));
}

/// A link is at most doubled, where its label is.
proof fn lemma_link_doubles(
    s: Seq<char>,
    i: int,
    open: int,
    label_end: int,
    url_end: int,
    shown: Seq<char>,
)
    requires
        0 <= i <= open < label_end,
        label_end + 2 <= url_end < s.len(),
        text::utf16_units(shown) <= 2 * text::utf16_units(s.subrange(open + 1, label_end)),
    ensures
        text::utf16_units(spans::link_text(shown, s.subrange(label_end + 2, url_end))) <= 2
            * text::utf16_units(s.subrange(i, url_end + 1)),
{
    let label = s.subrange(open + 1, label_end);
    let url = s.subrange(label_end + 2, url_end);
    let target = spans::escaped(url, Place::Url);
    escaping_at_most_doubles(url, Place::Url);
    text::lemma_units_one('[');
    text::lemma_units_one(')');
    text::lemma_units_bounds(seq![']', '(']);
    lemma_sum(seq!['['], shown, seq![']', '(']);
    lemma_sum(seq!['['] + shown + seq![']', '('], target, seq![')']);
    let head = s.subrange(i, open + 1);
    let mid = s.subrange(label_end, label_end + 2);
    let last = s.subrange(url_end, url_end + 1);
    assert(s.subrange(i, url_end + 1) =~= head + label + mid + url + last);
    lemma_sum(head, label, mid);
    lemma_sum(head + label + mid, url, last);
    text::lemma_units_bounds(head);
    text::lemma_units_bounds(mid);
    text::lemma_units_bounds(last);
}

/// A span of emphasis is at most doubled, where its inside is.
proof fn lemma_emphasis_doubles(s: Seq<char>, i: int, style: Style, j: int, shown: Seq<char>)
    requires
        0 <= i,
        i + spans::delimiter_width(style) < j,
        j + spans::delimiter_width(style) <= s.len(),
        text::utf16_units(shown) <= 2 * text::utf16_units(
            s.subrange(i + spans::delimiter_width(style), j),
        ),
    ensures
        text::utf16_units(spans::mark(style) + shown + spans::mark(style)) <= 2
            * text::utf16_units(s.subrange(i, j + spans::delimiter_width(style))),
{
    let w = spans::delimiter_width(style);
    let body = s.subrange(i + w, j);
    lemma_mark_units(style);
    lemma_sum(spans::mark(style), shown, spans::mark(style));
    let head = s.subrange(i, i + w);
    let last = s.subrange(j, j + w);
    assert(s.subrange(i, j + w) =~= head + body + last);
    lemma_sum(head, body, last);
    text::lemma_units_bounds(head);
    text::lemma_units_bounds(last);
}

proof fn lemma_inline_doubles(s: Seq<char>, active: Active, i: int)
    requires
        0 <= i <= s.len(),
    ensures
        text::utf16_units(spans::inline_from(s, active, i)) <= 2 * text::utf16_units(s.skip(i)),
    decreases s.len(), s.len() - i,
{
    if i < s.len() {
        spans::lemma_span_at(s, active, i);
        match spans::span_at(s, active, i) {
            Span::Code(end) => {
                let shown = seq!['`'] + spans::escaped(s.subrange(i + 1, end), Place::Code)
                    + seq!['`'];
                lemma_code_doubles(s, i, end);
                lemma_inline_doubles(s, active, end + 1);
                lemma_units_skip(s, i, end + 1);
                text::lemma_units_add(shown, spans::inline_from(s, active, end + 1));
            },
            Span::Link(open, label_end, url_end) => {
                let label = s.subrange(open + 1, label_end);
                let shown = spans::inline_from(label, active, 0);
                let url = s.subrange(label_end + 2, url_end);
                lemma_inline_doubles(label, active, 0);
                assert(label.skip(0) =~= label);
                lemma_link_doubles(s, i, open, label_end, url_end, shown);
                lemma_inline_doubles(s, active, url_end + 1);
                lemma_units_skip(s, i, url_end + 1);
                text::lemma_units_add(
                    spans::link_text(shown, url),
                    spans::inline_from(s, active, url_end + 1),
                );
            },
            Span::Emphasis(style, j) => {
                let w = spans::delimiter_width(style);
                let body = s.subrange(i + w, j);
                let shown = spans::inline_from(body, spans::opened(active, style), 0);
                lemma_inline_doubles(body, spans::opened(active, style), 0);
                assert(body.skip(0) =~= body);
                lemma_emphasis_doubles(s, i, style, j, shown);
                lemma_inline_doubles(s, active, j + w);
                lemma_units_skip(s, i, j + w);
                text::lemma_units_add(
                    spans::mark(style) + shown + spans::mark(style),
                    spans::inline_from(s, active, j + w),
                );
            },
            Span::Literal => {
                lemma_inline_doubles(s, active, i + 1);
                lemma_backslash(s[i], Place::Body);
                text::lemma_units_add(
                    spans::escaped_char(s[i], Place::Body),
                    spans::inline_from(s, active, i + 1),
                );
                lemma_units_skip(s, i, i + 1);
                assert(s.subrange(i, i + 1) =~= seq![s[i]]);
                text::lemma_units_one(s[i]);
            },
        }
    }
}

/// Rendering the inline spans of a line at most doubles it.
pub proof fn rendering_a_line_at_most_doubles(s: Seq<char>)
    ensures
        text::utf16_units(spans::rendered(s)) <= 2 * text::utf16_units(s),
{
    lemma_inline_doubles(s, spans::nothing_active(), 0);
    assert(s.skip(0) =~= s);
}

/// Whether `style` is open.
pub open spec fn is_open(active: Active, style: Style) -> bool {
    match style {
        Style::Bold => active.bold,
        Style::Italic => active.italic,
        Style::Strike => active.strike,
        Style::Spoiler => active.spoiler,
    }
}

/// A span of emphasis never opens inside one of its own kind.
pub proof fn emphasis_never_nests_in_its_own_kind(s: Seq<char>, active: Active, i: int)
    requires
        0 <= i < s.len(),
    ensures
        spans::span_at(s, active, i) matches Span::Emphasis(style, j) ==> !is_open(active, style)
            && is_open(spans::opened(active, style), style),
{
}

/// A character that opens no span of its own.
pub open spec fn opens_nothing(c: char) -> bool {
    c != '`' && c != '[' && c != '*' && c != '_' && c != '~' && c != '|'
}

proof fn lemma_plain_inline(s: Seq<char>, active: Active, i: int)
    requires
        0 <= i <= s.len(),
        forall|k: int| 0 <= k < s.len() ==> opens_nothing(#[trigger] s[k]),
    ensures
        spans::inline_from(s, active, i) == spans::escaped(s.skip(i), Place::Body),
    decreases s.len() - i,
{
    if i < s.len() {
        assert(opens_nothing(s[i]));
        if i + 1 < s.len() {
            assert(opens_nothing(s[i + 1]));
        }
        assert(spans::span_at(s, active, i) is Literal);
        lemma_plain_inline(s, active, i + 1);
        assert(s.skip(i) =~= seq![s[i]] + s.skip(i + 1));
        lemma_escaped_add(seq![s[i]], s.skip(i + 1), Place::Body);
        lemma_escaped_one(s[i], Place::Body);
    } else {
        assert(s.skip(i) =~= Seq::empty());
    }
}

/// Text without markup comes out as it is, only escaped.
pub proof fn plain_text_is_only_escaped(s: Seq<char>)
    requires
        forall|k: int| 0 <= k < s.len() ==> opens_nothing(#[trigger] s[k]),
    ensures
        spans::rendered(s) == spans::escaped(s, Place::Body),
{
    lemma_plain_inline(s, spans::nothing_active(), 0);
    assert(s.skip(0) =~= s);
}

// ---- The size of a message --------------------------------------------------

proof fn lemma_pieces(s: Seq<char>, limit: int)
    requires
        limit >= 2,
    ensures
        forall|k: int|
            0 <= k < source::full_pieces(s, limit).len() ==> text::utf16_units(
                #[trigger] source::full_pieces(s, limit)[k],
            ) <= limit,
        text::utf16_units(source::last_piece(s, limit)) <= limit,
        text::concatenated(source::full_pieces(s, limit)) + source::last_piece(s, limit) == s,
    decreases s.len(),
{
    if text::utf16_units(s) > limit {
        source::lemma_fit_end(s, limit, 0);
        let k = source::fit(s, limit);
        if s.len() == 0 {
            assert(text::utf16_units(s) == 0);
        }
        assert(s.subrange(0, k) =~= s.take(k));
        lemma_pieces(s.skip(k), limit);
        let rest = source::full_pieces(s.skip(k), limit);
        text::lemma_concatenated_add(seq![s.take(k)], rest);
        text::lemma_concatenated_one(s.take(k));
        assert(s =~= s.take(k) + s.skip(k));
        assert(text::concatenated(source::full_pieces(s, limit)) + source::last_piece(s, limit)
            =~= s.take(k) + (text::concatenated(rest) + source::last_piece(s.skip(k), limit)));
    } else {
        assert(Seq::<char>::empty() + s =~= s);
    }
}

proof fn lemma_body_fits(chunks: Seq<Seq<char>>, n: int, i: int)
    requires
        0 <= i < markdown::bodies_before(chunks, n).len(),
    ensures
        text::utf16_units(markdown::bodies_before(chunks, n)[i].text) <= source::BODY_BUDGET,
    decreases n,
{
    let before = markdown::bodies_before(chunks, n - 1);
    if i < before.len() {
        lemma_body_fits(chunks, n - 1, i);
    } else {
        lemma_pieces(chunks[n - 1], source::BODY_BUDGET as int);
    }
}

/// Decimal digits are single code units, and need no backslash.
proof fn lemma_decimal(n: nat)
    ensures
        text::utf16_units(text::decimal(n)) == text::decimal(n).len(),
        spans::escaped(text::decimal(n), Place::Body) == text::decimal(n),
    decreases n,
{
    let last = text::digit_char(n % 10);
    assert(48 <= last as u32 <= 57);
    assert(!spans::is_special(last));
    if n < 10 {
        text::lemma_units_one(last);
        lemma_escaped_one(last, Place::Body);
    } else {
        let front = text::decimal(n / 10);
        lemma_decimal(n / 10);
        assert(text::decimal(n) =~= front + seq![last]);
        text::lemma_units_add(front, seq![last]);
        text::lemma_units_one(last);
        lemma_escaped_add(front, seq![last], Place::Body);
        lemma_escaped_one(last, Place::Body);
    }
}

proof fn lemma_indicator(index: nat, total: nat)
    ensures
        text::utf16_units(markdown::indicator(index, total)) == 3 + text::decimal(index + 1).len()
            + text::decimal(total).len(),
        text::utf16_units(spans::escaped(markdown::indicator(index, total), Place::Body)) == 5
            + text::decimal(index + 1).len() + text::decimal(total).len(),
{
    let a = text::decimal(index + 1);
    let b = text::decimal(total);
    lemma_decimal(index + 1);
    lemma_decimal(total);
    text::lemma_units_one('(');
    text::lemma_units_one('/');
    text::lemma_units_one(')');
    text::lemma_units_one('\\');
    text::lemma_units_add(seq!['('], a);
    text::lemma_units_add(seq!['('] + a, seq!['/']);
    text::lemma_units_add(seq!['('] + a + seq!['/'], b);
    text::lemma_units_add(seq!['('] + a + seq!['/'] + b, seq![')']);
    lemma_escaped_one('(', Place::Body);
    lemma_escaped_one('/', Place::Body);
    lemma_escaped_one(')', Place::Body);
    lemma_escaped_add(seq!['('], a, Place::Body);
    lemma_escaped_add(seq!['('] + a, seq!['/'], Place::Body);
    lemma_escaped_add(seq!['('] + a + seq!['/'], b, Place::Body);
    lemma_escaped_add(seq!['('] + a + seq!['/'] + b, seq![')'], Place::Body);
    let open = seq!['\\', '('];
    let close = seq!['\\', ')'];
    assert(open =~= seq!['\\'] + seq!['(']);
    assert(close =~= seq!['\\'] + seq![')']);
    text::lemma_units_add(seq!['\\'], seq!['(']);
    text::lemma_units_add(seq!['\\'], seq![')']);
    text::lemma_units_add(open, a);
    text::lemma_units_add(open + a, seq!['/']);
    text::lemma_units_add(open + a + seq!['/'], b);
    text::lemma_units_add(open + a + seq!['/'] + b, close);
}

/// Every chunk of a reply fits a Telegram message, as long as its indicator
/// shows at most nine digits.
pub proof fn every_chunk_fits_a_message(reply: Seq<char>, i: int)
    requires
        0 <= i < markdown::rich_chunks(reply).len(),
        markdown::rich_chunks(reply).len() > 1 ==> text::decimal((i + 1) as nat).len()
            + text::decimal(markdown::rich_chunks(reply).len()).len() <= 9,
    ensures
        text::utf16_units(markdown::rich_chunks(reply)[i].text) <= source::TELEGRAM_MAX_UTF16,
{
    let bodies = markdown::all_bodies(reply);
    let chunks = source::source_chunks(reply);
    lemma_body_fits(chunks, chunks.len() as int, i);
    let body = bodies[i].text;
    let total = bodies.len();
    if total > 1 {
        lemma_indicator(i as nat, total);
        text::lemma_units_bounds(seq!['\n', '\n']);
        text::lemma_units_add(body, seq!['\n', '\n']);
        text::lemma_units_add(
            body + seq!['\n', '\n'],
            spans::escaped(markdown::indicator(i as nat, total), Place::Body),
        );
        text::lemma_units_add(body + seq!['\n', '\n'], markdown::indicator(i as nat, total));
        text::lemma_units_one('\n');
        text::lemma_units_add(seq!['\n'], seq!['\n']);
        assert(seq!['\n', '\n'] =~= seq!['\n'] + seq!['\n']);
    }
}

/// A reply that is rendered into a single chunk carries no indicator.
pub proof fn a_single_chunk_has_no_indicator(reply: Seq<char>)
    requires
        markdown::all_bodies(reply).len() == 1,
    ensures
        markdown::rich_chunks(reply).len() == 1,
        markdown::rich_chunks(reply)[0].text == markdown::all_bodies(reply)[0].text,
{
}

// ---- Nothing is lost --------------------------------------------------------

/// The sources of chunks.
pub open spec fn sources(chunks: Seq<ChunkView>) -> Seq<Seq<char>> {
    Seq::new(chunks.len(), |i: int| chunks[i].source)
}

/// The sources of bodies.
spec fn body_sources(bodies: Seq<markdown::Body>) -> Seq<Seq<char>> {
    Seq::new(bodies.len(), |i: int| bodies[i].source)
}

proof fn lemma_body_sources(chunks: Seq<Seq<char>>, n: int)
    requires
        0 <= n <= chunks.len(),
    ensures
        text::concatenated(body_sources(markdown::bodies_before(chunks, n))) == text::concatenated(
            chunks.take(n),
        ),
    decreases n,
{
    if n > 0 {
        lemma_body_sources(chunks, n - 1);
        let chunk = chunks[n - 1];
        let before = markdown::bodies_before(chunks, n - 1);
        let bodies = markdown::bodies_of(chunk);
        assert(body_sources(before + bodies) =~= body_sources(before) + body_sources(bodies));
        text::lemma_concatenated_add(body_sources(before), body_sources(bodies));
        assert(chunks.take(n).drop_last() =~= chunks.take(n - 1));
        if text::utf16_units(blocks::markdown_v2(chunk)) <= source::BODY_BUDGET {
            assert(body_sources(bodies) =~= seq![chunk]);
            text::lemma_concatenated_one(chunk);
        } else {
            let full = source::full_pieces(chunk, source::BODY_BUDGET as int);
            let last = source::last_piece(chunk, source::BODY_BUDGET as int);
            assert(body_sources(bodies) =~= full + source::flushed(last));
            text::lemma_concatenated_add(full, source::flushed(last));
            lemma_pieces(chunk, source::BODY_BUDGET as int);
            if last.len() > 0 {
                text::lemma_concatenated_one(last);
            } else {
                assert(text::concatenated(full) + last =~= text::concatenated(full));
                assert(text::concatenated(full) + Seq::<char>::empty() =~= text::concatenated(
                    full,
                ));
            }
        }
    } else {
        assert(body_sources(markdown::bodies_before(chunks, n)) =~= Seq::empty());
        assert(chunks.take(0) =~= Seq::empty());
    }
}

/// Without line breaks, `current + rest` lies within the concatenation of `chunks`.
spec fn carries(chunks: Seq<Seq<char>>, current: Seq<char>, rest: Seq<char>) -> bool {
    text::within(text::unbroken(current) + rest, text::unbroken(text::concatenated(chunks)))
}

proof fn lemma_carries_prepend(
    front: Seq<Seq<char>>,
    shown: Seq<char>,
    chunks: Seq<Seq<char>>,
    current: Seq<char>,
    rest: Seq<char>,
)
    requires
        text::within(shown, text::unbroken(text::concatenated(front))),
        carries(chunks, current, rest),
    ensures
        text::within(
            shown + (text::unbroken(current) + rest),
            text::unbroken(text::concatenated(front + chunks)),
        ),
{
    text::lemma_concatenated_add(front, chunks);
    text::lemma_unbroken_add(text::concatenated(front), text::concatenated(chunks));
    text::lemma_within_add(
        shown,
        text::unbroken(text::concatenated(front)),
        text::unbroken(current) + rest,
        text::unbroken(text::concatenated(chunks)),
    );
}

proof fn lemma_one_chunk(chunk: Seq<char>)
    ensures
        text::concatenated(seq![chunk]) == chunk,
        text::within(text::unbroken(chunk), text::unbroken(text::concatenated(seq![chunk]))),
{
    text::lemma_concatenated_one(chunk);
    text::lemma_within_refl(text::unbroken(chunk));
}

/// The rows from `i` on, one after the other, without line breaks.
spec fn rest_of(lines: Seq<Seq<char>>, i: int) -> Seq<char> {
    text::unbroken(text::concatenated(lines.skip(i)))
}

proof fn lemma_rest_of(lines: Seq<Seq<char>>, i: int, j: int)
    requires
        0 <= i <= j <= lines.len(),
    ensures
        rest_of(lines, i) == text::unbroken(text::concatenated(lines.subrange(i, j))) + rest_of(
            lines,
            j,
        ),
{
    assert(lines.skip(i) =~= lines.subrange(i, j) + lines.skip(j));
    text::lemma_concatenated_add(lines.subrange(i, j), lines.skip(j));
    text::lemma_unbroken_add(
        text::concatenated(lines.subrange(i, j)),
        text::concatenated(lines.skip(j)),
    );
}

proof fn lemma_rest_step(lines: Seq<Seq<char>>, i: int)
    requires
        0 <= i < lines.len(),
    ensures
        rest_of(lines, i) == text::unbroken(lines[i]) + rest_of(lines, i + 1),
{
    lemma_rest_of(lines, i, i + 1);
    assert(lines.subrange(i, i + 1) =~= seq![lines[i]]);
    text::lemma_concatenated_one(lines[i]);
}

proof fn lemma_with_break(current: Seq<char>, line: Seq<char>)
    ensures
        text::unbroken(current + seq!['\n'] + line) == text::unbroken(current) + text::unbroken(
            line,
        ),
{
    text::lemma_unbroken_add(current + seq!['\n'], line);
    text::lemma_unbroken_add(current, seq!['\n']);
    text::lemma_unbroken_break();
    assert(text::unbroken(current) + Seq::<char>::empty() =~= text::unbroken(current));
}

proof fn lemma_with_line(current: Seq<char>, line: Seq<char>)
    ensures
        text::unbroken(source::with_line(current, line)) == text::unbroken(current)
            + text::unbroken(line),
{
    if current.len() == 0 {
        assert(text::unbroken(current) + text::unbroken(line) =~= text::unbroken(line));
    } else {
        lemma_with_break(current, line);
    }
}

proof fn lemma_table_parts(prefix: Seq<char>, rows: Seq<Seq<char>>, i: int, current: Seq<char>)
    requires
        0 <= i <= rows.len(),
    ensures
        carries(source::table_parts(prefix, rows, i, current), current, rest_of(rows, i)),
    decreases rows.len() - i,
{
    if i >= rows.len() {
        assert(rows.skip(i) =~= Seq::empty());
        assert(text::unbroken(current) + rest_of(rows, i) =~= text::unbroken(current));
        lemma_one_chunk(current);
    } else {
        let row = rows[i];
        lemma_rest_step(rows, i);
        if current.len() > prefix.len() && text::utf16_units(current) + 1 + text::utf16_units(row)
            > source::SOURCE_BUDGET {
            let next = prefix + seq!['\n'] + row;
            let parts = source::table_parts(prefix, rows, i + 1, next);
            lemma_table_parts(prefix, rows, i + 1, next);
            lemma_with_break(prefix, row);
            let tail = text::unbroken(row) + rest_of(rows, i + 1);
            text::lemma_within_refl(tail);
            text::lemma_within_add(
                Seq::empty(),
                text::unbroken(prefix),
                tail,
                tail,
            );
            assert(Seq::<char>::empty() + tail =~= tail);
            assert(text::unbroken(prefix) + tail =~= text::unbroken(next) + rest_of(rows, i + 1));
            text::lemma_within_trans(
                tail,
                text::unbroken(prefix) + tail,
                text::unbroken(text::concatenated(parts)),
            );
            lemma_one_chunk(current);
            text::lemma_concatenated_add(seq![current], parts);
            text::lemma_unbroken_add(current, text::concatenated(parts));
            text::lemma_within_refl(text::unbroken(current));
            text::lemma_within_add(
                text::unbroken(current),
                text::unbroken(current),
                tail,
                text::unbroken(text::concatenated(parts)),
            );
        } else {
            let next = current + seq!['\n'] + row;
            lemma_table_parts(prefix, rows, i + 1, next);
            lemma_with_break(current, row);
            assert(text::unbroken(next) + rest_of(rows, i + 1) =~= text::unbroken(current) + (
            text::unbroken(row) + rest_of(rows, i + 1)));
        }
    }
}

proof fn lemma_chunks_carry(
    lines: Seq<Seq<char>>,
    i: int,
    current: Seq<char>,
    open: Option<char>,
)
    requires
        0 <= i <= lines.len(),
    ensures
        carries(source::chunks_from(lines, i, current, open), current, rest_of(lines, i)),
    decreases lines.len() - i,
{
    if i >= lines.len() {
        assert(lines.skip(i) =~= Seq::empty());
        assert(text::unbroken(current) + rest_of(lines, i) =~= text::unbroken(current));
        if current.len() > 0 {
            lemma_one_chunk(current);
        }
    } else if open is None && blocks::table_starts(lines, i) {
        blocks::lemma_table_end(lines, i + 2);
        let end = blocks::table_end(lines, i + 2);
        let rows = lines.subrange(i + 2, end);
        let prefix = source::table_prefix(lines[i], lines[i + 1]);
        let pieces = source::table_pieces(lines[i], lines[i + 1], rows);
        let rest = source::chunks_from(lines, end, Seq::empty(), None);
        lemma_chunks_carry(lines, end, Seq::empty(), None);
        lemma_table_parts(prefix, rows, 0, prefix);
        lemma_with_break(lines[i], lines[i + 1]);
        assert(rows.skip(0) =~= rows);
        let table = text::unbroken(prefix) + rest_of(rows, 0);
        lemma_carries_prepend(pieces, table, rest, Seq::empty(), rest_of(lines, end));
        assert(text::unbroken(Seq::<char>::empty()) + rest_of(lines, end) =~= rest_of(lines, end));
        lemma_rest_step(lines, i);
        lemma_rest_step(lines, i + 1);
        lemma_rest_of(lines, i + 2, end);
        let tail = rest_of(lines, i);
        assert(tail =~= table + rest_of(lines, end));
        let front = source::flushed(current);
        if current.len() > 0 {
            lemma_one_chunk(current);
        } else {
            assert(text::within(text::unbroken(current), text::unbroken(text::concatenated(front))));
        }
        text::lemma_concatenated_add(front, pieces + rest);
        text::lemma_unbroken_add(text::concatenated(front), text::concatenated(pieces + rest));
        text::lemma_within_add(
            text::unbroken(current),
            text::unbroken(text::concatenated(front)),
            tail,
            text::unbroken(text::concatenated(pieces + rest)),
        );
        assert(front + pieces + rest =~= front + (pieces + rest));
    } else {
        let line = lines[i];
        let budget = source::SOURCE_BUDGET as int;
        let next = source::grown(current, open, line);
        let kept = source::kept_before(current, open, line);
        let closed = source::closed_before(current, open, line);
        let full = source::full_pieces(next, budget);
        let last = source::last_piece(next, budget);
        let after = source::fence_after(open, line);
        let rest = source::chunks_from(lines, i + 1, last, after);
        lemma_chunks_carry(lines, i + 1, last, after);
        lemma_pieces(next, budget);
        text::lemma_unbroken_add(text::concatenated(full), last);
        text::lemma_within_refl(text::unbroken(text::concatenated(full)));
        let tail = rest_of(lines, i + 1);
        lemma_carries_prepend(full, text::unbroken(text::concatenated(full)), rest, last, tail);
        assert(text::unbroken(text::concatenated(full)) + (text::unbroken(last) + tail)
            =~= text::unbroken(next) + tail);
        lemma_with_line(kept, line);
        lemma_rest_step(lines, i);
        let wanted = text::unbroken(line) + tail;
        assert(text::unbroken(next) + tail =~= text::unbroken(kept) + wanted);
        let there = text::unbroken(text::concatenated(full + rest));
        text::lemma_concatenated_add(closed, full + rest);
        text::lemma_unbroken_add(text::concatenated(closed), text::concatenated(full + rest));
        assert(closed + full + rest =~= closed + (full + rest));
        if source::overflows(current, line) {
            text::lemma_within_refl(wanted);
            text::lemma_within_add(Seq::empty(), text::unbroken(kept), wanted, wanted);
            assert(Seq::<char>::empty() + wanted =~= wanted);
            text::lemma_within_trans(wanted, text::unbroken(kept) + wanted, there);
            lemma_one_chunk(closed[0]);
            assert(closed =~= seq![closed[0]]);
            match open {
                None => {},
                Some(f) => {
                    lemma_with_line(current, source::fence_line(f));
                    text::lemma_within_refl(text::unbroken(current));
                    text::lemma_within_extend(
                        text::unbroken(current),
                        text::unbroken(current),
                        text::unbroken(source::fence_line(f)),
                    );
                },
            }
            text::lemma_within_add(
                text::unbroken(current),
                text::unbroken(text::concatenated(closed)),
                wanted,
                there,
            );
        } else {
            assert(text::unbroken(text::concatenated(closed)) + there =~= there);
        }
    }
}

/// The source chunks hold the whole reply: leaving line breaks aside, every
/// character of the reply is in them, in order.
pub proof fn source_chunks_lose_nothing(reply: Seq<char>)
    ensures
        text::within(
            text::unbroken(reply),
            text::unbroken(text::concatenated(source::source_chunks(reply))),
        ),
{
    let lines = text::split_on(reply, '\n');
    text::lemma_lines_from(reply, 0);
    assert(reply.subrange(0, reply.len() as int) =~= reply);
    lemma_chunks_carry(lines, 0, Seq::empty(), None);
    assert(lines.skip(0) =~= lines);
    let all = text::concatenated(lines);
    assert(text::unbroken(Seq::<char>::empty()) + text::unbroken(all) =~= text::unbroken(all));
    lemma_unbroken_twice(reply);
    let chunks = source::chunks_from(lines, 0, Seq::empty(), None);
    if chunks.len() == 0 {
        assert(text::concatenated(chunks) =~= Seq::empty());
        lemma_one_chunk(Seq::empty());
    }
}

proof fn lemma_unbroken_twice(s: Seq<char>)
    ensures
        text::unbroken(text::unbroken(s)) == text::unbroken(s),
    decreases s.len(),
{
    if s.len() > 0 {
        lemma_unbroken_twice(s.drop_last());
        if s.last() != '\n' {
            assert(text::unbroken(s).drop_last() =~= text::unbroken(s.drop_last()));
        }
    }
}

/// No message is lost: leaving line breaks aside, every character of the reply
/// is in the sources of its chunks, in order. A chunk whose markup is refused can
/// therefore be sent from its source without loss.
pub proof fn no_message_is_lost(reply: Seq<char>)
    ensures
        text::within(
            text::unbroken(reply),
            text::unbroken(text::concatenated(sources(markdown::rich_chunks(reply)))),
        ),
        text::within(
            text::unbroken(reply),
            text::unbroken(text::concatenated(sources(markdown::plain_text_chunks(reply)))),
        ),
{
    source_chunks_lose_nothing(reply);
    let chunks = source::source_chunks(reply);
    lemma_body_sources(chunks, chunks.len() as int);
    assert(chunks.take(chunks.len() as int) =~= chunks);
    assert(sources(markdown::rich_chunks(reply)) =~= body_sources(markdown::all_bodies(reply)));
    assert(sources(markdown::plain_text_chunks(reply)) =~= chunks);
}

/// A plain chunk shows its source, and after it nothing but the indicator.
pub proof fn plain_chunks_show_their_source(reply: Seq<char>, i: int)
    requires
        0 <= i < markdown::rich_chunks(reply).len(),
        markdown::rich_chunks(reply)[i].parse_mode == ParseMode::Plain,
    ensures
        markdown::rich_chunks(reply)[i].text == markdown::labelled(
            markdown::rich_chunks(reply)[i].source,
            ParseMode::Plain,
            i as nat,
            markdown::rich_chunks(reply).len(),
        ),
{
    let chunks = source::source_chunks(reply);
    lemma_plain_body(chunks, chunks.len() as int, i);
}

proof fn lemma_plain_body(chunks: Seq<Seq<char>>, n: int, i: int)
    requires
        0 <= i < markdown::bodies_before(chunks, n).len(),
    ensures
        markdown::bodies_before(chunks, n)[i].mode == ParseMode::Plain
            ==> markdown::bodies_before(chunks, n)[i].text == markdown::bodies_before(
            chunks,
            n,
        )[i].source,
    decreases n,
{
    if i < markdown::bodies_before(chunks, n - 1).len() {
        lemma_plain_body(chunks, n - 1, i);
    }
}

// ---- Tables -----------------------------------------------------------------

proof fn lemma_parts_begin(
    prefix: Seq<char>,
    rows: Seq<Seq<char>>,
    i: int,
    current: Seq<char>,
    k: int,
)
    requires
        0 <= i <= rows.len(),
        text::begins_with(current, prefix),
        0 <= k < source::table_parts(prefix, rows, i, current).len(),
    ensures
        text::begins_with(source::table_parts(prefix, rows, i, current)[k], prefix),
    decreases rows.len() - i,
{
    if i < rows.len() {
        let row = rows[i];
        assert((prefix + seq!['\n'] + row).take(prefix.len() as int) =~= prefix);
        assert((current + seq!['\n'] + row).take(prefix.len() as int) =~= current.take(
            prefix.len() as int,
        ));
        if current.len() > prefix.len() && text::utf16_units(current) + 1 + text::utf16_units(row)
            > source::SOURCE_BUDGET {
            if k > 0 {
                lemma_parts_begin(prefix, rows, i + 1, prefix + seq!['\n'] + row, k - 1);
            }
        } else {
            lemma_parts_begin(prefix, rows, i + 1, current + seq!['\n'] + row, k);
        }
    }
}

/// Every part of a table begins with the header and the delimiter row.
pub proof fn every_part_of_a_table_has_its_header(
    header: Seq<char>,
    delimiter: Seq<char>,
    rows: Seq<Seq<char>>,
    k: int,
)
    requires
        0 <= k < source::table_pieces(header, delimiter, rows).len(),
    ensures
        text::begins_with(
            source::table_pieces(header, delimiter, rows)[k],
            source::table_prefix(header, delimiter),
        ),
{
    let prefix = source::table_prefix(header, delimiter);
    assert(prefix.take(prefix.len() as int) =~= prefix);
    lemma_parts_begin(prefix, rows, 0, prefix, k);
}

} // verus!
