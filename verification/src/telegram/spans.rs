//! Inline markdown spans in Telegram's MarkdownV2 dialect.
//!
//! Within one line, code, links, images, bold, strikethrough, spoilers and
//! italics become MarkdownV2 entities; everything else is escaped.

use crate::text;
use vstd::prelude::*;
use vstd::slice::slice_subrange;

verus! {

// ---- Escaping ---------------------------------------------------------------

/// The three places in which MarkdownV2 escapes different characters.
#[derive(Clone, Copy)]
pub enum Place {
    /// Ordinary text.
    Body,
    /// Inside a code span or a code block.
    Code,
    /// Inside the target of a link.
    Url,
}

/// The characters that MarkdownV2 treats as markup in ordinary text.
pub open spec fn is_special(c: char) -> bool {
    ||| c == '_'
    ||| c == '*'
    ||| c == '['
    ||| c == ']'
    ||| c == '('
    ||| c == ')'
    ||| c == '~'
    ||| c == '`'
    ||| c == '>'
    ||| c == '#'
    ||| c == '+'
    ||| c == '-'
    ||| c == '='
    ||| c == '|'
    ||| c == '{'
    ||| c == '}'
    ||| c == '.'
    ||| c == '!'
    ||| c == '\\'
}

/// The characters that need a backslash in front of them.
pub open spec fn special_in(place: Place, c: char) -> bool {
    match place {
        Place::Body => is_special(c),
        Place::Code => c == '`' || c == '\\',
        Place::Url => c == ')' || c == '\\',
    }
}

/// One character, with a backslash in front where the place asks for it.
pub open spec fn escaped_char(c: char, place: Place) -> Seq<char> {
    if special_in(place, c) {
        seq!['\\', c]
    } else {
        seq![c]
    }
}

/// `s` with a backslash in front of every character that needs one.
pub open spec fn escaped(s: Seq<char>, place: Place) -> Seq<char>
    decreases s.len(),
{
    if s.len() == 0 {
        Seq::empty()
    } else {
        escaped(s.drop_last(), place) + escaped_char(s.last(), place)
    }
}

/// Whether `c` needs a backslash in `place`.
pub fn needs_escape(place: Place, c: char) -> (b: bool)
    ensures
        b == special_in(place, c),
{
    match place {
        Place::Body => c == '_' || c == '*' || c == '[' || c == ']' || c == '(' || c == ')' || c
            == '~' || c == '`' || c == '>' || c == '#' || c == '+' || c == '-' || c == '=' || c
            == '|' || c == '{' || c == '}' || c == '.' || c == '!' || c == '\\',
        Place::Code => c == '`' || c == '\\',
        Place::Url => c == ')' || c == '\\',
    }
}

/// Appends `c`, escaped for `place`, to `out`.
fn push_escaped_char(out: &mut Vec<char>, c: char, place: Place)
    ensures
        final(out)@ == old(out)@ + escaped_char(c, place),
{
    if needs_escape(place, c) {
        out.push('\\');
    }
    out.push(c);
    assert(out@ =~= old(out)@ + escaped_char(c, place));
}

/// Appends `s`, escaped for `place`, to `out`.
pub fn push_escaped(out: &mut Vec<char>, s: &[char], place: Place)
    ensures
        final(out)@ == old(out)@ + escaped(s@, place),
{
    let mut i: usize = 0;
    assert(s@.take(0) =~= Seq::empty());
    while i < s.len()
        invariant
            i <= s@.len(),
            out@ =~= old(out)@ + escaped(s@.take(i as int), place),
        decreases s@.len() - i,
    {
        push_escaped_char(out, s[i], place);
        assert(s@.take(i + 1).drop_last() =~= s@.take(i as int));
        i = i + 1;
    }
    assert(s@.take(s@.len() as int) =~= s@);
}

// ---- Spans ------------------------------------------------------------------

/// The kinds of emphasis that can be open at a point of the text.
#[derive(Clone, Copy)]
pub struct Active {
    pub bold: bool,
    pub italic: bool,
    pub strike: bool,
    pub spoiler: bool,
}

/// One kind of emphasis.
#[derive(Clone, Copy)]
pub enum Style {
    Bold,
    Italic,
    Strike,
    Spoiler,
}

/// No emphasis is open.
pub open spec fn nothing_active() -> Active {
    Active { bold: false, italic: false, strike: false, spoiler: false }
}

/// `active` with `style` open as well.
pub open spec fn opened(active: Active, style: Style) -> Active {
    match style {
        Style::Bold => Active { bold: true, ..active },
        Style::Italic => Active { italic: true, ..active },
        Style::Strike => Active { strike: true, ..active },
        Style::Spoiler => Active { spoiler: true, ..active },
    }
}

/// How many delimiter characters stand on each side of the source span.
pub open spec fn delimiter_width(style: Style) -> int {
    match style {
        Style::Italic => 1,
        _ => 2,
    }
}

/// The MarkdownV2 mark on each side of the rendered span.
pub open spec fn mark(style: Style) -> Seq<char> {
    match style {
        Style::Bold => seq!['*'],
        Style::Italic => seq!['_'],
        Style::Strike => seq!['~'],
        Style::Spoiler => seq!['|', '|'],
    }
}

/// `char::is_alphanumeric`: whether a character is alphabetic or numeric in Unicode.
pub uninterp spec fn unicode_alphanumeric(c: char) -> bool;

/// `char::is_alphanumeric` depends on the character alone, and holds of the letters and
/// digits of ASCII.
#[verifier::external_body]
fn is_alphanumeric(c: char) -> (b: bool)
    ensures
        b == unicode_alphanumeric(c),
        text::is_ascii_alnum(c) ==> b,
{
    c.is_alphanumeric()
}

/// Whether the character at `i` stands between two alphanumeric characters.
pub open spec fn intraword(s: Seq<char>, i: int) -> bool {
    0 < i < s.len() - 1 && unicode_alphanumeric(s[i - 1]) && unicode_alphanumeric(s[i + 1])
}

/// Whether `c` stands at `i` and again right after.
pub open spec fn doubled(s: Seq<char>, c: char, i: int) -> bool {
    0 <= i < s.len() - 1 && s[i] == c && s[i + 1] == c
}

/// The first index from `j` on at which `c` is doubled, or the length of `s`.
pub open spec fn double_close(s: Seq<char>, c: char, j: int) -> int
    decreases s.len() - j,
{
    if j >= s.len() {
        s.len() as int
    } else if doubled(s, c, j) {
        j
    } else {
        double_close(s, c, j + 1)
    }
}

/// The first run of `c` from `j` on that is one character long: its index, or the
/// length of `s`. Longer runs belong to other spans and are passed over whole.
pub open spec fn single_close(s: Seq<char>, c: char, j: int) -> int
    decreases s.len() - j,
{
    if j < 0 || j >= s.len() {
        s.len() as int
    } else if s[j] != c {
        single_close(s, c, j + 1)
    } else if text::run_of(s, c, j) <= 1 {
        j
    } else {
        proof {
            text::lemma_run_of(s, c, j);
        }
        single_close(s, c, j + text::run_of(s, c, j))
    }
}

/// Where the span that `c` opens at `i` closes, if it does and is not empty.
pub open spec fn span_close(s: Seq<char>, i: int, c: char, style: Style) -> Option<int> {
    let start = i + delimiter_width(style);
    let j = match style {
        Style::Italic => single_close(s, c, start),
        _ => double_close(s, c, start),
    };
    if start < j < s.len() {
        Some(j)
    } else {
        None
    }
}

/// The index of the `)` that closes a link target, with `depth` inner
/// parentheses open at `j`; the length of `s` where there is none.
pub open spec fn paren_close(s: Seq<char>, j: int, depth: nat) -> int
    decreases s.len() - j,
{
    if j >= s.len() {
        s.len() as int
    } else if s[j] == '(' {
        paren_close(s, j + 1, depth + 1)
    } else if s[j] == ')' {
        if depth == 0 {
            j
        } else {
            paren_close(s, j + 1, (depth - 1) as nat)
        }
    } else {
        paren_close(s, j + 1, depth)
    }
}

/// A link `[label](url)` whose `[` stands at `i`: the indices of its `]` and of
/// its closing `)`.
pub open spec fn link_at(s: Seq<char>, i: int) -> Option<(int, int)> {
    let label_end = text::next_at(s, ']', i + 1);
    if label_end + 1 < s.len() && s[label_end + 1] == '(' {
        let url_end = paren_close(s, label_end + 2, 0);
        if url_end < s.len() {
            Some((label_end, url_end))
        } else {
            None
        }
    } else {
        None
    }
}

/// What begins at a point of the text.
pub enum Span<I> {
    /// A code span, with the index of its closing backtick.
    Code(I),
    /// A link or an image: the indices of its `[`, its `]` and its last `)`.
    Link(I, I, I),
    /// A span of emphasis, with the index of its closing delimiter.
    Emphasis(Style, I),
    /// A single character that opens nothing.
    Literal,
}

/// The kind of emphasis that the character at `i` may open.
pub open spec fn style_at(s: Seq<char>, active: Active, i: int) -> Option<Style> {
    let c = s[i];
    if (c == '*' || c == '_') && doubled(s, c, i) && !active.bold {
        Some(Style::Bold)
    } else if c == '~' && doubled(s, c, i) && !active.strike {
        Some(Style::Strike)
    } else if c == '|' && doubled(s, c, i) && !active.spoiler {
        Some(Style::Spoiler)
    } else if (c == '*' || c == '_') && !active.italic && !(c == '_' && intraword(s, i)) {
        Some(Style::Italic)
    } else {
        None
    }
}

/// What begins at index `i`.
pub open spec fn span_at(s: Seq<char>, active: Active, i: int) -> Span<int> {
    let c = s[i];
    if c == '`' {
        let end = text::next_at(s, '`', i + 1);
        if end < s.len() {
            Span::Code(end)
        } else {
            Span::Literal
        }
    } else if c == '[' || (c == '!' && i + 1 < s.len() && s[i + 1] == '[') {
        let open = if c == '[' {
            i
        } else {
            i + 1
        };
        match link_at(s, open) {
            Some((label_end, url_end)) => Span::Link(open, label_end, url_end),
            None => Span::Literal,
        }
    } else {
        match style_at(s, active, i) {
            Some(style) => match span_close(s, i, c, style) {
                Some(j) => Span::Emphasis(style, j),
                None => Span::Literal,
            },
            None => Span::Literal,
        }
    }
}

proof fn lemma_double_close(s: Seq<char>, c: char, j: int)
    requires
        0 <= j,
    ensures
        double_close(s, c, j) < s.len() ==> j <= double_close(s, c, j) < s.len() - 1,
    decreases s.len() - j,
{
    if j < s.len() && !doubled(s, c, j) {
        lemma_double_close(s, c, j + 1);
    }
}

proof fn lemma_single_close(s: Seq<char>, c: char, j: int)
    requires
        0 <= j,
    ensures
        j <= s.len() ==> j <= single_close(s, c, j) <= s.len(),
    decreases s.len() - j,
{
    if j < s.len() {
        if s[j] != c {
            lemma_single_close(s, c, j + 1);
        } else if text::run_of(s, c, j) > 1 {
            text::lemma_run_of(s, c, j);
            lemma_single_close(s, c, j + text::run_of(s, c, j));
        }
    }
}

proof fn lemma_paren_close(s: Seq<char>, j: int, depth: nat)
    requires
        0 <= j <= s.len(),
    ensures
        j <= paren_close(s, j, depth) <= s.len(),
    decreases s.len() - j,
{
    if j < s.len() {
        if s[j] == '(' {
            lemma_paren_close(s, j + 1, depth + 1);
        } else if s[j] == ')' {
            if depth > 0 {
                lemma_paren_close(s, j + 1, (depth - 1) as nat);
            }
        } else {
            lemma_paren_close(s, j + 1, depth);
        }
    }
}

/// A span lies inside the text, after its opening.
pub proof fn lemma_span_at(s: Seq<char>, active: Active, i: int)
    requires
        0 <= i < s.len(),
    ensures
        match span_at(s, active, i) {
            Span::Code(end) => i < end < s.len(),
            Span::Link(open, label_end, url_end) => i <= open < label_end && label_end + 2
                <= url_end < s.len(),
            Span::Emphasis(style, j) => i + delimiter_width(style) < j && j + delimiter_width(style)
                <= s.len(),
            Span::Literal => true,
        },
{
    let c = s[i];
    if c == '`' {
        text::lemma_next_at(s, '`', i + 1);
    } else if c == '[' || (c == '!' && i + 1 < s.len() && s[i + 1] == '[') {
        let open = if c == '[' {
            i
        } else {
            i + 1
        };
        text::lemma_next_at(s, ']', open + 1);
        let label_end = text::next_at(s, ']', open + 1);
        if label_end + 1 < s.len() {
            lemma_paren_close(s, label_end + 2, 0);
        }
    } else if let Some(style) = style_at(s, active, i) {
        lemma_double_close(s, c, i + 2);
        lemma_single_close(s, c, i + 1);
    }
}

// ---- Rendering --------------------------------------------------------------

/// The rendering of `s` from index `i` on, with the emphasis in `active` open
/// around it.
pub open spec fn inline_from(s: Seq<char>, active: Active, i: int) -> Seq<char>
    decreases s.len(), s.len() - i,
    when 0 <= i <= s.len()
    via inline_from_decreases
{
    if i >= s.len() {
        Seq::empty()
    } else {
        match span_at(s, active, i) {
            Span::Code(end) => seq!['`'] + escaped(s.subrange(i + 1, end), Place::Code) + seq!['`']
                + inline_from(s, active, end + 1),
            Span::Link(open, label_end, url_end) => link_text(
                inline_from(s.subrange(open + 1, label_end), active, 0),
                s.subrange(label_end + 2, url_end),
            ) + inline_from(s, active, url_end + 1),
            Span::Emphasis(style, j) => mark(style) + inline_from(
                s.subrange(i + delimiter_width(style), j),
                opened(active, style),
                0,
            ) + mark(style) + inline_from(s, active, j + delimiter_width(style)),
            Span::Literal => escaped_char(s[i], Place::Body) + inline_from(s, active, i + 1),
        }
    }
}

#[via_fn]
proof fn inline_from_decreases(s: Seq<char>, active: Active, i: int) {
    if i < s.len() {
        lemma_span_at(s, active, i);
    }
}

/// A MarkdownV2 link with a rendered label.
pub open spec fn link_text(label: Seq<char>, url: Seq<char>) -> Seq<char> {
    seq!['['] + label + seq![']', '('] + escaped(url, Place::Url) + seq![')']
}

/// The rendering of the inline spans of one line.
pub open spec fn rendered(s: Seq<char>) -> Seq<char> {
    inline_from(s, nothing_active(), 0)
}

/// No emphasis is open.
fn inactive() -> (active: Active)
    ensures
        active == nothing_active(),
{
    Active { bold: false, italic: false, strike: false, spoiler: false }
}

/// `active` with `style` open as well.
fn open_style(active: Active, style: Style) -> (result: Active)
    ensures
        result == opened(active, style),
{
    let mut result = active;
    match style {
        Style::Bold => {
            result.bold = true;
        },
        Style::Italic => {
            result.italic = true;
        },
        Style::Strike => {
            result.strike = true;
        },
        Style::Spoiler => {
            result.spoiler = true;
        },
    }
    result
}

/// How many delimiter characters stand on each side of the source span.
fn width_of(style: Style) -> (n: usize)
    ensures
        n == delimiter_width(style),
{
    match style {
        Style::Italic => 1,
        _ => 2,
    }
}

/// Appends the mark of `style` to `out`.
fn push_mark(out: &mut Vec<char>, style: Style)
    ensures
        final(out)@ == old(out)@ + mark(style),
{
    match style {
        Style::Bold => {
            out.push('*');
        },
        Style::Italic => {
            out.push('_');
        },
        Style::Strike => {
            out.push('~');
        },
        Style::Spoiler => {
            out.push('|');
            out.push('|');
        },
    }
    assert(out@ =~= old(out)@ + mark(style));
}

/// Whether the character at `i` stands between two alphanumeric characters.
fn is_intraword(s: &[char], i: usize) -> (b: bool)
    requires
        i < s@.len(),
    ensures
        b == intraword(s@, i as int),
{
    i > 0 && i < s.len() - 1 && is_alphanumeric(s[i - 1]) && is_alphanumeric(s[i + 1])
}

/// Whether `c` stands at `i` and again right after.
fn is_double(s: &[char], c: char, i: usize) -> (b: bool)
    requires
        i < s@.len(),
    ensures
        b == doubled(s@, c, i as int),
{
    i < s.len() - 1 && s[i] == c && s[i + 1] == c
}

/// Where the span that `c` opens at `i` closes, if it does and is not empty.
fn find_close(s: &[char], i: usize, c: char, style: Style) -> (r: Option<usize>)
    requires
        i + delimiter_width(style) <= s@.len(),
    ensures
        match r {
            Some(j) => span_close(s@, i as int, c, style) == Some(j as int),
            None => span_close(s@, i as int, c, style) == None::<int>,
        },
{
    let n: usize = s.len();
    let start: usize = i + width_of(style);
    let single = match style {
        Style::Italic => true,
        _ => false,
    };
    let mut j: usize = start;
    while j < n
        invariant_except_break
            n == s@.len(),
            start <= j <= s@.len(),
            single ==> single_close(s@, c, start as int) == single_close(s@, c, j as int),
            !single ==> double_close(s@, c, start as int) == double_close(s@, c, j as int),
        ensures
            j <= s@.len(),
            single ==> single_close(s@, c, start as int) == j,
            !single ==> double_close(s@, c, start as int) == j,
        decreases s@.len() - j,
    {
        if single {
            if s[j] == c {
                let run: usize = text::run_len(s, c, j);
                if run <= 1 {
                    break;
                }
                j = j + run;
            } else {
                j = j + 1;
            }
        } else {
            if is_double(s, c, j) {
                break;
            }
            j = j + 1;
        }
    }
    if start < j && j < n {
        Some(j)
    } else {
        None
    }
}

/// The index of the `)` that closes a link target beginning at `from`.
fn find_paren_close(s: &[char], from: usize) -> (r: usize)
    requires
        from <= s@.len(),
    ensures
        r == paren_close(s@, from as int, 0),
        from <= r <= s@.len(),
{
    let mut j: usize = from;
    let mut depth: usize = 0;
    while j < s.len()
        invariant_except_break
            from <= j <= s@.len(),
            depth <= j - from,
            paren_close(s@, from as int, 0) == paren_close(s@, j as int, depth as nat),
        ensures
            from <= j <= s@.len(),
            j == paren_close(s@, from as int, 0),
        decreases s@.len() - j,
    {
        let c = s[j];
        if c == '(' {
            depth = depth + 1;
        } else if c == ')' {
            if depth == 0 {
                break;
            }
            depth = depth - 1;
        }
        j = j + 1;
    }
    j
}

/// A link whose `[` stands at `i`.
fn take_link(s: &[char], i: usize) -> (r: Option<(usize, usize)>)
    requires
        i < s@.len(),
    ensures
        match r {
            Some((label_end, url_end)) => link_at(s@, i as int) == Some(
                (label_end as int, url_end as int),
            ),
            None => link_at(s@, i as int) == None::<(int, int)>,
        },
{
    let n: usize = s.len();
    let label_end: usize = text::find_char(s, ']', i + 1);
    if label_end < n && label_end < n - 1 && s[label_end + 1] == '(' {
        let url_end: usize = find_paren_close(s, label_end + 2);
        if url_end < s.len() {
            return Some((label_end, url_end));
        }
    }
    None
}

/// The kind of emphasis that the character at `i` may open.
fn find_style(s: &[char], active: Active, i: usize) -> (r: Option<Style>)
    requires
        i < s@.len(),
    ensures
        r == style_at(s@, active, i as int),
        r matches Some(style) ==> i + delimiter_width(style) <= s@.len(),
{
    let c = s[i];
    if (c == '*' || c == '_') && is_double(s, c, i) && !active.bold {
        Some(Style::Bold)
    } else if c == '~' && is_double(s, c, i) && !active.strike {
        Some(Style::Strike)
    } else if c == '|' && is_double(s, c, i) && !active.spoiler {
        Some(Style::Spoiler)
    } else if (c == '*' || c == '_') && !active.italic && !(c == '_' && is_intraword(s, i)) {
        Some(Style::Italic)
    } else {
        None
    }
}

/// A span with machine indices as one with mathematical ones.
pub open spec fn widened(span: Span<usize>) -> Span<int> {
    match span {
        Span::Code(end) => Span::Code(end as int),
        Span::Link(open, label_end, url_end) => Span::Link(
            open as int,
            label_end as int,
            url_end as int,
        ),
        Span::Emphasis(style, j) => Span::Emphasis(style, j as int),
        Span::Literal => Span::Literal,
    }
}

/// What begins at index `i`.
fn find_span(s: &[char], active: Active, i: usize) -> (span: Span<usize>)
    requires
        i < s@.len(),
    ensures
        widened(span) == span_at(s@, active, i as int),
{
    let c = s[i];
    if c == '`' {
        let end: usize = text::find_char(s, '`', i + 1);
        if end < s.len() {
            Span::Code(end)
        } else {
            Span::Literal
        }
    } else if c == '[' || (c == '!' && i < s.len() - 1 && s[i + 1] == '[') {
        let open: usize = if c == '[' {
            i
        } else {
            i + 1
        };
        match take_link(s, open) {
            Some((label_end, url_end)) => Span::Link(open, label_end, url_end),
            None => Span::Literal,
        }
    } else {
        match find_style(s, active, i) {
            Some(style) => match find_close(s, i, c, style) {
                Some(j) => Span::Emphasis(style, j),
                None => Span::Literal,
            },
            None => Span::Literal,
        }
    }
}

/// The rendering of `s` with the emphasis in `active` open around it.
fn render_inline_ctx(s: &[char], active: Active) -> (out: Vec<char>)
    ensures
        out@ == inline_from(s@, active, 0),
    decreases s@.len(),
{
    let mut out: Vec<char> = Vec::new();
    let mut i: usize = 0;
    assert(out@ + inline_from(s@, active, 0) =~= inline_from(s@, active, 0));
    while i < s.len()
        invariant
            i <= s@.len(),
            out@ + inline_from(s@, active, i as int) == inline_from(s@, active, 0),
        decreases s@.len() - i,
    {
        let ghost before = out@;
        let ghost from = i as int;
        let ghost mut piece: Seq<char> = Seq::empty();
        let span = find_span(s, active, i);
        proof {
            lemma_span_at(s@, active, i as int);
        }
        match span {
            Span::Code(end) => {
                out.push('`');
                push_escaped(&mut out, slice_subrange(s, i + 1, end), Place::Code);
                out.push('`');
                proof {
                    piece = seq!['`'] + escaped(s@.subrange(i + 1, end as int), Place::Code)
                        + seq!['`'];
                    assert(out@ =~= before + piece);
                }
                i = end + 1;
            },
            Span::Link(open, label_end, url_end) => {
                let label = render_inline_ctx(slice_subrange(s, open + 1, label_end), active);
                out.push('[');
                text::push_all(&mut out, label.as_slice());
                out.push(']');
                out.push('(');
                push_escaped(&mut out, slice_subrange(s, label_end + 2, url_end), Place::Url);
                out.push(')');
                proof {
                    piece = link_text(label@, s@.subrange(label_end + 2, url_end as int));
                    assert(out@ =~= before + piece);
                }
                i = url_end + 1;
            },
            Span::Emphasis(style, j) => {
                let w: usize = width_of(style);
                let inner = render_inline_ctx(slice_subrange(s, i + w, j), open_style(active, style));
                push_mark(&mut out, style);
                text::push_all(&mut out, inner.as_slice());
                push_mark(&mut out, style);
                proof {
                    piece = mark(style) + inner@ + mark(style);
                    assert(out@ =~= before + piece);
                }
                i = j + w;
            },
            Span::Literal => {
                push_escaped_char(&mut out, s[i], Place::Body);
                proof {
                    piece = escaped_char(s@[i as int], Place::Body);
                }
                i = i + 1;
            },
        }
        proof {
            assert(inline_from(s@, active, from) == piece + inline_from(s@, active, i as int));
            vstd::seq_lib::lemma_concat_associative(before, piece, inline_from(s@, active, i as int));
        }
    }
    assert(out@ + Seq::<char>::empty() =~= out@);
    out
}

/// The rendering of the inline spans of one line.
pub fn render_inline(s: &[char]) -> (out: Vec<char>)
    ensures
        out@ == rendered(s@),
{
    render_inline_ctx(s, inactive())
}

} // verus!
