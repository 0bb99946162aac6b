//! Markdown replies as Telegram messages.
//!
//! Agents answer in GitHub-flavoured markdown. A reply is turned into Telegram's
//! MarkdownV2 dialect and cut into chunks that each fit a message. A chunk keeps
//! the source that it was rendered from, so a chunk whose markup is rejected can
//! still be sent as plain text.

use crate::telegram::blocks;
use crate::telegram::source;
use crate::telegram::spans;
use crate::telegram::spans::Place;
use crate::text;
use vstd::prelude::*;

verus! {

/// Telegram caps a single message at this many UTF-16 code units.
pub const TELEGRAM_MAX_UTF16: usize = 4096;

/// How a chunk is sent.
#[derive(Clone, Copy, Debug, PartialEq, Eq, Structural)]
pub enum ParseMode {
    /// With `parse_mode: "MarkdownV2"`.
    MarkdownV2,
    /// As plain text, without a `parse_mode`.
    Plain,
}

impl ParseMode {
    /// The value of the `parse_mode` field, or `None` for plain text.
    pub fn as_api_value(self) -> (r: Option<&'static str>)
        ensures
            self is MarkdownV2 ==> r is Some && r->0@ == "MarkdownV2"@,
            self is Plain ==> r is None,
    {
        match self {
            ParseMode::MarkdownV2 => Some("MarkdownV2"),
            ParseMode::Plain => None,
        }
    }
}

/// One chunk that is ready to be sent.
#[derive(Clone, Debug, PartialEq, Eq)]
pub struct Chunk {
    pub text: String,
    pub parse_mode: ParseMode,
    /// The markdown that this chunk was rendered from, without the indicator.
    pub source: String,
}

/// What a chunk holds.
pub struct ChunkView {
    pub text: Seq<char>,
    pub parse_mode: ParseMode,
    pub source: Seq<char>,
}

impl View for Chunk {
    type V = ChunkView;

    open spec fn view(&self) -> ChunkView {
        ChunkView { text: self.text@, parse_mode: self.parse_mode, source: self.source@ }
    }
}

/// What a list of chunks holds.
pub open spec fn chunk_views(chunks: Seq<Chunk>) -> Seq<ChunkView> {
    Seq::new(chunks.len(), |i: int| chunks[i]@)
}

/// The number of UTF-16 code units of a text.
pub fn utf16_len(text: &str) -> (n: usize)
    ensures
        n == text::utf16_units(text@),
{
    let bytes: usize = text::byte_len(text);
    proof {
        text::lemma_units_bounds(text@);
    }
    let chars = text::to_chars(text);
    text::utf16_capped(chars.as_slice(), bytes)
}

/// A markdown reply in MarkdownV2.
pub fn to_markdown_v2(markdown: &str) -> (out: String)
    ensures
        out@ == blocks::markdown_v2(markdown@),
{
    let chars = text::to_chars(markdown);
    let out = blocks::render_document(chars.as_slice());
    text::from_chars(out.as_slice())
}

/// The source chunks of a reply.
pub fn split_source_into_chunks(markdown: &str) -> (chunks: Vec<String>)
    ensures
        text::views(chunks@) == source::source_chunks(markdown@),
{
    let chars = text::to_chars(markdown);
    let chunks = source::split_source(chars.as_slice());
    text::strings_of(&chunks)
}

// ---- Chunks -----------------------------------------------------------------

/// `(N/M)`, the place of a chunk among all chunks.
pub open spec fn indicator(index: nat, total: nat) -> Seq<char> {
    seq!['('] + text::decimal(index + 1) + seq!['/'] + text::decimal(total) + seq![')']
}

/// The text of a chunk: its body, and its indicator where there are several.
pub open spec fn labelled(body: Seq<char>, mode: ParseMode, index: nat, total: nat) -> Seq<char> {
    if total <= 1 {
        body
    } else {
        body + seq!['\n', '\n'] + match mode {
            ParseMode::MarkdownV2 => spans::escaped(indicator(index, total), Place::Body),
            ParseMode::Plain => indicator(index, total),
        }
    }
}

/// A body with the mode in which it is sent and the source that it stands for.
pub struct Body {
    pub text: Seq<char>,
    pub mode: ParseMode,
    pub source: Seq<char>,
}

/// A body that is sent as it is.
pub open spec fn plain_body(piece: Seq<char>) -> Body {
    Body { text: piece, mode: ParseMode::Plain, source: piece }
}

/// Bodies that are sent as they are.
pub open spec fn plain_bodies(pieces: Seq<Seq<char>>) -> Seq<Body> {
    Seq::new(pieces.len(), |i: int| plain_body(pieces[i]))
}

/// The bodies of one source chunk: its rendering where that fits, else its
/// source, cut to size.
pub open spec fn bodies_of(chunk: Seq<char>) -> Seq<Body> {
    let rendered = blocks::markdown_v2(chunk);
    if text::utf16_units(rendered) <= source::BODY_BUDGET {
        seq![Body { text: rendered, mode: ParseMode::MarkdownV2, source: chunk }]
    } else {
        plain_bodies(
            source::full_pieces(chunk, source::BODY_BUDGET as int) + source::flushed(
                source::last_piece(chunk, source::BODY_BUDGET as int),
            ),
        )
    }
}

/// The bodies of the source chunks before chunk `n`.
pub open spec fn bodies_before(chunks: Seq<Seq<char>>, n: int) -> Seq<Body>
    decreases n,
{
    if n <= 0 {
        Seq::empty()
    } else {
        bodies_before(chunks, n - 1) + bodies_of(chunks[n - 1])
    }
}

/// The bodies of a whole reply.
pub open spec fn all_bodies(markdown: Seq<char>) -> Seq<Body> {
    let chunks = source::source_chunks(markdown);
    bodies_before(chunks, chunks.len() as int)
}

/// The chunks that carry `bodies`.
pub open spec fn labelled_chunks(bodies: Seq<Body>) -> Seq<ChunkView> {
    Seq::new(
        bodies.len(),
        |i: int|
            ChunkView {
                text: labelled(bodies[i].text, bodies[i].mode, i as nat, bodies.len()),
                parse_mode: bodies[i].mode,
                source: bodies[i].source,
            },
    )
}

/// The chunks of a reply.
pub open spec fn rich_chunks(markdown: Seq<char>) -> Seq<ChunkView> {
    labelled_chunks(all_bodies(markdown))
}

/// The chunks of a reply that is sent as plain text throughout.
pub open spec fn plain_text_chunks(markdown: Seq<char>) -> Seq<ChunkView> {
    labelled_chunks(plain_bodies(source::source_chunks(markdown)))
}

/// A body under construction.
struct BodyChars {
    text: Vec<char>,
    mode: ParseMode,
    source: Vec<char>,
}

/// What a list of bodies under construction holds.
spec fn body_views(bodies: Seq<BodyChars>) -> Seq<Body> {
    Seq::new(
        bodies.len(),
        |i: int| Body { text: bodies[i].text@, mode: bodies[i].mode, source: bodies[i].source@ },
    )
}

/// The text of a chunk.
fn label(body: &[char], mode: ParseMode, index: usize, total: usize) -> (out: Vec<char>)
    requires
        index < total,
    ensures
        out@ == labelled(body@, mode, index as nat, total as nat),
{
    let mut out = text::copy_chars(body);
    if total <= 1 {
        return out;
    }
    let mut place: Vec<char> = Vec::new();
    place.push('(');
    let number = text::decimal_chars((index + 1) as u64);
    text::push_all(&mut place, number.as_slice());
    place.push('/');
    let count = text::decimal_chars(total as u64);
    text::push_all(&mut place, count.as_slice());
    place.push(')');
    assert(place@ =~= indicator(index as nat, total as nat));
    out.push('\n');
    out.push('\n');
    match mode {
        ParseMode::MarkdownV2 => {
            spans::push_escaped(&mut out, place.as_slice(), Place::Body);
        },
        ParseMode::Plain => {
            text::push_all(&mut out, place.as_slice());
        },
    }
    assert(out@ =~= labelled(body@, mode, index as nat, total as nat));
    out
}

/// The chunks that carry `bodies`.
fn label_all(bodies: &Vec<BodyChars>) -> (chunks: Vec<Chunk>)
    ensures
        chunk_views(chunks@) == labelled_chunks(body_views(bodies@)),
{
    let ghost all = body_views(bodies@);
    let mut chunks: Vec<Chunk> = Vec::new();
    let mut i: usize = 0;
    while i < bodies.len()
        invariant
            all == body_views(bodies@),
            i <= bodies@.len(),
            chunks@.len() == i,
            forall|j: int| 0 <= j < i ==> (#[trigger] chunks@[j])@ == labelled_chunks(all)[j],
        decreases bodies@.len() - i,
    {
        let body = &bodies[i];
        let text = label(body.text.as_slice(), body.mode, i, bodies.len());
        chunks.push(
            Chunk {
                text: text::from_chars(text.as_slice()),
                parse_mode: body.mode,
                source: text::from_chars(body.source.as_slice()),
            },
        );
        i = i + 1;
    }
    assert(chunk_views(chunks@) =~= labelled_chunks(all));
    chunks
}

/// Appends a plain body for each of `pieces`.
fn push_plain(bodies: &mut Vec<BodyChars>, pieces: &Vec<Vec<char>>)
    ensures
        body_views(final(bodies)@) == body_views(old(bodies)@) + plain_bodies(
            text::vec_views(pieces@),
        ),
{
    let ghost begin = body_views(bodies@);
    let ghost all = text::vec_views(pieces@);
    let mut i: usize = 0;
    while i < pieces.len()
        invariant
            all == text::vec_views(pieces@),
            i <= pieces@.len(),
            body_views(bodies@) =~= begin + plain_bodies(all.take(i as int)),
        decreases pieces@.len() - i,
    {
        let ghost before = body_views(bodies@);
        bodies.push(
            BodyChars {
                text: text::copy_chars(pieces[i].as_slice()),
                mode: ParseMode::Plain,
                source: text::copy_chars(pieces[i].as_slice()),
            },
        );
        assert(body_views(bodies@) =~= before.push(plain_body(all[i as int])));
        assert(plain_bodies(all.take(i + 1)) =~= plain_bodies(all.take(i as int)).push(
            plain_body(all[i as int]),
        ));
        i = i + 1;
    }
    assert(all.take(all.len() as int) =~= all);
}

/// Appends the bodies of one source chunk.
fn push_bodies(bodies: &mut Vec<BodyChars>, chunk: &Vec<char>)
    ensures
        body_views(final(bodies)@) == body_views(old(bodies)@) + bodies_of(chunk@),
{
    let rendered = blocks::render_document(chunk.as_slice());
    let ghost before = body_views(bodies@);
    if text::utf16_capped(rendered.as_slice(), TELEGRAM_MAX_UTF16) <= source::BODY_BUDGET {
        let ghost body = Body { text: rendered@, mode: ParseMode::MarkdownV2, source: chunk@ };
        bodies.push(
            BodyChars {
                text: rendered,
                mode: ParseMode::MarkdownV2,
                source: text::copy_chars(chunk.as_slice()),
            },
        );
        assert(body_views(bodies@) =~= before + seq![body]);
    } else {
        let mut pieces: Vec<Vec<char>> = Vec::new();
        let rest = source::cut_pieces(&mut pieces, chunk.as_slice(), source::BODY_BUDGET);
        let ghost full = text::vec_views(pieces@);
        let ghost last = rest@;
        if rest.len() > 0 {
            pieces.push(rest);
        }
        assert(text::vec_views(pieces@) =~= full + source::flushed(last));
        assert(full =~= source::full_pieces(chunk@, source::BODY_BUDGET as int));
        push_plain(bodies, &pieces);
    }
}

/// The chunks of a reply, each with the mode in which it is sent.
pub fn render_chunks(markdown: &str) -> (chunks: Vec<Chunk>)
    ensures
        chunk_views(chunks@) == rich_chunks(markdown@),
{
    let chars = text::to_chars(markdown);
    let sources = source::split_source(chars.as_slice());
    let ghost all = source::source_chunks(markdown@);
    let mut bodies: Vec<BodyChars> = Vec::new();
    let mut i: usize = 0;
    assert(body_views(bodies@) =~= Seq::empty());
    while i < sources.len()
        invariant
            all == text::vec_views(sources@),
            i <= sources@.len(),
            body_views(bodies@) == bodies_before(all, i as int),
        decreases sources@.len() - i,
    {
        push_bodies(&mut bodies, &sources[i]);
        i = i + 1;
    }
    label_all(&bodies)
}

/// The chunks of a reply that is sent as plain text throughout.
pub fn plain_chunks(markdown: &str) -> (chunks: Vec<Chunk>)
    ensures
        chunk_views(chunks@) == plain_text_chunks(markdown@),
{
    let chars = text::to_chars(markdown);
    let sources = source::split_source(chars.as_slice());
    let mut bodies: Vec<BodyChars> = Vec::new();
    push_plain(&mut bodies, &sources);
    assert(body_views(bodies@) =~= plain_bodies(source::source_chunks(markdown@)));
    label_all(&bodies)
}

} // verus!
