//! What holds of every line of the protocol, and of how messages address the bot.

use crate::irc::addressing;
use crate::irc::proto;
use crate::irc::proto::MessageView;
use crate::text;
use crate::text_laws;
use vstd::prelude::*;

verus! {

// ---- Lines ------------------------------------------------------------------

/// A word of the protocol: it holds no space, and begins neither with white space nor
/// with a colon.
pub open spec fn is_word(s: Seq<char>) -> bool {
    s.len() > 0 && !s.contains(' ') && !text::is_white(s[0]) && s[0] != ':'
}

/// Parameters as they are sent: words after spaces, and a last one after a colon.
pub open spec fn sent_params(words: Seq<Seq<char>>, last: Seq<char>) -> Seq<char>
    decreases words.len(),
{
    if words.len() == 0 {
        seq![' ', ':'] + last
    } else {
        seq![' '] + words[0] + sent_params(words.skip(1), last)
    }
}

/// A message as it is sent.
pub open spec fn sent(
    prefix: Option<Seq<char>>,
    command: Seq<char>,
    words: Seq<Seq<char>>,
    last: Seq<char>,
) -> Seq<char> {
    (match prefix {
        Some(prefix) => seq![':'] + prefix + seq![' '],
        None => Seq::empty(),
    }) + command + sent_params(words, last) + seq!['\r', '\n']
}

proof fn lemma_head_tail(word: Seq<char>, rest: Seq<char>)
    requires
        !word.contains(' '),
        rest.len() > 0 && rest[0] == ' ',
    ensures
        proto::head(word + rest) == word,
        proto::tail(word + rest) == rest.skip(1),
{
    let s = word + rest;
    let n = word.len() as int;
    assert forall|j: int| 0 <= j < n implies s[j] != ' ' by {
        assert(s[j] == word[j]);
        assert(word.contains(word[j]));
    }
    assert(s[n] == ' ');
    text_laws::lemma_next_is(s, ' ', 0, n);
    assert(s.take(n) =~= word);
    assert(s.skip(n + 1) =~= rest.skip(1));
}

proof fn lemma_sent_params(words: Seq<Seq<char>>, last: Seq<char>)
    requires
        forall|k: int| 0 <= k < words.len() ==> is_word(#[trigger] words[k]),
    ensures
        sent_params(words, last).len() > 0,
        sent_params(words, last)[0] == ' ',
        proto::params_of(sent_params(words, last).skip(1)) == words.push(last),
    decreases words.len(),
{
    let s = sent_params(words, last);
    let t = s.skip(1);
    text_laws::ascii_white_space(':');
    if words.len() == 0 {
        assert(t =~= seq![':'] + last);
        assert(t[0] == ':');
        assert(text::trimmed_start(t) == t);
        assert(t.skip(1) =~= last);
        assert(words.push(last) =~= seq![last]);
    } else {
        let rest = words.skip(1);
        let word = words[0];
        assert(is_word(word));
        assert forall|k: int| 0 <= k < rest.len() implies is_word(#[trigger] rest[k]) by {
            assert(is_word(words[k + 1]));
        }
        lemma_sent_params(rest, last);
        assert(t =~= word + sent_params(rest, last));
        assert(t[0] == word[0]);
        assert(text::trimmed_start(t) == t);
        lemma_head_tail(word, sent_params(rest, last));
        assert(proto::params_of(t) == seq![word] + rest.push(last));
        assert(seq![word] + rest.push(last) =~= words.push(last));
    }
}

proof fn lemma_ends_with_last(words: Seq<Seq<char>>, last: Seq<char>)
    ensures
        sent_params(words, last).len() >= 2,
        sent_params(words, last).last() == if last.len() > 0 {
            last.last()
        } else {
            ':'
        },
    decreases words.len(),
{
    if words.len() > 0 {
        lemma_ends_with_last(words.skip(1), last);
    }
}

/// A message that is sent is read as it was: its prefix, its command and its parameters,
/// of which the last may hold spaces and anything else but the end of a line.
pub proof fn sent_messages_are_read_back(
    prefix: Option<Seq<char>>,
    command: Seq<char>,
    words: Seq<Seq<char>>,
    last: Seq<char>,
)
    requires
        prefix is Some ==> !prefix->0.contains(' '),
        is_word(command),
        forall|k: int| 0 <= k < words.len() ==> is_word(#[trigger] words[k]),
        last.len() > 0 ==> last.last() != '\r' && last.last() != '\n',
    ensures
        proto::message_on(sent(prefix, command, words, last)) == Some(
            MessageView { prefix, command, params: words.push(last) },
        ),
{
    let params = sent_params(words, last);
    let line = sent(prefix, command, words, last);
    let body = line.take(line.len() - 2);
    lemma_sent_params(words, last);
    lemma_ends_with_last(words, last);
    assert(body.last() == params.last());
    assert(line =~= body.push('\r').push('\n'));
    assert(line.drop_last() =~= body.push('\r'));
    assert(body.push('\r').drop_last() =~= body);
    reveal_with_fuel(proto::unterminated, 3);
    assert(proto::unterminated(line) == body);
    text_laws::ascii_white_space(':');
    let rest = command + params;
    lemma_head_tail(command, params);
    assert(rest[0] == command[0]);
    assert(text::trimmed_start(rest) == rest);
    match prefix {
        Some(p) => {
            assert(body =~= seq![':'] + p + seq![' '] + rest);
            assert(body[0] == ':');
            assert(text::trimmed_start(body) == body);
            let after = seq![' '] + rest;
            assert(body.skip(1) =~= p + after);
            lemma_head_tail(p, after);
            assert(after.skip(1) =~= rest);
        },
        None => {
            assert(body =~= rest);
        },
    }
}

/// The nick of a sender is what stands before the first exclamation mark or at sign of
/// the prefix, or all of it.
pub proof fn nicks_end_at_their_mark(nick: Seq<char>, mark: char, rest: Seq<char>)
    requires
        !nick.contains('!') && !nick.contains('@'),
        mark == '!' || mark == '@',
    ensures
        proto::nick_of(nick) == nick,
        proto::nick_of(nick + seq![mark] + rest) == nick,
{
    lemma_nick_end(nick, nick, 0);
    let s = nick + seq![mark] + rest;
    assert(s[nick.len() as int] == mark);
    lemma_nick_end(nick, s, 0);
    assert(nick.take(nick.len() as int) =~= nick);
    assert(s.take(nick.len() as int) =~= nick);
}

proof fn lemma_nick_end(nick: Seq<char>, s: Seq<char>, i: int)
    requires
        !nick.contains('!') && !nick.contains('@'),
        0 <= i <= nick.len() <= s.len(),
        forall|j: int| 0 <= j < nick.len() ==> s[j] == nick[j],
        nick.len() < s.len() ==> s[nick.len() as int] == '!' || s[nick.len() as int] == '@',
    ensures
        proto::nick_end(s, i) == nick.len(),
    decreases nick.len() - i,
{
    if i < nick.len() {
        assert(nick.contains(nick[i]));
        lemma_nick_end(nick, s, i + 1);
    }
}

/// A text is read as it is. What someone does is told with the nick, and the delimiters
/// around any other request are dropped.
pub proof fn texts_are_read_as_they_are(sender: Seq<char>, said: Seq<char>)
    requires
        said.len() > 0 ==> said[0] != '\u{1}' && said.last() != '\u{1}',
    ensures
        proto::readable(sender, said) == said,
        !text::begins_with(said, "ACTION"@) ==> proto::readable(
            sender,
            seq!['\u{1}'] + said + seq!['\u{1}'],
        ) == said,
        said.len() > 0 && !text::is_white(said[0]) && !text::is_white(said.last())
            ==> proto::readable(sender, seq!['\u{1}'] + "ACTION "@ + said + seq!['\u{1}']) == "* "@
            + sender + " "@ + said,
{
    reveal_strlit("ACTION");
    reveal_strlit("ACTION ");
    assert("ACTION "@ =~= "ACTION"@ + seq![' ']);
    assert(proto::undelimited_end(proto::undelimited_start(said)) == said);
    lemma_delimited(said);
    if said.len() > 0 && !text::is_white(said[0]) && !text::is_white(said.last()) {
        let inner = "ACTION "@ + said;
        assert(inner[0] == "ACTION"@[0]);
        assert(inner.last() == said.last());
        lemma_delimited(inner);
        assert(seq!['\u{1}'] + "ACTION "@ + said + seq!['\u{1}'] =~= seq!['\u{1}'] + inner + seq![
            '\u{1}',
        ]);
        assert(inner.take("ACTION"@.len() as int) =~= "ACTION"@);
        let after = inner.skip("ACTION"@.len() as int);
        assert(after =~= seq![' '] + said);
        text_laws::ascii_white_space(' ');
        assert(after.skip(1) =~= said);
        assert(text::trimmed_start(said) == said);
        assert(text::trimmed_start(after) == said);
        let told = "* "@ + sender + " "@ + said;
        assert(told.last() == said.last());
        assert(text::trimmed_end(told) == told);
    }
}

proof fn lemma_delimited(inner: Seq<char>)
    requires
        inner.len() > 0 ==> inner[0] != '\u{1}' && inner.last() != '\u{1}',
    ensures
        proto::undelimited_end(
            proto::undelimited_start(seq!['\u{1}'] + inner + seq!['\u{1}']),
        ) == inner,
{
    let raw = seq!['\u{1}'] + inner + seq!['\u{1}'];
    let half = inner + seq!['\u{1}'];
    reveal_with_fuel(proto::undelimited_start, 3);
    reveal_with_fuel(proto::undelimited_end, 3);
    assert(raw.skip(1) =~= half);
    if inner.len() > 0 {
        assert(half[0] == inner[0]);
        assert(half.drop_last() =~= inner);
    } else {
        assert(half =~= seq!['\u{1}']);
        assert(half.skip(1) =~= inner);
    }
}

// ---- Addressing -------------------------------------------------------------

proof fn lemma_leads(nick: Seq<char>, rest: Seq<char>)
    ensures
        addressing::leads_with(nick + rest, nick),
        (nick + rest).skip(nick.len() as int) == rest,
{
    assert((nick + rest).take(nick.len() as int) =~= nick);
    assert((nick + rest).skip(nick.len() as int) =~= rest);
}

/// A text that begins with the nick and a colon or a comma addresses the bot, and so does
/// one that begins with an at sign and the nick; the request is what follows.
pub proof fn addresses_come_before_requests(
    blank: Seq<char>,
    nick: Seq<char>,
    mark: char,
    request: Seq<char>,
)
    requires
        forall|j: int| 0 <= j < blank.len() ==> text::is_white(#[trigger] blank[j]),
        nick.len() > 0 && nick[0] != '@' && !text::is_white(nick[0]),
        mark == ':' || mark == ',',
        request.len() > 0 ==> !text::is_white(request[0]),
    ensures
        ({
            let plain = blank + nick + seq![mark] + blank + request;
            let at = blank + seq!['@'] + nick + seq![' '] + request;
            &&& addressing::mentions(plain, nick)
            &&& addressing::mentions(at, nick)
            &&& addressing::request_in(plain, nick) == request
            &&& !(request.len() > 0 && (request[0] == ':' || request[0] == ','))
                ==> addressing::request_in(at, nick) == request
        }),
{
    text_laws::ascii_white_space('@');
    text_laws::ascii_white_space(mark);
    text_laws::ascii_white_space(' ');
    let after = seq![mark] + blank + request;
    let body = nick + after;
    let plain = blank + nick + seq![mark] + blank + request;
    assert(plain =~= blank + body);
    lemma_blank_start(blank, body);
    lemma_leads(nick, after);
    assert(after[0] == mark);
    assert(text::trimmed_start(after) == after);
    assert(after.skip(1) =~= blank + request);
    lemma_blank_start(blank, request);
    let gap = seq![' '] + request;
    let named = nick + gap;
    let at = blank + seq!['@'] + nick + seq![' '] + request;
    let marked = seq!['@'] + named;
    assert(at =~= blank + marked);
    lemma_blank_start(blank, marked);
    assert(marked.skip(1) =~= named);
    lemma_leads(nick, gap);
    assert(gap[0] == ' ');
    assert(gap.skip(1) =~= request);
    lemma_blank_start(seq![' '], request);
}

proof fn lemma_blank_start(blank: Seq<char>, rest: Seq<char>)
    requires
        forall|j: int| 0 <= j < blank.len() ==> text::is_white(#[trigger] blank[j]),
        rest.len() > 0 ==> !text::is_white(rest[0]),
    ensures
        text::trimmed_start(blank + rest) == rest,
{
    let s = blank + rest;
    text_laws::trimming_the_start_takes_white_space_alone(s);
    let t = text::trimmed_start(s);
    let n = s.len() - t.len();
    if n < blank.len() {
        assert(t[0] == s[n]);
        assert(text::is_white(blank[n]));
    }
    if n > blank.len() {
        assert(text::is_white(s[blank.len() as int]));
    }
    assert(t =~= rest);
}

/// A text that does not begin with the nick addresses nobody, and is a request as it is.
pub proof fn other_texts_address_nobody(said: Seq<char>, nick: Seq<char>)
    requires
        ({
            let t = text::trimmed_start(said);
            let rest = if t.len() > 0 && t[0] == '@' {
                t.skip(1)
            } else {
                t
            };
            rest.len() < nick.len() || !text::same_ignoring_case(
                rest.take(nick.len() as int),
                nick,
            )
        }),
    ensures
        !addressing::mentions(said, nick),
        addressing::request_in(said, nick) == said,
{
}

/// A text that begins with a nick and a colon or a comma addresses it, and the request is
/// what follows; any other text is a request as it is, but for white space before it.
pub proof fn nicks_come_before_requests(
    blank: Seq<char>,
    nick: Seq<char>,
    mark: char,
    request: Seq<char>,
)
    requires
        forall|j: int| 0 <= j < blank.len() ==> text::is_white(#[trigger] blank[j]),
        nick.len() > 0 && !text::is_white(nick[0]),
        mark == ':' || mark == ',',
        request.len() > 0 ==> !text::is_white(request[0]),
    ensures
        crate::addressing::addresses(blank + nick + seq![mark] + blank + request, nick),
        crate::addressing::request_of(blank + nick + seq![mark] + blank + request, nick) == request,
        !addressing::leads_with(request, nick) ==> !crate::addressing::addresses(
            blank + request,
            nick,
        ) && crate::addressing::request_of(blank + request, nick) == request,
{
    let after = seq![mark] + blank + request;
    let body = nick + after;
    let whole = blank + nick + seq![mark] + blank + request;
    assert(whole =~= blank + body);
    lemma_blank_start(blank, body);
    lemma_leads(nick, after);
    assert(after[0] == mark);
    assert(body.skip(nick.len() as int + 1) =~= blank + request);
    lemma_blank_start(blank, request);
}

} // verus!
