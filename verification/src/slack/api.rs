//! Answers of the Slack API: errors, pages and addresses.

use crate::json;
use crate::json::{Json, JsonView};
use crate::slack::attachments;
use crate::text;
use crate::urls;
use vstd::prelude::*;
use vstd::string::*;

verus! {

// ---- Secrets ----------------------------------------------------------------

/// Whether a token begins at index `i`.
pub open spec fn token_at(s: Seq<char>, i: int) -> bool {
    &&& 0 <= i
    &&& i + 5 <= s.len()
    &&& s[i] == 'x'
    &&& s[i + 4] == '-'
    &&& (s[i + 1] == 'a' && s[i + 2] == 'p' && s[i + 3] == 'p') || (s[i + 1] == 'o' && s[i + 2]
        == 'x' && (s[i + 3] == 'a' || s[i + 3] == 'b' || s[i + 3] == 'o' || s[i + 3] == 'p' || s[i
        + 3] == 'r' || s[i + 3] == 's' || s[i + 3] == 'c'))
}

/// Whether a character may be part of a token.
pub open spec fn in_token(c: char) -> bool {
    text::is_ascii_alnum(c) || c == '-' || c == '_'
}

/// The end of the token that goes on at index `i`.
pub open spec fn token_end(s: Seq<char>, i: int) -> int
    decreases s.len() - i,
{
    if 0 <= i < s.len() && in_token(s[i]) {
        token_end(s, i + 1)
    } else {
        i
    }
}

proof fn lemma_token_end(s: Seq<char>, i: int)
    requires
        0 <= i <= s.len(),
    ensures
        i <= token_end(s, i) <= s.len(),
    decreases s.len() - i,
{
    if i < s.len() && in_token(s[i]) {
        lemma_token_end(s, i + 1);
    }
}

/// `s` from index `i` on, with every token blacked out.
pub open spec fn redacted_from(s: Seq<char>, i: int) -> Seq<char>
    decreases s.len() - i,
    when 0 <= i <= s.len()
    via redacted_from_decreases
{
    if i == s.len() {
        Seq::empty()
    } else if token_at(s, i) {
        "[redacted]"@ + redacted_from(s, token_end(s, i + 5))
    } else {
        seq![s[i]] + redacted_from(s, i + 1)
    }
}

#[via_fn]
proof fn redacted_from_decreases(s: Seq<char>, i: int) {
    if token_at(s, i) {
        lemma_token_end(s, i + 5);
    }
}

/// `s` with every token blacked out, and without an address and what follows it.
pub open spec fn sanitized(s: Seq<char>) -> Seq<char> {
    let clean = redacted_from(s, 0);
    let at = text::next_match(clean, "https://"@, 0);
    if at < clean.len() {
        clean.take(at) + "[private-url]"@
    } else {
        clean
    }
}

fn begins_token(s: &[char], i: usize) -> (b: bool)
    requires
        i < s@.len(),
    ensures
        b == token_at(s@, i as int),
{
    if s.len() - i < 5 || s[i] != 'x' || s[i + 4] != '-' {
        return false;
    }
    if s[i + 1] == 'a' {
        return s[i + 2] == 'p' && s[i + 3] == 'p';
    }
    let kind = s[i + 3];
    s[i + 1] == 'o' && s[i + 2] == 'x' && (kind == 'a' || kind == 'b' || kind == 'o' || kind == 'p'
        || kind == 'r' || kind == 's' || kind == 'c')
}

fn redact(s: &[char]) -> (out: Vec<char>)
    ensures
        out@ == redacted_from(s@, 0),
{
    let mut out: Vec<char> = Vec::new();
    let n: usize = s.len();
    let mut i: usize = 0;
    while i < n
        invariant
            n == s@.len(),
            i <= n,
            out@ + redacted_from(s@, i as int) =~= redacted_from(s@, 0),
        decreases n - i,
    {
        let ghost before = out@;
        if begins_token(s, i) {
            text::push_str(&mut out, "[redacted]");
            let mut k: usize = i + 5;
            while k < n && (text::is_ascii_alphanumeric(s[k]) || s[k] == '-' || s[k] == '_')
                invariant
                    n == s@.len(),
                    i + 5 <= k <= n,
                    token_end(s@, i + 5) == token_end(s@, k as int),
                decreases n - k,
            {
                k = k + 1;
            }
            assert(out@ + redacted_from(s@, k as int) =~= before + ("[redacted]"@ + redacted_from(
                s@,
                k as int,
            )));
            i = k;
        } else {
            out.push(s[i]);
            assert(out@ + redacted_from(s@, i + 1) =~= before + (seq![s@[i as int]]
                + redacted_from(s@, i + 1)));
            i = i + 1;
        }
    }
    out
}

/// `input` with every token blacked out, and without an address and what follows
/// it.
pub fn sanitize(input: &str) -> (out: String)
    ensures
        out@ == sanitized(input@),
{
    let chars = text::to_chars(input);
    let clean = redact(chars.as_slice());
    let mark = text::to_chars("https://");
    let at: usize = text::find_match(clean.as_slice(), mark.as_slice(), 0);
    if at < clean.len() {
        let mut out = text::copy_chars(text::take(clean.as_slice(), at));
        text::push_str(&mut out, "[private-url]");
        text::from_chars(out.as_slice())
    } else {
        text::from_chars(clean.as_slice())
    }
}

/// As far as nothing is blacked out, the text is what it was.
proof fn lemma_redacted_prefix(s: Seq<char>, i: int, n: int)
    requires
        0 <= i <= s.len(),
        0 <= n <= redacted_from(s, i).len(),
        !redacted_from(s, i).take(n).contains('['),
    ensures
        i + n <= s.len(),
        redacted_from(s, i).take(n) == s.subrange(i, i + n),
    decreases n,
{
    let out = redacted_from(s, i);
    if n == 0 {
        assert(out.take(0) =~= s.subrange(i, i));
    } else if token_at(s, i) {
        reveal_strlit("[redacted]");
        assert(out.take(n)[0] == '[');
    } else {
        let rest = redacted_from(s, i + 1);
        assert(out.take(n) =~= seq![s[i]] + rest.take(n - 1));
        let less = rest.take(n - 1);
        assert(!less.contains('[')) by {
            assert forall|k: int| 0 <= k < less.len() implies less[k] != '[' by {
                assert(out.take(n)[k + 1] == less[k]);
            }
        }
        lemma_redacted_prefix(s, i + 1, n - 1);
        assert(seq![s[i]] + s.subrange(i + 1, i + n) =~= s.subrange(i, i + n));
    }
}

/// No token is left in a text that was blacked out.
pub proof fn no_token_is_left(s: Seq<char>, i: int, k: int)
    requires
        0 <= i <= s.len(),
    ensures
        !token_at(redacted_from(s, i), k),
    decreases s.len() - i,
{
    let out = redacted_from(s, i);
    if i < s.len() && token_at(out, k) {
        reveal_strlit("[redacted]");
        if token_at(s, i) {
            let next = token_end(s, i + 5);
            lemma_token_end(s, i + 5);
            let rest = redacted_from(s, next);
            if k >= 10 {
                no_token_is_left(s, next, k - 10);
                assert(out[k] == rest[k - 10] && out[k + 1] == rest[k - 9] && out[k + 2] == rest[k
                    - 8] && out[k + 3] == rest[k - 7] && out[k + 4] == rest[k - 6]);
            } else {
                assert(out[k] == "[redacted]"@[k]);
            }
        } else {
            let rest = redacted_from(s, i + 1);
            if k > 0 {
                no_token_is_left(s, i + 1, k - 1);
                assert(out[k] == rest[k - 1] && out[k + 1] == rest[k] && out[k + 2] == rest[k + 1]
                    && out[k + 3] == rest[k + 2] && out[k + 4] == rest[k + 3]);
            } else {
                let head = out.take(5);
                assert forall|j: int| 0 <= j < head.len() implies head[j] != '[' by {
                    assert(head[j] == out[j]);
                }
                lemma_redacted_prefix(s, i, 5);
                assert(out.take(5)[0] == s[i] && out.take(5)[1] == s[i + 1] && out.take(5)[2]
                    == s[i + 2] && out.take(5)[3] == s[i + 3] && out.take(5)[4] == s[i + 4]);
                assert(out.take(5)[0] == out[0] && out.take(5)[1] == out[1] && out.take(5)[2]
                    == out[2] && out.take(5)[3] == out[3] && out.take(5)[4] == out[4]);
            }
        }
    }
}

proof fn lemma_next_match(s: Seq<char>, pattern: Seq<char>, i: int, k: int)
    requires
        0 <= i <= k < text::next_match(s, pattern, i),
    ensures
        k < s.len(),
        !text::begins_with(s.skip(k), pattern),
    decreases s.len() - i,
{
    if i < k {
        lemma_next_match(s, pattern, i + 1, k);
    }
}

/// Whatever a text holds, none of its tokens and no address is left when it has
/// been sanitized.
pub proof fn sanitized_text_holds_no_secret(s: Seq<char>, k: int)
    requires
        0 <= k < sanitized(s).len(),
    ensures
        !token_at(sanitized(s), k),
        !text::begins_with(sanitized(s).skip(k), "https://"@),
{
    reveal_strlit("https://");
    reveal_strlit("[private-url]");
    let clean = redacted_from(s, 0);
    let at = text::next_match(clean, "https://"@, 0);
    let out = sanitized(s);
    no_token_is_left(s, 0, k);
    lemma_match_bounds(clean, "https://"@, 0);
    if at < clean.len() {
        if token_at(out, k) {
            if k + 5 <= at {
                assert(out[k] == clean[k] && out[k + 1] == clean[k + 1] && out[k + 2] == clean[k
                    + 2] && out[k + 3] == clean[k + 3] && out[k + 4] == clean[k + 4]);
            } else if k <= at {
                assert(out[at] == '[');
                assert(k + (at - k) == at);
            } else {
                assert(out[k] == "[private-url]"@[k - at]);
            }
        }
        if text::begins_with(out.skip(k), "https://"@) {
            let p = "https://"@;
            assert forall|j: int| 0 <= j < 8 implies out[k + j] == #[trigger] p[j] by {
                assert(out.skip(k).take(8)[j] == p[j]);
            }
            if k + 8 <= at {
                lemma_next_match(clean, p, 0, k);
                let part = clean.skip(k).take(8);
                assert(part =~= p) by {
                    assert forall|j: int| 0 <= j < 8 implies part[j] == #[trigger] p[j] by {
                        assert(out[k + j] == clean[k + j]);
                    }
                }
            } else if k <= at {
                assert(out[at] == '[');
                assert(out[k + (at - k)] == p[at - k]);
                assert(forall|j: int| 0 <= j < 8 ==> #[trigger] p[j] != '[');
            } else {
                let note = "[private-url]"@;
                assert(out[k] == note[k - at]);
                assert(out[k + 0] == p[0]);
                assert(forall|j: int| 0 <= j < note.len() ==> #[trigger] note[j] != 'h');
            }
        }
    } else if text::begins_with(out.skip(k), "https://"@) {
        lemma_next_match(clean, "https://"@, 0, k);
    }
}

proof fn lemma_match_bounds(s: Seq<char>, pattern: Seq<char>, i: int)
    requires
        0 <= i <= s.len(),
    ensures
        i <= text::next_match(s, pattern, i) <= s.len(),
    decreases s.len() - i,
{
    if i < s.len() && !text::begins_with(s.skip(i), pattern) {
        lemma_match_bounds(s, pattern, i + 1);
    }
}

// ---- Errors -----------------------------------------------------------------

/// Why a request to Slack failed.
#[derive(Clone, Debug, PartialEq, Eq)]
pub struct SlackError {
    /// A code that holds no secret.
    pub code: String,
    /// Seconds after which the request may be made again.
    pub retry_after: Option<u64>,
}

impl SlackError {
    /// An error with a code, which is sanitized.
    pub fn new(code: &str, retry_after: Option<u64>) -> (e: SlackError)
        ensures
            e.code@ == sanitized(code@),
            e.retry_after == retry_after,
    {
        SlackError { code: sanitize(code), retry_after }
    }

    /// What is wrong.
    pub fn message(&self) -> (text: String)
        ensures
            text@ == "Slack API error: "@ + self.code@,
    {
        let mut text = "Slack API error: ".to_owned();
        text.append(self.code.as_str());
        text
    }
}

/// The seconds of a `retry-after` header.
pub fn retry_after(header: Option<&str>) -> (r: Option<u64>)
    ensures
        match r {
            Some(n) => header is Some && text::numeral(header->0@) == Some(n as nat),
            None => header is None || text::numeral(header->0@) is None || text::numeral(
                header->0@,
            )->0 > u64::MAX,
        },
{
    match header {
        Some(value) => {
            let chars = text::to_chars(value);
            text::parse_number(chars.as_slice(), u64::MAX)
        },
        None => None,
    }
}

// ---- Responses --------------------------------------------------------------

/// `list` with `name` put where it belongs.
pub open spec fn inserted(list: Seq<Seq<char>>, name: Seq<char>) -> Seq<Seq<char>>
    decreases list.len(),
{
    if list.len() > 0 && text::stands_before(name, list.last()) {
        inserted(list.drop_last(), name).push(list.last())
    } else {
        list.push(name)
    }
}

/// `names` in order.
pub open spec fn in_order(names: Seq<Seq<char>>) -> Seq<Seq<char>>
    decreases names.len(),
{
    if names.len() == 0 {
        names
    } else {
        inserted(in_order(names.drop_last()), names.last())
    }
}

/// The names of an object's members.
pub open spec fn member_names(members: Seq<json::MemberView>) -> Seq<Seq<char>> {
    Seq::new(members.len(), |i: int| members[i].name)
}

/// The names of a value's members in order, or that it is no object.
pub open spec fn shape_of(value: JsonView) -> Seq<char> {
    match value {
        JsonView::Object(members) => text::joined(in_order(member_names(members)), "_"@),
        _ => "non_object"@,
    }
}

fn insert_name(list: &mut Vec<Vec<char>>, name: Vec<char>)
    ensures
        text::vec_views(final(list)@) == inserted(text::vec_views(old(list)@), name@),
{
    let ghost all = text::vec_views(list@);
    let mut k: usize = list.len();
    assert(all.take(k as int) =~= all);
    assert(inserted(all, name@) =~= inserted(all, name@) + all.skip(k as int));
    while k > 0 && text::precedes(name.as_slice(), list[k - 1].as_slice())
        invariant
            k <= list@.len(),
            *list == *old(list),
            all == text::vec_views(list@),
            inserted(all, name@) == inserted(all.take(k as int), name@) + all.skip(k as int),
        decreases k,
    {
        let ghost head = all.take(k as int);
        assert(head.last() == list@[k - 1]@);
        assert(head.drop_last() =~= all.take(k - 1));
        assert(inserted(all.take(k - 1), name@).push(head.last()) + all.skip(k as int)
            =~= inserted(all.take(k - 1), name@) + all.skip(k - 1));
        k = k - 1;
    }
    let ghost shown = name@;
    proof {
        let head = all.take(k as int);
        if k > 0 {
            assert(head.last() == list@[k - 1]@);
        }
        assert(inserted(head, shown) =~= head.push(shown));
    }
    list.insert(k, name);
    assert(text::vec_views(list@) =~= all.take(k as int).push(shown) + all.skip(k as int));
}

fn describe_shape(value: &Json) -> (out: Vec<char>)
    ensures
        out@ == shape_of(value@),
{
    proof {
        json::lemma_parts(*value);
    }
    match value {
        Json::Object(members) => {
            let ghost names = member_names(json::member_views(members@));
            let mut list: Vec<Vec<char>> = Vec::new();
            let mut i: usize = 0;
            assert(text::vec_views(list@) =~= in_order(names.take(0)));
            while i < members.len()
                invariant
                    names == member_names(json::member_views(members@)),
                    i <= members@.len(),
                    text::vec_views(list@) == in_order(names.take(i as int)),
                decreases members@.len() - i,
            {
                assert(names.take(i + 1).drop_last() =~= names.take(i as int));
                assert(names.take(i + 1).last() == members@[i as int].name@);
                insert_name(&mut list, text::to_chars(members[i].name.as_str()));
                i = i + 1;
            }
            assert(names.take(i as int) =~= names);
            text::join(&list, "_")
        },
        _ => text::to_chars("non_object"),
    }
}

/// Whether no name stands before the one that it follows.
pub open spec fn ordered(list: Seq<Seq<char>>) -> bool {
    forall|i: int|
        0 < i < list.len() ==> !text::stands_before(#[trigger] list[i], list[i - 1])
}

proof fn lemma_inserted(list: Seq<Seq<char>>, name: Seq<char>)
    requires
        ordered(list),
    ensures
        ordered(inserted(list, name)),
        inserted(list, name).len() == list.len() + 1,
        inserted(list, name).last() == name || (list.len() > 0 && inserted(list, name).last()
            == list.last()),
    decreases list.len(),
{
    if list.len() > 0 && text::stands_before(name, list.last()) {
        let init = list.drop_last();
        assert forall|i: int| 0 < i < init.len() implies !text::stands_before(
            #[trigger] init[i],
            init[i - 1],
        ) by {
            assert(!text::stands_before(list[i], list[i - 1]));
        }
        lemma_inserted(init, name);
        let less = inserted(init, name);
        let all = less.push(list.last());
        text::lemma_order_is_strict(name, list.last());
        assert forall|i: int| 0 < i < all.len() implies !text::stands_before(
            #[trigger] all[i],
            all[i - 1],
        ) by {
            if i == all.len() - 1 {
                if init.len() > 0 && less.last() == init.last() {
                    assert(!text::stands_before(list[list.len() - 1], list[list.len() - 2]));
                }
            } else {
                assert(!text::stands_before(less[i], less[i - 1]));
            }
        }
    }
}

/// The names of a shape stand in order, and there are as many as there were.
pub proof fn names_are_put_in_order(names: Seq<Seq<char>>)
    ensures
        ordered(in_order(names)),
        in_order(names).len() == names.len(),
    decreases names.len(),
{
    if names.len() > 0 {
        names_are_put_in_order(names.drop_last());
        lemma_inserted(in_order(names.drop_last()), names.last());
    }
}

/// Whether a response says that it succeeded, and else why, where it says so at all.
pub open spec fn stated_status(value: JsonView) -> Option<(bool, Option<Seq<char>>)> {
    if json::is_record(value, 2) {
        match (json::field(value, "ok"@, 0), json::field(value, "error"@, 1)) {
            (Some(JsonView::Bool(ok)), None) => Some((ok, None)),
            (Some(JsonView::Bool(ok)), Some(JsonView::Null)) => Some((ok, None)),
            (Some(JsonView::Bool(ok)), Some(JsonView::Text(error))) => Some((ok, Some(error))),
            _ => None,
        }
    } else {
        None
    }
}

/// The code for a body that is no JSON.
pub open spec fn unreadable(status: u16, content_type: Seq<char>, bytes: u64) -> Seq<char> {
    "invalid_api_response_status_"@ + text::decimal(status as nat) + "_type_"@ + text::capped(
        sanitized(content_type),
        40,
    ) + "_bytes_"@ + text::decimal(bytes as nat)
}

/// The code of what is wrong with a response, and whether it says when to try again.
pub open spec fn response_fault(
    status: u16,
    content_type: Seq<char>,
    bytes: u64,
    body: Option<JsonView>,
) -> Option<(Seq<char>, bool)> {
    if status == 429 {
        Some(("rate_limited"@, true))
    } else if !(200 <= status < 300) {
        Some(("http_error"@, true))
    } else {
        match body {
            None => Some((unreadable(status, content_type, bytes), false)),
            Some(value) => match stated_status(value) {
                None => Some(("invalid_api_shape_fields_"@ + shape_of(value), false)),
                // What a success brings stands under names, so no list is one.
                Some((true, _)) => if value is Object {
                    None
                } else {
                    Some(("invalid_api_shape_fields_"@ + shape_of(value), false))
                },
                Some((false, None)) => Some(("unknown_error"@, true)),
                Some((false, Some(error))) => Some((error, true)),
            },
        }
    }
}

/// The error for a body that has not the shape that was asked for.
pub fn shape_error(value: &Json) -> (e: SlackError)
    ensures
        e.code@ == sanitized("invalid_api_shape_fields_"@ + shape_of(value@)),
        e.retry_after is None,
{
    let mut code = text::to_chars("invalid_api_shape_fields_");
    text::push_all(&mut code, describe_shape(value).as_slice());
    SlackError::new(text::from_chars(code.as_slice()).as_str(), None)
}

/// Whether an error tells of the fault of a response, and when to try again where the
/// fault says so.
pub open spec fn reports_fault(
    e: SlackError,
    fault: Option<(Seq<char>, bool)>,
    retry_after: Option<u64>,
) -> bool {
    fault is Some && e.code@ == sanitized((fault->0).0) && e.retry_after == (if (fault->0).1 {
        retry_after
    } else {
        None
    })
}

/// Whether a response succeeded: by its status, and by what its body says. The body
/// is `None` where it is no JSON.
pub fn judge_response(
    status: u16,
    content_type: &str,
    bytes: u64,
    body: Option<&Json>,
    retry_after: Option<u64>,
) -> (r: Result<(), SlackError>)
    ensures
        ({
            let fault = response_fault(status, content_type@, bytes, json::opt_view(body));
            match r {
                Ok(_) => fault is None,
                Err(e) => reports_fault(e, fault, retry_after),
            }
        }),
{
    if status == 429 {
        return Err(SlackError::new("rate_limited", retry_after));
    }
    if status < 200 || status >= 300 {
        return Err(SlackError::new("http_error", retry_after));
    }
    let value = match body {
        Some(value) => value,
        None => {
            let mut code = text::to_chars("invalid_api_response_status_");
            text::push_all(&mut code, text::decimal_chars(status as u64).as_slice());
            text::push_str(&mut code, "_type_");
            let kind = text::to_chars(sanitize(content_type).as_str());
            text::push_all(&mut code, text::cap(kind.as_slice(), 40));
            text::push_str(&mut code, "_bytes_");
            text::push_all(&mut code, text::decimal_chars(bytes).as_slice());
            return Err(SlackError::new(text::from_chars(code.as_slice()).as_str(), None));
        },
    };
    if !value.holds_record(2) {
        return Err(shape_error(value));
    }
    let error = match (value.get_field("ok", 0), value.get_field("error", 1)) {
        (Some(Json::Bool(true)), None | Some(Json::Null) | Some(Json::Text(_))) => {
            return if value.is_object() {
                Ok(())
            } else {
                Err(shape_error(value))
            };
        },
        (Some(Json::Bool(false)), None | Some(Json::Null)) => "unknown_error",
        (Some(Json::Bool(false)), Some(Json::Text(error))) => error.as_str(),
        _ => {
            return Err(shape_error(value));
        },
    };
    Err(SlackError::new(error, retry_after))
}

/// The value that the body of a response holds, or why the response is none that was
/// hoped for.
pub fn check_response(
    status: u16,
    content_type: &str,
    body: &str,
    retry_after: Option<u64>,
) -> (r: Result<Json, SlackError>)
    ensures
        ({
            let value = json::text_value(body@);
            let fault = response_fault(
                status,
                content_type@,
                text::utf8_units(body@) as u64,
                value,
            );
            match r {
                Ok(read) => fault is None && value == Some(read@),
                Err(e) => reports_fault(e, fault, retry_after),
            }
        }),
{
    let value = json::parse_text(body);
    let bytes: usize = text::byte_len(body);
    match judge_response(status, content_type, bytes as u64, value.as_ref(), retry_after) {
        Ok(_) => match value {
            Some(read) => Ok(read),
            // A body that is no JSON has been refused.
            None => Err(SlackError::new("http_error", retry_after)),
        },
        Err(e) => Err(e),
    }
}

/// Whether methods can be called under an address.
pub fn check_base(base: &str) -> (r: Result<(), SlackError>)
    ensures
        match r {
            Ok(_) => urls::url_parts(base@) is Some,
            Err(e) => urls::url_parts(base@) is None && e.code@ == sanitized("invalid_api_base"@)
                && e.retry_after is None,
        },
{
    match urls::read_url(base) {
        Some(_) => Ok(()),
        None => Err(SlackError::new("invalid_api_base", None)),
    }
}

/// The address of a method under the address `base`.
pub fn endpoint(base: &str, method: &str) -> (r: Result<String, SlackError>)
    ensures
        match r {
            Ok(url) => urls::resolved(base@, method@) == Some(url@),
            Err(e) => urls::resolved(base@, method@) is None && e.code@ == sanitized(
                "invalid_api_method"@,
            ) && e.retry_after is None,
        },
{
    match urls::resolve(base, method) {
        Some(url) => Ok(url),
        None => Err(SlackError::new("invalid_api_method", None)),
    }
}

/// Whether an address is one that a socket can be opened to.
pub fn check_socket_url(url: &str) -> (r: Result<(), SlackError>)
    ensures
        match r {
            Ok(_) => text::begins_with(url@, "wss://"@),
            Err(e) => !text::begins_with(url@, "wss://"@) && e.code@ == sanitized(
                "invalid_socket_url"@,
            ) && e.retry_after is None,
        },
{
    let chars = text::to_chars(url);
    if text::starts_with(chars.as_slice(), "wss://") {
        Ok(())
    } else {
        Err(SlackError::new("invalid_socket_url", None))
    }
}

/// Whether a file may be sent to an address.
pub fn check_upload_url(url: &str) -> (r: Result<(), SlackError>)
    ensures
        match r {
            Ok(_) => urls::url_parts(url@) is Some && attachments::is_slack_address(
                urls::url_parts(url@)->0,
            ),
            Err(e) => e.retry_after is None && e.code@ == sanitized(
                if urls::url_parts(url@) is None {
                    "invalid_upload_url"@
                } else {
                    "untrusted_upload_url"@
                },
            ) && !(urls::url_parts(url@) is Some && attachments::is_slack_address(
                urls::url_parts(url@)->0,
            )),
        },
{
    attachments::check_address(url, "invalid_upload_url", "untrusted_upload_url")
}

/// Whether a name is one that a file can be sent under.
pub open spec fn is_upload_name(name: Seq<char>) -> bool {
    0 < text::utf8_units(name) <= 255 && !name.contains('/') && !name.contains('\\')
}

/// Whether a file may be sent: it is not too large, and its name is a name.
pub fn check_upload(filename: &str, bytes: u64) -> (r: Result<(), SlackError>)
    ensures
        match r {
            Ok(_) => bytes <= attachments::MAX_UPLOAD_BYTES && is_upload_name(filename@),
            Err(e) => e.retry_after is None && e.code@ == sanitized(
                if bytes > attachments::MAX_UPLOAD_BYTES {
                    "upload_file_too_large"@
                } else {
                    "invalid_upload_filename"@
                },
            ) && !(bytes <= attachments::MAX_UPLOAD_BYTES && is_upload_name(filename@)),
        },
{
    if bytes > attachments::MAX_UPLOAD_BYTES {
        return Err(SlackError::new("upload_file_too_large", None));
    }
    let chars = text::to_chars(filename);
    let size: usize = text::byte_len(filename);
    if size == 0 || size > 255 || text::contains_char(chars.as_slice(), '/') || text::contains_char(
        chars.as_slice(),
        '\\',
    ) {
        return Err(SlackError::new("invalid_upload_filename", None));
    }
    Ok(())
}

/// A message of a thread.
#[derive(Clone, Debug, PartialEq, Eq)]
pub struct ReplyMessage {
    pub ts: String,
    pub thread_ts: Option<String>,
}

/// The thread of the first message with a timestamp.
pub open spec fn thread_of(messages: Seq<ReplyMessage>, ts: Seq<char>) -> Option<Seq<char>>
    decreases messages.len(),
{
    if messages.len() == 0 {
        None
    } else if messages[0].ts@ == ts {
        text::opt_view(messages[0].thread_ts)
    } else {
        thread_of(messages.skip(1), ts)
    }
}

/// The thread of the message with a timestamp.
pub fn find_thread(messages: &Vec<ReplyMessage>, timestamp: &str) -> (r: Option<String>)
    ensures
        text::opt_view(r) == thread_of(messages@, timestamp@),
{
    let mut i: usize = 0;
    assert(messages@.skip(0) =~= messages@);
    while i < messages.len()
        invariant
            i <= messages@.len(),
            thread_of(messages@, timestamp@) == thread_of(messages@.skip(i as int), timestamp@),
        decreases messages@.len() - i,
    {
        assert(messages@.skip(i as int).skip(1) =~= messages@.skip(i + 1));
        if text::str_eq(messages[i].ts.as_str(), timestamp) {
            return match &messages[i].thread_ts {
                Some(ts) => Some(ts.as_str().to_owned()),
                None => None,
            };
        }
        i = i + 1;
    }
    None
}

// ---- Listings ---------------------------------------------------------------

/// The most pages of a listing that are asked for.
pub const MAX_LIST_PAGES: usize = 10;

/// Who the bot is.
#[derive(Clone, Debug, PartialEq, Eq)]
pub struct SlackIdentity {
    pub user_id: String,
    pub team_id: String,
    pub bot_id: Option<String>,
}

/// A message that was sent.
#[derive(Clone, Debug, PartialEq, Eq)]
pub struct SentMessage {
    pub channel: String,
    pub ts: String,
}

/// A user.
#[derive(Clone, Debug, PartialEq, Eq)]
pub struct SlackUser {
    pub id: String,
    pub name: String,
    pub real_name: String,
    pub deleted: bool,
    pub is_bot: bool,
}

/// A channel.
#[derive(Clone, Debug, PartialEq, Eq)]
pub struct SlackChannel {
    pub id: String,
    pub name: String,
    pub is_archived: bool,
    pub is_member: bool,
}

/// A text in lower case, as `str::to_lowercase` gives it.
pub uninterp spec fn unicode_lowercase(s: Seq<char>) -> Seq<char>;

/// `str::to_lowercase`: the lower case of a text depends on the text alone.
#[verifier::external_body]
fn to_lowercase(s: &str) -> (r: String)
    ensures
        r@ == unicode_lowercase(s@),
{
    s.to_lowercase()
}

/// Whether `pattern` stands somewhere in `s`.
pub open spec fn holds(s: Seq<char>, pattern: Seq<char>) -> bool {
    pattern.len() == 0 || text::next_match(s, pattern, 0) < s.len()
}

/// Whether `pattern` stands somewhere in `s`.
pub fn holds_text(s: &str, pattern: &str) -> (b: bool)
    ensures
        b == holds(s@, pattern@),
{
    let chars = text::to_chars(s);
    let wanted = text::to_chars(pattern);
    wanted.len() == 0 || text::find_match(chars.as_slice(), wanted.as_slice(), 0) < chars.len()
}

/// Whether one of `values`, in lower case, holds the query; any does where there is
/// none.
pub open spec fn matched(query: Option<Seq<char>>, values: Seq<Seq<char>>) -> bool {
    match query {
        Some(wanted) => exists|i: int|
            0 <= i < values.len() && holds(unicode_lowercase(#[trigger] values[i]), wanted),
        None => true,
    }
}

/// The views of a list of texts.
pub open spec fn str_views(list: Seq<&str>) -> Seq<Seq<char>> {
    Seq::new(list.len(), |i: int| list[i]@)
}

/// Whether one of `values`, in lower case, holds the query, which is in lower case.
pub fn matches_query(query: Option<&str>, values: &[&str]) -> (b: bool)
    ensures
        b == matched(text::opt_str_view(query), str_views(values@)),
{
    let wanted = match query {
        Some(s) => s,
        None => {
            return true;
        },
    };
    let ghost all = str_views(values@);
    let mut i: usize = 0;
    while i < values.len()
        invariant
            query is Some,
            wanted@ == query->0@,
            all == str_views(values@),
            i <= values@.len(),
            forall|j: int|
                0 <= j < i ==> !holds(unicode_lowercase(#[trigger] all[j]), wanted@),
        decreases values@.len() - i,
    {
        assert(all[i as int] == values@[i as int]@);
        if holds_text(to_lowercase(values[i]).as_str(), wanted) {
            return true;
        }
        i = i + 1;
    }
    false
}

/// Adds as much of a page as the limit leaves room for.
pub fn extend_page<T>(destination: &mut Vec<T>, page: Vec<T>, limit: usize)
    ensures
        final(destination)@ == old(destination)@ + page@.take(
            if limit <= old(destination)@.len() {
                0
            } else if limit - old(destination)@.len() <= page@.len() {
                limit - old(destination)@.len()
            } else {
                page@.len() as int
            },
        ),
{
    let mut page = page;
    let room: usize = if limit <= destination.len() {
        0
    } else {
        limit - destination.len()
    };
    if room < page.len() {
        page.truncate(room);
    }
    destination.append(&mut page);
}

/// Whether one more page of a listing is asked for: the first always, others while
/// there is a cursor; not beyond the most pages, nor where enough was found.
pub fn wants_page(pages: usize, found: usize, limit: usize, cursor: &str) -> (b: bool)
    ensures
        b == (pages < MAX_LIST_PAGES && found < limit && (pages == 0 || cursor@.len() > 0)),
{
    pages < MAX_LIST_PAGES && found < limit && (pages == 0 || !cursor.is_empty())
}

/// The users that are active and human.
pub open spec fn active_users(users: Seq<SlackUser>) -> Seq<SlackUser>
    decreases users.len(),
{
    if users.len() == 0 {
        users
    } else {
        let before = active_users(users.drop_last());
        if !users.last().deleted && !users.last().is_bot {
            before.push(users.last())
        } else {
            before
        }
    }
}

/// The channels that are not archived.
pub open spec fn active_channels(channels: Seq<SlackChannel>) -> Seq<SlackChannel>
    decreases channels.len(),
{
    if channels.len() == 0 {
        channels
    } else {
        let before = active_channels(channels.drop_last());
        if !channels.last().is_archived {
            before.push(channels.last())
        } else {
            before
        }
    }
}

/// The users that a query in lower case finds.
pub open spec fn found_users(users: Seq<SlackUser>, query: Option<Seq<char>>) -> Seq<SlackUser>
    decreases users.len(),
{
    if users.len() == 0 {
        users
    } else {
        let before = found_users(users.drop_last(), query);
        if matched(query, seq![users.last().name@, users.last().real_name@]) {
            before.push(users.last())
        } else {
            before
        }
    }
}

/// The channels that a query in lower case finds.
pub open spec fn found_channels(channels: Seq<SlackChannel>, query: Option<Seq<char>>) -> Seq<
    SlackChannel,
>
    decreases channels.len(),
{
    if channels.len() == 0 {
        channels
    } else {
        let before = found_channels(channels.drop_last(), query);
        if matched(query, seq![channels.last().name@]) {
            before.push(channels.last())
        } else {
            before
        }
    }
}

/// The users that are active and human.
pub fn public_users(users: Vec<SlackUser>) -> (list: Vec<SlackUser>)
    ensures
        list@ == active_users(users@),
{
    let ghost all = users@;
    let mut list = users;
    let mut i: usize = 0;
    let ghost mut k: int = 0;
    assert(all.take(0) =~= Seq::<SlackUser>::empty());
    while i < list.len()
        invariant
            0 <= k <= all.len(),
            i <= list@.len(),
            list@.len() - i == all.len() - k,
            list@.take(i as int) == active_users(all.take(k)),
            list@.skip(i as int) == all.skip(k),
        decreases all.len() - k,
    {
        let ghost before = list@;
        assert(list@.skip(i as int)[0] == all.skip(k)[0]);
        assert(all.take(k + 1).drop_last() =~= all.take(k));
        assert(all.skip(k).skip(1) =~= all.skip(k + 1));
        if list[i].deleted || list[i].is_bot {
            list.remove(i);
            assert(list@.take(i as int) =~= before.take(i as int));
            assert(list@.skip(i as int) =~= before.skip(i as int).skip(1));
        } else {
            i = i + 1;
            assert(list@.take(i as int) =~= before.take(i - 1).push(before[i - 1]));
            assert(list@.skip(i as int) =~= before.skip(i - 1).skip(1));
        }
        proof {
            k = k + 1;
        }
    }
    assert(list@.take(i as int) =~= list@);
    assert(all.take(k) =~= all);
    list
}

/// The channels that are not archived.
pub fn public_channels(channels: Vec<SlackChannel>) -> (list: Vec<SlackChannel>)
    ensures
        list@ == active_channels(channels@),
{
    let ghost all = channels@;
    let mut list = channels;
    let mut i: usize = 0;
    let ghost mut k: int = 0;
    assert(all.take(0) =~= Seq::<SlackChannel>::empty());
    while i < list.len()
        invariant
            0 <= k <= all.len(),
            i <= list@.len(),
            list@.len() - i == all.len() - k,
            list@.take(i as int) == active_channels(all.take(k)),
            list@.skip(i as int) == all.skip(k),
        decreases all.len() - k,
    {
        let ghost before = list@;
        assert(list@.skip(i as int)[0] == all.skip(k)[0]);
        assert(all.take(k + 1).drop_last() =~= all.take(k));
        assert(all.skip(k).skip(1) =~= all.skip(k + 1));
        if list[i].is_archived {
            list.remove(i);
            assert(list@.take(i as int) =~= before.take(i as int));
            assert(list@.skip(i as int) =~= before.skip(i as int).skip(1));
        } else {
            i = i + 1;
            assert(list@.take(i as int) =~= before.take(i - 1).push(before[i - 1]));
            assert(list@.skip(i as int) =~= before.skip(i - 1).skip(1));
        }
        proof {
            k = k + 1;
        }
    }
    assert(list@.take(i as int) =~= list@);
    assert(all.take(k) =~= all);
    list
}

fn lowered_query(query: Option<&str>) -> (r: Option<String>)
    ensures
        text::opt_view(r) == (match query {
            Some(s) => Some(unicode_lowercase(s@)),
            None => None,
        }),
{
    match query {
        Some(s) => Some(to_lowercase(s)),
        None => None,
    }
}

/// Adds the users of a page that are active, human and found by a query, as far as
/// the limit leaves room.
pub fn take_users(
    users: &mut Vec<SlackUser>,
    page: Vec<SlackUser>,
    query: Option<&str>,
    limit: usize,
)
    ensures
        ({
            let wanted = match query {
                Some(s) => Some(unicode_lowercase(s@)),
                None => None,
            };
            let found = found_users(active_users(page@), wanted);
            final(users)@ == old(users)@ + found.take(
                if limit <= old(users)@.len() {
                    0
                } else if limit - old(users)@.len() <= found.len() {
                    limit - old(users)@.len()
                } else {
                    found.len() as int
                },
            )
        }),
{
    let wanted = lowered_query(query);
    let ghost sought = text::opt_view(wanted);
    let mut list = public_users(page);
    let ghost all = list@;
    let mut i: usize = 0;
    let ghost mut k: int = 0;
    assert(all.take(0) =~= Seq::<SlackUser>::empty());
    while i < list.len()
        invariant
            sought == text::opt_view(wanted),
            0 <= k <= all.len(),
            i <= list@.len(),
            list@.len() - i == all.len() - k,
            list@.take(i as int) == found_users(all.take(k), sought),
            list@.skip(i as int) == all.skip(k),
        decreases all.len() - k,
    {
        let ghost before = list@;
        assert(list@.skip(i as int)[0] == all.skip(k)[0]);
        assert(all.take(k + 1).drop_last() =~= all.take(k));
        assert(all.skip(k).skip(1) =~= all.skip(k + 1));
        let values = [list[i].name.as_str(), list[i].real_name.as_str()];
        assert(str_views(values@) =~= seq![before[i as int].name@, before[i as int].real_name@]);
        if matches_query(text::as_text(&wanted), values.as_slice()) {
            i = i + 1;
            assert(list@.take(i as int) =~= before.take(i - 1).push(before[i - 1]));
            assert(list@.skip(i as int) =~= before.skip(i - 1).skip(1));
        } else {
            list.remove(i);
            assert(list@.take(i as int) =~= before.take(i as int));
            assert(list@.skip(i as int) =~= before.skip(i as int).skip(1));
        }
        proof {
            k = k + 1;
        }
    }
    assert(list@.take(i as int) =~= list@);
    assert(all.take(k) =~= all);
    extend_page(users, list, limit);
}

/// Adds the channels of a page that are not archived and found by a query, as far
/// as the limit leaves room.
pub fn take_channels(
    channels: &mut Vec<SlackChannel>,
    page: Vec<SlackChannel>,
    query: Option<&str>,
    limit: usize,
)
    ensures
        ({
            let wanted = match query {
                Some(s) => Some(unicode_lowercase(s@)),
                None => None,
            };
            let found = found_channels(active_channels(page@), wanted);
            final(channels)@ == old(channels)@ + found.take(
                if limit <= old(channels)@.len() {
                    0
                } else if limit - old(channels)@.len() <= found.len() {
                    limit - old(channels)@.len()
                } else {
                    found.len() as int
                },
            )
        }),
{
    let wanted = lowered_query(query);
    let ghost sought = text::opt_view(wanted);
    let mut list = public_channels(page);
    let ghost all = list@;
    let mut i: usize = 0;
    let ghost mut k: int = 0;
    assert(all.take(0) =~= Seq::<SlackChannel>::empty());
    while i < list.len()
        invariant
            sought == text::opt_view(wanted),
            0 <= k <= all.len(),
            i <= list@.len(),
            list@.len() - i == all.len() - k,
            list@.take(i as int) == found_channels(all.take(k), sought),
            list@.skip(i as int) == all.skip(k),
        decreases all.len() - k,
    {
        let ghost before = list@;
        assert(list@.skip(i as int)[0] == all.skip(k)[0]);
        assert(all.take(k + 1).drop_last() =~= all.take(k));
        assert(all.skip(k).skip(1) =~= all.skip(k + 1));
        let values = [list[i].name.as_str()];
        assert(str_views(values@) =~= seq![before[i as int].name@]);
        if matches_query(text::as_text(&wanted), values.as_slice()) {
            i = i + 1;
            assert(list@.take(i as int) =~= before.take(i - 1).push(before[i - 1]));
            assert(list@.skip(i as int) =~= before.skip(i - 1).skip(1));
        } else {
            list.remove(i);
            assert(list@.take(i as int) =~= before.take(i as int));
            assert(list@.skip(i as int) =~= before.skip(i as int).skip(1));
        }
        proof {
            k = k + 1;
        }
    }
    assert(list@.take(i as int) =~= list@);
    assert(all.take(k) =~= all);
    extend_page(channels, list, limit);
}

} // verus!
