//! Inbound webhooks: verification, signatures, payloads and duplicates.

use crate::json;
use crate::json::{Json, JsonView};
use crate::text;
use hmac::{Hmac, Mac};
use sha2::Sha256;
use vstd::prelude::*;
use vstd::string::*;
use vstd::utf8::*;

verus! {

/// The most bytes of a request's body.
pub const MAX_BODY: usize = 3_145_728;

/// How many message ids are remembered.
pub const DEDUP_CAPACITY: usize = 5_000;

/// A text message that came in.
#[derive(Clone, Debug, PartialEq, Eq)]
pub struct Inbound {
    /// The sender: digits.
    pub wa_id: String,
    /// The sender's profile name.
    pub name: Option<String>,
    /// The id of the message.
    pub wamid: String,
    pub text: String,
}

/// What an inbound message holds.
#[verifier::ext_equal]
pub struct InboundView {
    pub wa_id: Seq<char>,
    pub name: Option<Seq<char>>,
    pub wamid: Seq<char>,
    pub text: Seq<char>,
}

impl View for Inbound {
    type V = InboundView;

    open spec fn view(&self) -> InboundView {
        InboundView {
            wa_id: self.wa_id@,
            name: text::opt_view(self.name),
            wamid: self.wamid@,
            text: self.text@,
        }
    }
}

/// What a list of inbound messages holds.
pub open spec fn inbound_views(list: Seq<Inbound>) -> Seq<InboundView> {
    Seq::new(list.len(), |i: int| list[i]@)
}

// ---- Duplicates -------------------------------------------------------------

/// The ids of recent messages, oldest first.
pub struct Dedup {
    order: Vec<String>,
}

impl View for Dedup {
    type V = Seq<Seq<char>>;

    closed spec fn view(&self) -> Seq<Seq<char>> {
        text::views(self.order@)
    }
}

impl Default for Dedup {
    fn default() -> (d: Dedup)
        ensures
            d@ == Seq::<Seq<char>>::empty(),
    {
        let d = Dedup { order: Vec::new() };
        assert(d@ =~= Seq::<Seq<char>>::empty());
        d
    }
}

/// `ids` with `id` added last; beyond the capacity the oldest is forgotten.
pub open spec fn remembering(ids: Seq<Seq<char>>, id: Seq<char>) -> Seq<Seq<char>> {
    if ids.len() + 1 > DEDUP_CAPACITY {
        ids.push(id).skip(1)
    } else {
        ids.push(id)
    }
}

/// `ids` without `id`.
pub open spec fn forgetting(ids: Seq<Seq<char>>, id: Seq<char>) -> Seq<Seq<char>>
    decreases ids.len(),
{
    if ids.len() == 0 {
        ids
    } else if ids.last() == id {
        forgetting(ids.drop_last(), id)
    } else {
        forgetting(ids.drop_last(), id).push(ids.last())
    }
}

impl Dedup {
    /// Remembers `id`; whether it was not yet known.
    pub fn insert(&mut self, id: &str) -> (fresh: bool)
        ensures
            fresh == !old(self)@.contains(id@),
            final(self)@ == if fresh {
                remembering(old(self)@, id@)
            } else {
                old(self)@
            },
    {
        if text::contains_str(self.order.as_slice(), id) {
            return false;
        }
        let ghost before = self.order@;
        self.order.push(id.to_owned());
        assert(text::views(self.order@) =~= text::views(before).push(id@));
        if self.order.len() > DEDUP_CAPACITY {
            let ghost full = self.order@;
            self.order.remove(0);
            assert(text::views(self.order@) =~= text::views(full).skip(1));
        }
        true
    }

    /// Forgets `id`.
    pub fn remove(&mut self, id: &str)
        ensures
            final(self)@ == forgetting(old(self)@, id@),
    {
        let ghost all = text::views(self.order@);
        let mut kept: Vec<String> = Vec::new();
        let mut i: usize = 0;
        assert(text::views(kept@) =~= forgetting(all.take(0), id@));
        while i < self.order.len()
            invariant
                all == text::views(self.order@),
                *self == *old(self),
                i <= self.order@.len(),
                text::views(kept@) == forgetting(all.take(i as int), id@),
            decreases self.order@.len() - i,
        {
            assert(all.take(i + 1).drop_last() =~= all.take(i as int));
            assert(all.take(i + 1).last() == self.order@[i as int]@);
            if !text::str_eq(self.order[i].as_str(), id) {
                let ghost before = kept@;
                kept.push(self.order[i].as_str().to_owned());
                assert(text::views(kept@) =~= text::views(before).push(self.order@[i as int]@));
            }
            i = i + 1;
        }
        assert(all.take(i as int) =~= all);
        self.order = kept;
    }
}

proof fn lemma_forgetting(ids: Seq<Seq<char>>, id: Seq<char>)
    ensures
        forgetting(ids, id).len() <= ids.len(),
        !forgetting(ids, id).contains(id),
        forall|other: Seq<char>|
            other != id ==> (#[trigger] forgetting(ids, id).contains(other) <==> ids.contains(other)),
        !ids.contains(id) ==> forgetting(ids, id) == ids,
        ids.no_duplicates() ==> forgetting(ids, id).no_duplicates(),
    decreases ids.len(),
{
    if ids.len() > 0 {
        let init = ids.drop_last();
        let last = ids.last();
        lemma_forgetting(init, id);
        assert(ids =~= init.push(last));
        assert(forall|x: Seq<char>| ids.contains(x) <==> init.contains(x) || x == last) by {
            assert forall|x: Seq<char>| ids.contains(x) == (init.contains(x) || x == last) by {
                if init.contains(x) {
                    let i = choose|i: int| 0 <= i < init.len() && init[i] == x;
                    assert(ids[i] == x);
                }
                if x == last {
                    assert(ids[ids.len() - 1] == x);
                }
                if ids.contains(x) {
                    let i = choose|i: int| 0 <= i < ids.len() && ids[i] == x;
                    if i < ids.len() - 1 {
                        assert(init[i] == x);
                    }
                }
            }
        }
        let kept = forgetting(init, id);
        if last != id {
            assert forall|x: Seq<char>| kept.push(last).contains(x) == (kept.contains(x) || x
                == last) by {
                if kept.contains(x) {
                    let i = choose|i: int| 0 <= i < kept.len() && kept[i] == x;
                    assert(kept.push(last)[i] == x);
                }
                if x == last {
                    assert(kept.push(last)[kept.len() as int] == x);
                }
                if kept.push(last).contains(x) {
                    let i = choose|i: int|
                        0 <= i < kept.push(last).len() && kept.push(last)[i] == x;
                    if i < kept.len() {
                        assert(kept[i] == x);
                    }
                }
            }
            if ids.no_duplicates() {
                assert(init.no_duplicates());
                if init.contains(last) {
                    let i = choose|i: int| 0 <= i < init.len() && init[i] == last;
                    assert(ids[i] == ids[ids.len() - 1]);
                }
                assert(!kept.contains(last));
                assert forall|i: int, j: int|
                    0 <= i < kept.push(last).len() && 0 <= j < kept.push(last).len() && i
                        != j implies kept.push(last)[i] != kept.push(last)[j] by {
                    if i == kept.len() {
                        assert(kept.contains(kept[j]));
                    } else if j == kept.len() {
                        assert(kept.contains(kept[i]));
                    }
                }
            }
        } else if ids.no_duplicates() {
            assert(init.no_duplicates());
        }
        assert forall|other: Seq<char>| other != id implies (#[trigger] forgetting(
            ids,
            id,
        ).contains(other) <==> ids.contains(other)) by {
            assert(kept.contains(other) <==> init.contains(other));
        }
    }
}

/// A message that is told of twice is new only once, as long as it is remembered.
pub proof fn a_repeated_message_is_no_news(ids: Seq<Seq<char>>, id: Seq<char>)
    requires
        ids.len() <= DEDUP_CAPACITY,
    ensures
        remembering(ids, id).contains(id),
{
    let after = remembering(ids, id);
    assert(after[after.len() - 1] == id);
}

/// A message that could not be queued is new again when it is told of once more,
/// and all others are remembered as they were.
pub proof fn a_refused_message_is_news_again(ids: Seq<Seq<char>>, id: Seq<char>)
    requires
        !ids.contains(id),
        ids.len() < DEDUP_CAPACITY,
    ensures
        forgetting(remembering(ids, id), id) == ids,
{
    lemma_forgetting(ids, id);
    assert(ids.push(id).drop_last() =~= ids);
}

/// At most the capacity is remembered, and nothing twice.
pub proof fn memory_is_bounded(ids: Seq<Seq<char>>, id: Seq<char>)
    requires
        ids.len() <= DEDUP_CAPACITY,
        ids.no_duplicates(),
    ensures
        forgetting(ids, id).len() <= DEDUP_CAPACITY,
        forgetting(ids, id).no_duplicates(),
        !forgetting(ids, id).contains(id),
        !ids.contains(id) ==> remembering(ids, id).len() <= DEDUP_CAPACITY && remembering(
            ids,
            id,
        ).no_duplicates(),
{
    lemma_forgetting(ids, id);
    if !ids.contains(id) {
        let grown = ids.push(id);
        assert forall|i: int, j: int|
            0 <= i < grown.len() && 0 <= j < grown.len() && i != j implies grown[i]
            != grown[j] by {
            if i == ids.len() {
                assert(ids.contains(ids[j]));
            } else if j == ids.len() {
                assert(ids.contains(ids[i]));
            }
        }
    }
}

// ---- Signatures -------------------------------------------------------------

/// The value of a hexadecimal digit.
pub open spec fn hex_value(c: char) -> Option<u8> {
    if 'A' <= c <= 'F' {
        Some((c as u32 - 'A' as u32 + 10) as u8)
    } else if 'a' <= c <= 'f' {
        Some((c as u32 - 'a' as u32 + 10) as u8)
    } else if '0' <= c <= '9' {
        Some((c as u32 - '0' as u32) as u8)
    } else {
        None
    }
}

/// Whether `s` is a whole number of bytes in hexadecimal digits.
pub open spec fn is_hex(s: Seq<char>) -> bool {
    s.len() % 2 == 0 && forall|i: int| 0 <= i < s.len() ==> hex_value(#[trigger] s[i]) is Some
}

/// The bytes that hexadecimal digits stand for, two digits each.
pub open spec fn hex_bytes(s: Seq<char>) -> Seq<u8> {
    Seq::new(
        s.len() / 2,
        |i: int| (hex_value(s[2 * i])->0 * 16 + hex_value(s[2 * i + 1])->0) as u8,
    )
}

/// `hex::decode`: gives the bytes of hexadecimal digits in either case, and fails
/// on an odd number of them and on any other character.
#[verifier::external_body]
fn decode_hex(digits: &str) -> (r: Option<Vec<u8>>)
    ensures
        match r {
            Some(bytes) => is_hex(digits@) && bytes@ == hex_bytes(digits@),
            None => !is_hex(digits@),
        },
{
    hex::decode(digits).ok()
}

/// The HMAC-SHA256 code of `message` under `key`.
pub uninterp spec fn hmac_sha256(key: Seq<u8>, message: Seq<u8>) -> Seq<u8>;

/// `Hmac::<Sha256>` with `Mac::new_from_slice`, which takes a key of any length,
/// `Mac::update` and `Mac::verify_slice`: says whether `code` is the whole code of
/// the message, whose length is that of a SHA-256 digest.
#[verifier::external_body]
fn verify_code(key: &[u8], message: &[u8], code: &[u8]) -> (b: bool)
    ensures
        b == (code@ == hmac_sha256(key@, message@)),
        b ==> code@.len() == 32,
{
    match Hmac::<Sha256>::new_from_slice(key) {
        Ok(mac) => mac.chain_update(message).verify_slice(code).is_ok(),
        Err(_) => false,
    }
}

/// The code that a signature header holds.
pub open spec fn header_code(header: Seq<char>) -> Option<Seq<u8>> {
    let digits = header.skip("sha256="@.len() as int);
    if text::begins_with(header, "sha256="@) && is_hex(digits) {
        Some(hex_bytes(digits))
    } else {
        None
    }
}

/// The code that a signature header holds.
pub fn signature_code(header: &str) -> (r: Option<Vec<u8>>)
    ensures
        match r {
            Some(code) => header_code(header@) == Some(code@),
            None => header_code(header@) is None,
        },
{
    let chars = text::to_chars(header);
    if !text::starts_with(chars.as_slice(), "sha256=") {
        return None;
    }
    proof {
        reveal_strlit("sha256=");
    }
    let digits = text::from_chars(text::skip(chars.as_slice(), 7));
    decode_hex(digits.as_str())
}

/// Whether `header` holds the code of the body `raw` under `secret`.
pub fn verify_signature(secret: &str, raw: &[u8], header: &str) -> (b: bool)
    ensures
        b == (header_code(header@) == Some(hmac_sha256(encode_utf8(secret@), raw@))),
        b ==> header_code(header@) is Some && header_code(header@)->0.len() == 32,
{
    match signature_code(header) {
        Some(code) => verify_code(secret.as_bytes(), raw, code.as_slice()),
        None => false,
    }
}

/// Whether two byte strings are equal, by looking at every byte.
pub fn constant_eq(left: &[u8], right: &[u8]) -> (b: bool)
    ensures
        b == (left@ == right@),
{
    if left.len() != right.len() {
        return false;
    }
    let mut sum: u8 = 0;
    let mut i: usize = 0;
    while i < left.len()
        invariant
            i <= left@.len(),
            left@.len() == right@.len(),
            sum == 0 <==> left@.take(i as int) =~= right@.take(i as int),
        decreases left@.len() - i,
    {
        let a: u8 = left[i];
        let b: u8 = right[i];
        assert((sum | (a ^ b)) == 0 <==> (sum == 0 && a == b)) by (bit_vector);
        assert(left@.take(i + 1) =~= left@.take(i as int).push(a));
        assert(right@.take(i + 1) =~= right@.take(i as int).push(b));
        proof {
            if left@.take(i + 1) =~= right@.take(i + 1) {
                assert(left@.take(i + 1)[i as int] == right@.take(i + 1)[i as int]);
                assert forall|k: int| 0 <= k < i implies left@.take(i as int)[k] == right@.take(
                    i as int,
                )[k] by {
                    assert(left@.take(i + 1)[k] == right@.take(i + 1)[k]);
                }
            }
        }
        sum = sum | (a ^ b);
        i = i + 1;
    }
    assert(left@.take(i as int) =~= left@);
    assert(right@.take(i as int) =~= right@);
    sum == 0
}

// ---- Requests ---------------------------------------------------------------

/// The answer to a request that asks to verify the webhook.
#[derive(Clone, Debug, PartialEq, Eq)]
pub enum Handshake {
    /// No token is configured.
    Unavailable,
    Forbidden,
    /// The challenge is sent back.
    Verified(String),
}

impl Handshake {
    /// The HTTP status of the answer.
    pub fn status(&self) -> (code: u16)
        ensures
            code == match *self {
                Handshake::Unavailable => 503u16,
                Handshake::Forbidden => 403u16,
                Handshake::Verified(_) => 200u16,
            },
    {
        match self {
            Handshake::Unavailable => 503,
            Handshake::Forbidden => 403,
            Handshake::Verified(_) => 200,
        }
    }
}

/// An optional text, or the empty one.
pub open spec fn text_or_empty(value: Option<Seq<char>>) -> Seq<char> {
    match value {
        Some(s) => s,
        None => Seq::empty(),
    }
}

fn or_empty<'a>(value: Option<&'a str>) -> (s: &'a str)
    ensures
        s@ == text_or_empty(text::opt_str_view(value)),
{
    match value {
        Some(s) => s,
        None => {
            proof {
                reveal_strlit("");
            }
            let empty = "";
            assert(empty@ =~= Seq::<char>::empty());
            empty
        },
    }
}

/// Answers a verification request: it must be a subscription that knows the
/// configured token.
pub fn answer_handshake(
    verify_token: Option<&str>,
    mode: Option<&str>,
    token: Option<&str>,
    challenge: Option<&str>,
) -> (answer: Handshake)
    ensures
        match answer {
            Handshake::Unavailable => text_or_empty(text::opt_str_view(verify_token)).len() == 0,
            Handshake::Forbidden => text_or_empty(text::opt_str_view(verify_token)).len() > 0 && !(
            text::opt_str_view(mode) == Some("subscribe"@) && text_or_empty(
                text::opt_str_view(token),
            ) == text_or_empty(text::opt_str_view(verify_token))),
            Handshake::Verified(reply) => text_or_empty(text::opt_str_view(verify_token)).len() > 0
                && text::opt_str_view(mode) == Some("subscribe"@) && text_or_empty(
                text::opt_str_view(token),
            ) == text_or_empty(text::opt_str_view(verify_token)) && reply@ == text_or_empty(
                text::opt_str_view(challenge),
            ),
        },
{
    let expected = or_empty(verify_token);
    if expected.is_empty() {
        return Handshake::Unavailable;
    }
    let given = or_empty(token);
    proof {
        encode_utf8_decode_utf8(given@);
        encode_utf8_decode_utf8(expected@);
    }
    if !json::text_is(mode, "subscribe") || !constant_eq(given.as_bytes(), expected.as_bytes()) {
        return Handshake::Forbidden;
    }
    Handshake::Verified(or_empty(challenge).to_owned())
}

/// What is made of a request that brings messages, before it is read.
#[derive(Clone, Copy, Debug, PartialEq, Eq, Structural)]
pub enum Admission {
    /// No secret is configured.
    Unavailable,
    TooLarge,
    Unauthorized,
    Admitted,
}

impl Admission {
    /// The HTTP status of a request that is not admitted.
    pub fn status(&self) -> (code: u16)
        ensures
            code == match *self {
                Admission::Unavailable => 503u16,
                Admission::TooLarge => 413u16,
                Admission::Unauthorized => 401u16,
                Admission::Admitted => 200u16,
            },
    {
        match self {
            Admission::Unavailable => 503,
            Admission::TooLarge => 413,
            Admission::Unauthorized => 401,
            Admission::Admitted => 200,
        }
    }
}

/// Whether a request with a body of `length` bytes is admitted, which is `signed` or
/// not: a secret is configured, the body is not too large, and it is signed.
pub fn judge(app_secret: Option<&str>, length: usize, signed: bool) -> (r: Admission)
    ensures
        r == if text_or_empty(text::opt_str_view(app_secret)).len() == 0 {
            Admission::Unavailable
        } else if length > MAX_BODY {
            Admission::TooLarge
        } else if !signed {
            Admission::Unauthorized
        } else {
            Admission::Admitted
        },
{
    let secret = or_empty(app_secret);
    if secret.is_empty() {
        Admission::Unavailable
    } else if length > MAX_BODY {
        Admission::TooLarge
    } else if !signed {
        Admission::Unauthorized
    } else {
        Admission::Admitted
    }
}

/// Whether a request is admitted: a secret is configured, the body is not too
/// large, and its signature holds.
pub fn check_request(app_secret: Option<&str>, body: &[u8], signature: &str) -> (r: Admission)
    ensures
        r == if text_or_empty(text::opt_str_view(app_secret)).len() == 0 {
            Admission::Unavailable
        } else if body@.len() > MAX_BODY {
            Admission::TooLarge
        } else if header_code(signature@) != Some(
            hmac_sha256(encode_utf8(text_or_empty(text::opt_str_view(app_secret))), body@),
        ) {
            Admission::Unauthorized
        } else {
            Admission::Admitted
        },
{
    let signed = body.len() <= MAX_BODY && verify_signature(or_empty(app_secret), body, signature);
    judge(app_secret, body.len(), signed)
}

// ---- Payloads ---------------------------------------------------------------

/// Whether `id` is that of a WhatsApp user: digits.
pub open spec fn is_wa_id(id: Seq<char>) -> bool {
    id.len() > 0 && text::digits_only(id)
}

/// The profile name of the first contact that is `wa_id`.
pub open spec fn contact_name(contacts: Seq<JsonView>, wa_id: Seq<char>) -> Option<Seq<char>>
    decreases contacts.len(),
{
    if contacts.len() == 0 {
        None
    } else if json::text_member(contacts[0], "wa_id"@) == Some(wa_id) {
        json::text_of(json::inner_member(contacts[0], "profile"@, "name"@))
    } else {
        contact_name(contacts.skip(1), wa_id)
    }
}

/// Whether a message is one to this number alone: not to a group.
pub open spec fn is_direct(message: JsonView, from: Seq<char>) -> bool {
    &&& json::member(message, "group_id"@) is None
    &&& match json::text_member(message, "chat_id"@) {
        Some(chat) => chat == from,
        None => true,
    }
}

/// The text message that `message` is, where it is one: from a user, with an id
/// and a text, and not in a group.
pub open spec fn read_message(value: JsonView, message: JsonView) -> Option<InboundView> {
    let from = json::text_member(message, "from"@);
    let id = json::text_member(message, "id"@);
    let body = json::text_of(json::inner_member(message, "text"@, "body"@));
    if json::text_member(message, "type"@) == Some("text"@) && from is Some && is_wa_id(from->0)
        && is_direct(message, from->0) && id is Some && id->0.len() > 0 && body is Some
        && body->0.len() > 0 {
        Some(
            InboundView {
                wa_id: from->0,
                name: contact_name(
                    json::elements_of(json::member(value, "contacts"@)),
                    from->0,
                ),
                wamid: id->0,
                text: body->0,
            },
        )
    } else {
        None
    }
}

/// The text messages among `messages`, in order.
pub open spec fn read_messages(value: JsonView, messages: Seq<JsonView>) -> Seq<InboundView>
    decreases messages.len(),
{
    if messages.len() == 0 {
        Seq::empty()
    } else {
        let before = read_messages(value, messages.drop_last());
        match read_message(value, messages.last()) {
            Some(inbound) => before.push(inbound),
            None => before,
        }
    }
}

/// The text messages of a change: of one about messages to the wanted number.
pub open spec fn read_change(change: JsonView, wanted: Seq<char>) -> Seq<InboundView> {
    match json::member(change, "value"@) {
        Some(value) => if json::text_member(change, "field"@) == Some("messages"@) && json::text_of(
            json::inner_member(value, "metadata"@, "phone_number_id"@),
        ) == Some(wanted) {
            read_messages(value, json::elements_of(json::member(value, "messages"@)))
        } else {
            Seq::empty()
        },
        None => Seq::empty(),
    }
}

/// The text messages of `changes`, in order.
pub open spec fn read_changes(changes: Seq<JsonView>, wanted: Seq<char>) -> Seq<InboundView>
    decreases changes.len(),
{
    if changes.len() == 0 {
        Seq::empty()
    } else {
        read_changes(changes.drop_last(), wanted) + read_change(changes.last(), wanted)
    }
}

/// The text messages of `entries`, in order.
pub open spec fn read_entries(entries: Seq<JsonView>, wanted: Seq<char>) -> Seq<InboundView>
    decreases entries.len(),
{
    if entries.len() == 0 {
        Seq::empty()
    } else {
        read_entries(entries.drop_last(), wanted) + read_changes(
            json::elements_of(json::member(entries.last(), "changes"@)),
            wanted,
        )
    }
}

/// The text messages that a payload brings to the number `wanted`.
pub open spec fn payload_messages(payload: JsonView, wanted: Seq<char>) -> Seq<InboundView> {
    read_entries(json::elements_of(json::member(payload, "entry"@)), wanted)
}

fn find_contact_name(contacts: &Vec<Json>, wa_id: &str) -> (r: Option<String>)
    ensures
        text::opt_view(r) == contact_name(json::views(contacts@), wa_id@),
{
    let ghost all = json::views(contacts@);
    let mut i: usize = 0;
    assert(all.skip(0) =~= all);
    while i < contacts.len()
        invariant
            all == json::views(contacts@),
            i <= contacts@.len(),
            contact_name(all, wa_id@) == contact_name(all.skip(i as int), wa_id@),
        decreases contacts@.len() - i,
    {
        assert(all.skip(i as int).skip(1) =~= all.skip(i + 1));
        if json::text_is(contacts[i].get_text("wa_id"), wa_id) {
            return match contacts[i].get_inner_text("profile", "name") {
                Some(name) => Some(name.to_owned()),
                None => None,
            };
        }
        i = i + 1;
    }
    None
}

/// The text message that `message` is, where it is one.
pub fn parse_message(value: &Json, message: &Json) -> (r: Option<Inbound>)
    ensures
        match r {
            Some(inbound) => read_message(value@, message@) == Some(inbound@),
            None => read_message(value@, message@) is None,
        },
{
    if !json::text_is(message.get_text("type"), "text") {
        return None;
    }
    let from = match message.get_text("from") {
        Some(from) => from,
        None => return None,
    };
    let digits = text::to_chars(from);
    if digits.len() == 0 || !text::all_digits(digits.as_slice()) {
        return None;
    }
    if message.get("group_id").is_some() {
        return None;
    }
    if let Some(chat) = message.get_text("chat_id") {
        if !text::str_eq(chat, from) {
            return None;
        }
    }
    let id = match message.get_text("id") {
        Some(id) => id,
        None => return None,
    };
    let body = match message.get_inner_text("text", "body") {
        Some(body) => body,
        None => return None,
    };
    if id.is_empty() || body.is_empty() {
        return None;
    }
    let name = match value.get_array("contacts") {
        Some(contacts) => find_contact_name(contacts, from),
        None => None,
    };
    let inbound = Inbound {
        wa_id: from.to_owned(),
        name,
        wamid: id.to_owned(),
        text: body.to_owned(),
    };
    Some(inbound)
}

fn push_messages(value: &Json, messages: &Vec<Json>, out: &mut Vec<Inbound>)
    ensures
        inbound_views(final(out)@) == inbound_views(old(out)@) + read_messages(
            value@,
            json::views(messages@),
        ),
{
    let ghost start = inbound_views(out@);
    let ghost all = json::views(messages@);
    let mut i: usize = 0;
    while i < messages.len()
        invariant
            all == json::views(messages@),
            i <= messages@.len(),
            inbound_views(out@) =~= start + read_messages(value@, all.take(i as int)),
        decreases messages@.len() - i,
    {
        assert(all.take(i + 1).drop_last() =~= all.take(i as int));
        assert(all.take(i + 1).last() == messages@[i as int]@);
        let ghost before = out@;
        if let Some(inbound) = parse_message(value, &messages[i]) {
            out.push(inbound);
            assert(inbound_views(out@) =~= inbound_views(before).push(inbound@));
        }
        i = i + 1;
    }
    assert(all.take(i as int) =~= all);
}

fn push_change(change: &Json, wanted: &str, out: &mut Vec<Inbound>)
    ensures
        inbound_views(final(out)@) == inbound_views(old(out)@) + read_change(change@, wanted@),
{
    if let Some(value) = change.get("value") {
        if json::text_is(change.get_text("field"), "messages") && json::text_is(
            value.get_inner_text("metadata", "phone_number_id"),
            wanted,
        ) {
            if let Some(messages) = value.get_array("messages") {
                push_messages(value, messages, out);
                return ;
            }
        }
    }
    assert(read_change(change@, wanted@) =~= Seq::<InboundView>::empty());
    assert(inbound_views(out@) =~= inbound_views(out@) + read_change(change@, wanted@));
}

fn push_changes(changes: &Vec<Json>, wanted: &str, out: &mut Vec<Inbound>)
    ensures
        inbound_views(final(out)@) == inbound_views(old(out)@) + read_changes(
            json::views(changes@),
            wanted@,
        ),
{
    let ghost start = inbound_views(out@);
    let ghost all = json::views(changes@);
    let mut i: usize = 0;
    while i < changes.len()
        invariant
            all == json::views(changes@),
            i <= changes@.len(),
            inbound_views(out@) =~= start + read_changes(all.take(i as int), wanted@),
        decreases changes@.len() - i,
    {
        assert(all.take(i + 1).drop_last() =~= all.take(i as int));
        assert(all.take(i + 1).last() == changes@[i as int]@);
        push_change(&changes[i], wanted, out);
        proof {
            vstd::seq_lib::lemma_concat_associative(
                start,
                read_changes(all.take(i as int), wanted@),
                read_change(changes@[i as int]@, wanted@),
            );
        }
        i = i + 1;
    }
    assert(all.take(i as int) =~= all);
}

/// The HTTP status of the answer to a body that is no JSON object.
pub const BAD_REQUEST: u16 = 400;

/// The text messages that a payload brings to the number `wanted_phone_id`.
pub fn parse_payload(payload: &Json, wanted_phone_id: &str) -> (list: Vec<Inbound>)
    ensures
        inbound_views(list@) == payload_messages(payload@, wanted_phone_id@),
{
    let mut list: Vec<Inbound> = Vec::new();
    if let Some(entries) = payload.get_array("entry") {
        let ghost all = json::views(entries@);
        let mut i: usize = 0;
        while i < entries.len()
            invariant
                all == json::views(entries@),
                i <= entries@.len(),
                inbound_views(list@) =~= read_entries(all.take(i as int), wanted_phone_id@),
            decreases entries@.len() - i,
        {
            assert(all.take(i + 1).drop_last() =~= all.take(i as int));
            assert(all.take(i + 1).last() == entries@[i as int]@);
            if let Some(changes) = entries[i].get_array("changes") {
                push_changes(changes, wanted_phone_id, &mut list);
            }
            i = i + 1;
        }
        assert(all.take(i as int) =~= all);
    }
    list
}

/// The text messages that a body brings to the number `wanted`, which is `None` where it
/// is no JSON; else the HTTP status of the answer.
pub open spec fn body_messages(body: Option<JsonView>, wanted: Seq<char>) -> Result<
    Seq<InboundView>,
    u16,
> {
    match body {
        Some(JsonView::Object(members)) => Ok(payload_messages(JsonView::Object(members), wanted)),
        _ => Err(BAD_REQUEST),
    }
}

/// The text messages that a body brings to the number `wanted_phone_id`; else the HTTP
/// status of the answer. The body is `None` where it is no JSON.
pub fn accept_payload(body: Option<&Json>, wanted_phone_id: &str) -> (r: Result<Vec<Inbound>, u16>)
    ensures
        match r {
            Ok(list) => body_messages(json::opt_view(body), wanted_phone_id@) == Ok::<
                Seq<InboundView>,
                u16,
            >(inbound_views(list@)),
            Err(code) => body_messages(json::opt_view(body), wanted_phone_id@) == Err::<
                Seq<InboundView>,
                u16,
            >(code),
        },
{
    match body {
        Some(value) => {
            if value.is_object() {
                Ok(parse_payload(value, wanted_phone_id))
            } else {
                Err(BAD_REQUEST)
            }
        },
        None => Err(BAD_REQUEST),
    }
}

/// Whether a request with this body and signature is admitted.
pub open spec fn is_admitted(
    app_secret: Option<Seq<char>>,
    body: Seq<u8>,
    signature: Seq<char>,
) -> bool {
    &&& text_or_empty(app_secret).len() > 0
    &&& body.len() <= MAX_BODY
    &&& header_code(signature) == Some(
        hmac_sha256(encode_utf8(text_or_empty(app_secret)), body),
    )
}

/// The text messages that a request brings to the number `wanted_phone_id`; else the
/// HTTP status of the answer. What is not admitted is not read.
pub fn read_request(
    app_secret: Option<&str>,
    body: &[u8],
    signature: &str,
    wanted_phone_id: &str,
) -> (r: Result<Vec<Inbound>, u16>)
    ensures
        ({
            let secret = text::opt_str_view(app_secret);
            let admitted = is_admitted(secret, body@, signature@);
            match r {
                Ok(list) => admitted && body_messages(json::json_value(body@), wanted_phone_id@)
                    == Ok::<Seq<InboundView>, u16>(inbound_views(list@)),
                Err(code) => if admitted {
                    code == BAD_REQUEST && !(json::json_value(body@) matches Some(value)
                        && value is Object)
                } else {
                    code == if text_or_empty(secret).len() == 0 {
                        503u16
                    } else if body@.len() > MAX_BODY {
                        413u16
                    } else {
                        401u16
                    }
                },
            }
        }),
{
    let admission = check_request(app_secret, body, signature);
    match admission {
        Admission::Admitted => {
            let value = json::parse_json(body);
            accept_payload(value.as_ref(), wanted_phone_id)
        },
        _ => Err(admission.status()),
    }
}

/// Whether every message names its sender by digits and has an id and a text.
pub open spec fn all_sound(list: Seq<InboundView>) -> bool {
    forall|i: int|
        0 <= i < list.len() ==> is_wa_id((#[trigger] list[i]).wa_id) && list[i].wamid.len() > 0
            && list[i].text.len() > 0
}

proof fn lemma_messages_sound(value: JsonView, messages: Seq<JsonView>)
    ensures
        all_sound(read_messages(value, messages)),
    decreases messages.len(),
{
    if messages.len() > 0 {
        lemma_messages_sound(value, messages.drop_last());
    }
}

proof fn lemma_changes_sound(changes: Seq<JsonView>, wanted: Seq<char>)
    ensures
        all_sound(read_changes(changes, wanted)),
    decreases changes.len(),
{
    if changes.len() > 0 {
        lemma_changes_sound(changes.drop_last(), wanted);
        if let Some(value) = json::member(changes.last(), "value"@) {
            lemma_messages_sound(value, json::elements_of(json::member(value, "messages"@)));
        }
    }
}

proof fn lemma_entries_sound(entries: Seq<JsonView>, wanted: Seq<char>)
    ensures
        all_sound(read_entries(entries, wanted)),
    decreases entries.len(),
{
    if entries.len() > 0 {
        lemma_entries_sound(entries.drop_last(), wanted);
        lemma_changes_sound(
            json::elements_of(json::member(entries.last(), "changes"@)),
            wanted,
        );
    }
}

/// Whatever a payload holds, each message read from it names its sender by digits
/// and has an id and a text.
pub proof fn payloads_bring_only_sound_messages(payload: JsonView, wanted: Seq<char>)
    ensures
        all_sound(payload_messages(payload, wanted)),
{
    lemma_entries_sound(json::elements_of(json::member(payload, "entry"@)), wanted);
}

/// Whether a change is about messages to the number `wanted`.
pub open spec fn is_about(change: JsonView, wanted: Seq<char>) -> bool {
    &&& json::text_member(change, "field"@) == Some("messages"@)
    &&& json::member(change, "value"@) is Some
    &&& json::text_of(
        json::inner_member(
            json::member(change, "value"@)->0,
            "metadata"@,
            "phone_number_id"@,
        ),
    ) == Some(wanted)
}

/// The changes of an entry.
pub open spec fn changes_of(entry: JsonView) -> Seq<JsonView> {
    json::elements_of(json::member(entry, "changes"@))
}

proof fn lemma_changes_of_others(changes: Seq<JsonView>, wanted: Seq<char>)
    requires
        forall|j: int| 0 <= j < changes.len() ==> !is_about(#[trigger] changes[j], wanted),
    ensures
        read_changes(changes, wanted).len() == 0,
    decreases changes.len(),
{
    if changes.len() > 0 {
        let init = changes.drop_last();
        assert forall|j: int| 0 <= j < init.len() implies !is_about(
            #[trigger] init[j],
            wanted,
        ) by {
            assert(!is_about(changes[j], wanted));
        }
        lemma_changes_of_others(init, wanted);
        assert(!is_about(changes[changes.len() - 1], wanted));
    }
}

proof fn lemma_entries_of_others(entries: Seq<JsonView>, wanted: Seq<char>)
    requires
        forall|i: int, j: int|
            0 <= i < entries.len() && 0 <= j < changes_of(entries[i]).len() ==> !is_about(
                #[trigger] changes_of(entries[i])[j],
                wanted,
            ),
    ensures
        read_entries(entries, wanted).len() == 0,
    decreases entries.len(),
{
    if entries.len() > 0 {
        let init = entries.drop_last();
        assert forall|i: int, j: int|
            0 <= i < init.len() && 0 <= j < changes_of(init[i]).len() implies !is_about(
            #[trigger] changes_of(init[i])[j],
            wanted,
        ) by {
            assert(!is_about(changes_of(entries[i])[j], wanted));
        }
        lemma_entries_of_others(init, wanted);
        let last = changes_of(entries[entries.len() - 1]);
        assert forall|j: int| 0 <= j < last.len() implies !is_about(
            #[trigger] last[j],
            wanted,
        ) by {
            assert(!is_about(changes_of(entries[entries.len() - 1])[j], wanted));
        }
        lemma_changes_of_others(last, wanted);
    }
}

/// A payload in which nothing is about messages to the wanted number brings none.
pub proof fn other_numbers_are_ignored(payload: JsonView, wanted: Seq<char>)
    requires
        ({
            let entries = json::elements_of(json::member(payload, "entry"@));
            forall|i: int, j: int|
                0 <= i < entries.len() && 0 <= j < changes_of(entries[i]).len() ==> !is_about(
                    #[trigger] changes_of(entries[i])[j],
                    wanted,
                )
        }),
    ensures
        payload_messages(payload, wanted).len() == 0,
{
    lemma_entries_of_others(json::elements_of(json::member(payload, "entry"@)), wanted);
}

} // verus!
