//! JSON values.

use crate::encoding;
use crate::text;
use serde_json::Value;
use vstd::prelude::*;
use vstd::string::*;
use vstd::utf8::*;

verus! {

/// A JSON value.
#[derive(Debug, PartialEq, Eq)]
pub enum Json {
    Null,
    Bool(bool),
    /// A whole number that is not negative.
    Unsigned(u64),
    /// A whole number below zero.
    Negative(i64),
    /// Any other number, in its notation.
    Decimal(String),
    Text(String),
    Array(Vec<Json>),
    Object(Vec<Member>),
}

/// A named value of an object.
#[derive(Debug, PartialEq, Eq)]
pub struct Member {
    pub name: String,
    pub value: Json,
}

/// What a JSON value is.
pub enum JsonView {
    Null,
    Bool(bool),
    Unsigned(u64),
    Negative(i64),
    Decimal(Seq<char>),
    Text(Seq<char>),
    Array(Seq<JsonView>),
    Object(Seq<MemberView>),
}

/// What a named value is.
pub struct MemberView {
    pub name: Seq<char>,
    pub value: JsonView,
}

/// What a value is.
pub open spec fn shown(value: Json) -> JsonView
    decreases value,
{
    match value {
        Json::Null => JsonView::Null,
        Json::Bool(b) => JsonView::Bool(b),
        Json::Unsigned(n) => JsonView::Unsigned(n),
        Json::Negative(n) => JsonView::Negative(n),
        Json::Decimal(s) => JsonView::Decimal(s@),
        Json::Text(s) => JsonView::Text(s@),
        Json::Array(items) => JsonView::Array(
            Seq::new(
                items@.len(),
                |i: int|
                    if 0 <= i < items@.len() {
                        shown(items@[i])
                    } else {
                        JsonView::Null
                    },
            ),
        ),
        Json::Object(members) => JsonView::Object(
            Seq::new(
                members@.len(),
                |i: int|
                    MemberView {
                        name: members@[i].name@,
                        value: if 0 <= i < members@.len() {
                            shown(members@[i].value)
                        } else {
                            JsonView::Null
                        },
                    },
            ),
        ),
    }
}

impl View for Json {
    type V = JsonView;

    open spec fn view(&self) -> JsonView {
        shown(*self)
    }
}

impl View for Member {
    type V = MemberView;

    open spec fn view(&self) -> MemberView {
        MemberView { name: self.name@, value: self.value@ }
    }
}

/// What the values of a list are.
pub open spec fn views(values: Seq<Json>) -> Seq<JsonView> {
    Seq::new(values.len(), |i: int| values[i]@)
}

/// What the members of an object are.
pub open spec fn member_views(members: Seq<Member>) -> Seq<MemberView> {
    Seq::new(members.len(), |i: int| members[i]@)
}

/// What an optional value is.
pub open spec fn opt_view(value: Option<&Json>) -> Option<JsonView> {
    match value {
        Some(value) => Some(value@),
        None => None,
    }
}

/// A list is what its values are, and an object what its members are.
pub(crate) proof fn lemma_parts(value: Json)
    ensures
        match value {
            Json::Array(items) => value@ == JsonView::Array(views(items@)),
            Json::Object(members) => value@ == JsonView::Object(member_views(members@)),
            _ => true,
        },
{
    match value {
        Json::Array(items) => {
            assert(value@->Array_0 =~= views(items@));
        },
        Json::Object(members) => {
            assert(value@->Object_0 =~= member_views(members@));
        },
        _ => {},
    }
}

/// The first value under `name`.
pub open spec fn find_member(members: Seq<MemberView>, name: Seq<char>) -> Option<JsonView>
    decreases members.len(),
{
    if members.len() == 0 {
        None
    } else if members[0].name == name {
        Some(members[0].value)
    } else {
        find_member(members.skip(1), name)
    }
}

/// The value of an object under `name`; other values have none.
pub open spec fn member(value: JsonView, name: Seq<char>) -> Option<JsonView> {
    match value {
        JsonView::Object(members) => find_member(members, name),
        _ => None,
    }
}

/// The value under `second` of the value under `first`.
pub open spec fn inner_member(value: JsonView, first: Seq<char>, second: Seq<char>) -> Option<
    JsonView,
> {
    match member(value, first) {
        Some(inner) => member(inner, second),
        None => None,
    }
}

/// The text that an optional value is.
pub open spec fn text_of(value: Option<JsonView>) -> Option<Seq<char>> {
    match value {
        Some(JsonView::Text(s)) => Some(s),
        _ => None,
    }
}

/// The integer that a value is, if it is one that fits 64 bits with a sign.
pub open spec fn integer_of(value: Option<JsonView>) -> Option<int> {
    match value {
        Some(JsonView::Unsigned(n)) => if n <= i64::MAX {
            Some(n as int)
        } else {
            None
        },
        Some(JsonView::Negative(n)) => Some(n as int),
        _ => None,
    }
}

/// The whole number that an optional value is, where it is not negative.
pub open spec fn unsigned_of(value: Option<JsonView>) -> Option<nat> {
    match value {
        Some(JsonView::Unsigned(n)) => Some(n as nat),
        _ => None,
    }
}

/// The elements of an optional value; none unless it is an array.
pub open spec fn elements_of(value: Option<JsonView>) -> Seq<JsonView> {
    match value {
        Some(JsonView::Array(items)) => items,
        _ => Seq::empty(),
    }
}

/// The text of an object under `name`.
pub open spec fn text_member(value: JsonView, name: Seq<char>) -> Option<Seq<char>> {
    text_of(member(value, name))
}

/// Whether a value can hold the fields of a record, of which there are `count`: an
/// object does, and so does a list of no more values.
pub open spec fn is_record(value: JsonView, count: nat) -> bool {
    match value {
        JsonView::Object(_) => true,
        JsonView::Array(items) => items.len() <= count,
        _ => false,
    }
}

/// The field of a record: under its name in an object, at its place in a list.
pub open spec fn field(value: JsonView, name: Seq<char>, place: int) -> Option<JsonView> {
    match value {
        JsonView::Object(members) => find_member(members, name),
        JsonView::Array(items) => if 0 <= place < items.len() {
            Some(items[place])
        } else {
            None
        },
        _ => None,
    }
}

/// The first value under `name`.
fn find_value<'a>(members: &'a Vec<Member>, name: &str) -> (r: Option<&'a Json>)
    ensures
        opt_view(r) == find_member(member_views(members@), name@),
{
    let ghost all = member_views(members@);
    let mut i: usize = 0;
    assert(all.skip(0) =~= all);
    while i < members.len()
        invariant
            all == member_views(members@),
            i <= members@.len(),
            find_member(all, name@) == find_member(all.skip(i as int), name@),
        decreases members@.len() - i,
    {
        assert(all.skip(i as int).skip(1) =~= all.skip(i + 1));
        assert(all[i as int] == members@[i as int]@);
        if text::str_eq(members[i].name.as_str(), name) {
            return Some(&members[i].value);
        }
        i = i + 1;
    }
    None
}

impl Json {
    /// The value under `name`.
    pub fn get(&self, name: &str) -> (r: Option<&Json>)
        ensures
            opt_view(r) == member(self@, name@),
    {
        proof {
            lemma_parts(*self);
        }
        match self {
            Json::Object(members) => find_value(members, name),
            _ => None,
        }
    }

    /// Whether the value can hold the `count` fields of a record.
    pub fn holds_record(&self, count: usize) -> (b: bool)
        ensures
            b == is_record(self@, count as nat),
    {
        match self {
            Json::Object(_) => true,
            Json::Array(items) => items.len() <= count,
            _ => false,
        }
    }

    /// The field of a record.
    pub fn get_field(&self, name: &str, place: usize) -> (r: Option<&Json>)
        ensures
            opt_view(r) == field(self@, name@, place as int),
    {
        proof {
            lemma_parts(*self);
        }
        match self {
            Json::Object(members) => find_value(members, name),
            Json::Array(items) => if place < items.len() {
                Some(&items[place])
            } else {
                None
            },
            _ => None,
        }
    }

    /// The text under `name`.
    pub fn get_text(&self, name: &str) -> (r: Option<&str>)
        ensures
            text::opt_str_view(r) == text_member(self@, name@),
    {
        match self.get(name) {
            Some(Json::Text(s)) => Some(s.as_str()),
            _ => None,
        }
    }

    /// The integer under `name`.
    pub fn get_integer(&self, name: &str) -> (r: Option<i64>)
        ensures
            match r {
                Some(n) => integer_of(member(self@, name@)) == Some(n as int),
                None => integer_of(member(self@, name@)) is None,
            },
    {
        match self.get(name) {
            Some(Json::Unsigned(n)) => if *n <= i64::MAX as u64 {
                Some(*n as i64)
            } else {
                None
            },
            Some(Json::Negative(n)) => Some(*n),
            _ => None,
        }
    }

    /// The whole number under `name`.
    pub fn get_unsigned(&self, name: &str) -> (r: Option<u64>)
        ensures
            match r {
                Some(n) => unsigned_of(member(self@, name@)) == Some(n as nat),
                None => unsigned_of(member(self@, name@)) is None,
            },
    {
        match self.get(name) {
            Some(Json::Unsigned(n)) => Some(*n),
            _ => None,
        }
    }

    /// The elements of the array under `name`.
    pub fn get_array(&self, name: &str) -> (r: Option<&Vec<Json>>)
        ensures
            match r {
                Some(items) => elements_of(member(self@, name@)) == views(items@),
                None => elements_of(member(self@, name@)) == Seq::<JsonView>::empty(),
            },
    {
        match self.get(name) {
            Some(value) => {
                proof {
                    lemma_parts(*value);
                }
                match value {
                    Json::Array(items) => Some(items),
                    _ => None,
                }
            },
            None => None,
        }
    }

    /// The value under `second` of the value under `first`.
    pub fn get_inner(&self, first: &str, second: &str) -> (r: Option<&Json>)
        ensures
            opt_view(r) == inner_member(self@, first@, second@),
    {
        match self.get(first) {
            Some(inner) => inner.get(second),
            None => None,
        }
    }

    /// The text under `second` of the value under `first`.
    pub fn get_inner_text(&self, first: &str, second: &str) -> (r: Option<&str>)
        ensures
            text::opt_str_view(r) == text_of(inner_member(self@, first@, second@)),
    {
        match self.get_inner(first, second) {
            Some(Json::Text(s)) => Some(s.as_str()),
            _ => None,
        }
    }

    /// Whether the value is an object.
    pub fn is_object(&self) -> (b: bool)
        ensures
            b == (self@ is Object),
    {
        match self {
            Json::Object(_) => true,
            _ => false,
        }
    }
}

/// Whether an optional text is `wanted`.
pub fn text_is(value: Option<&str>, wanted: &str) -> (b: bool)
    ensures
        b == (text::opt_str_view(value) == Some(wanted@)),
{
    match value {
        Some(s) => text::str_eq(s, wanted),
        None => false,
    }
}

// ---- Members of an object in text form --------------------------------------

/// A value as far as a preview shows it.
#[derive(Clone, Debug, PartialEq, Eq)]
pub enum Scalar {
    Text(String),
    /// A number in its notation.
    Number(String),
    Bool(bool),
    /// Null, an array or an object.
    Compound,
}

/// What a scalar is.
pub enum ScalarView {
    Text(Seq<char>),
    Number(Seq<char>),
    Bool(bool),
    Compound,
}

impl View for Scalar {
    type V = ScalarView;

    open spec fn view(&self) -> ScalarView {
        match self {
            Scalar::Text(s) => ScalarView::Text(s@),
            Scalar::Number(s) => ScalarView::Number(s@),
            Scalar::Bool(b) => ScalarView::Bool(*b),
            Scalar::Compound => ScalarView::Compound,
        }
    }
}

/// What a list of named scalars holds.
pub open spec fn scalar_views(members: Seq<(String, Scalar)>) -> Seq<(Seq<char>, ScalarView)> {
    Seq::new(members.len(), |i: int| (members[i].0@, members[i].1@))
}

/// `serde_json::Value`, carried from the parser to what reads it.
#[verifier::external_type_specification]
#[verifier::external_body]
pub struct ExValue(serde_json::Value);

/// What `serde_json::from_slice` reads from bytes as a value; `None` where they are no
/// JSON.
pub uninterp spec fn json_value(raw: Seq<u8>) -> Option<JsonView>;

/// A `serde_json::Value` with each part under the name that it has here. A number is
/// whole where `Number::as_u64` or `Number::as_i64` gives it. Nothing is stated of it:
/// what a parsed value holds is stated by `parse_json`, which it serves.
#[verifier::external_body]
fn convert(value: &Value) -> (r: Json) {
    match value {
        Value::Null => Json::Null,
        Value::Bool(b) => Json::Bool(*b),
        Value::Number(n) => match (n.as_u64(), n.as_i64()) {
            (Some(n), _) => Json::Unsigned(n),
            (None, Some(n)) => Json::Negative(n),
            (None, None) => Json::Decimal(n.to_string()),
        },
        Value::String(s) => Json::Text(s.clone()),
        Value::Array(list) => Json::Array(list.iter().map(convert).collect()),
        Value::Object(map) => Json::Object(
            map.iter().map(|(k, v)| Member { name: k.clone(), value: convert(v) }).collect()),
    }
}

/// `serde_json::from_slice` into a `serde_json::Value`: what it reads, and whether the
/// bytes are JSON at all, depends on the bytes alone.
#[verifier::external_body]
pub(crate) fn parse_json(raw: &[u8]) -> (r: Option<Json>)
    ensures
        match r {
            Some(value) => json_value(raw@) == Some(value@),
            None => json_value(raw@) is None,
        },
{
    let value: Value = serde_json::from_slice(raw).ok()?;
    Some(convert(&value))
}

/// What a text holds as JSON.
pub open spec fn text_value(text: Seq<char>) -> Option<JsonView> {
    json_value(encode_utf8(text))
}

/// The value that a text holds.
pub(crate) fn parse_text(text: &str) -> (r: Option<Json>)
    ensures
        match r {
            Some(value) => text_value(text@) == Some(value@),
            None => text_value(text@) is None,
        },
{
    parse_json(text.as_bytes())
}

/// A value as far as a preview shows it.
pub open spec fn scalar(value: JsonView) -> ScalarView {
    match value {
        JsonView::Text(s) => ScalarView::Text(s),
        JsonView::Unsigned(n) => ScalarView::Number(text::decimal(n as nat)),
        JsonView::Negative(n) => ScalarView::Number(text::signed_decimal(n as int)),
        JsonView::Decimal(s) => ScalarView::Number(s),
        JsonView::Bool(b) => ScalarView::Bool(b),
        _ => ScalarView::Compound,
    }
}

/// The members of an object as far as a preview shows them; `None` for what is none.
pub open spec fn members_of(value: Option<JsonView>) -> Option<Seq<(Seq<char>, ScalarView)>> {
    match value {
        Some(JsonView::Object(members)) => Some(
            Seq::new(members.len(), |i: int| (members[i].name, scalar(members[i].value))),
        ),
        _ => None,
    }
}

/// The members of the object that a text holds, in order.
pub open spec fn json_members(text: Seq<char>) -> Option<Seq<(Seq<char>, ScalarView)>> {
    members_of(text_value(text))
}

fn to_scalar(value: &Json) -> (r: Scalar)
    ensures
        r@ == scalar(value@),
{
    match value {
        Json::Text(s) => Scalar::Text(s.as_str().to_owned()),
        Json::Unsigned(n) => Scalar::Number(text::from_chars(text::decimal_chars(*n).as_slice())),
        Json::Negative(n) => Scalar::Number(text::from_chars(text::signed_chars(*n).as_slice())),
        Json::Decimal(s) => Scalar::Number(s.as_str().to_owned()),
        Json::Bool(b) => Scalar::Bool(*b),
        _ => Scalar::Compound,
    }
}

/// The members of the object that a text holds.
pub(crate) fn parse_members(text: &str) -> (r: Option<Vec<(String, Scalar)>>)
    ensures
        match r {
            Some(members) => json_members(text@) == Some(scalar_views(members@)),
            None => json_members(text@) is None,
        },
{
    let value = match parse_text(text) {
        Some(value) => value,
        None => return None,
    };
    proof {
        lemma_parts(value);
    }
    match &value {
        Json::Object(members) => {
            let ghost all = json_members(text@)->0;
            let mut list: Vec<(String, Scalar)> = Vec::new();
            let mut i: usize = 0;
            while i < members.len()
                invariant
                    all == members_of(Some(JsonView::Object(member_views(members@))))->0,
                    i <= members@.len(),
                    scalar_views(list@) =~= all.take(i as int),
                decreases members@.len() - i,
            {
                let ghost before = list@;
                assert(all[i as int] == (members@[i as int].name@, scalar(
                    members@[i as int].value@,
                )));
                list.push((members[i].name.as_str().to_owned(), to_scalar(&members[i].value)));
                assert(scalar_views(list@) =~= scalar_views(before).push(all[i as int]));
                i = i + 1;
            }
            assert(all.take(i as int) =~= all);
            Some(list)
        },
        _ => None,
    }
}

/// How a character is written in a JSON string: quotes, backslashes and control
/// characters are escaped.
pub open spec fn escaped(c: char) -> Seq<char> {
    if c == '"' || c == '\\' {
        seq!['\\', c]
    } else if c == '\n' {
        seq!['\\', 'n']
    } else if c == '\r' {
        seq!['\\', 'r']
    } else if c == '\t' {
        seq!['\\', 't']
    } else if c as u32 == 0x8 {
        seq!['\\', 'b']
    } else if c as u32 == 0xc {
        seq!['\\', 'f']
    } else if (c as u32) < 0x20 {
        seq!['\\', 'u', '0', '0'].push(encoding::hex_digit(c as int / 16)).push(
            encoding::hex_digit(c as int % 16),
        )
    } else {
        seq![c]
    }
}

/// How the characters of a text are written in a JSON string.
pub open spec fn all_escaped(s: Seq<char>) -> Seq<char>
    decreases s.len(),
{
    if s.len() == 0 {
        Seq::empty()
    } else {
        all_escaped(s.drop_last()) + escaped(s.last())
    }
}

/// A text as a JSON string.
pub open spec fn json_string(s: Seq<char>) -> Seq<char> {
    seq!['"'] + all_escaped(s) + seq!['"']
}

/// `serde_json::to_string` of a text, which cannot fail: the text between quotes, with
/// the escapes of JSON; a control character without an escape of its own is written
/// with four hexadecimal digits in lower case.
#[verifier::external_body]
pub(crate) fn quote(s: &str) -> (r: String)
    ensures
        r@ == json_string(s@),
{
    serde_json::to_string(s).unwrap_or_default()
}

/// The names under which a tool call is likely to say what it works on.
pub open spec fn identifying_names() -> Seq<Seq<char>> {
    seq![
        "path"@,
        "file"@,
        "file_path"@,
        "filename"@,
        "cmd"@,
        "command"@,
        "query"@,
        "pattern"@,
        "url"@,
        "name"@,
        "target"@,
    ]
}

/// The names under which a tool call is likely to say what it works on.
pub(crate) fn identifying() -> (names: [&'static str; 11])
    ensures
        names@.len() == identifying_names().len(),
        forall|i: int| 0 <= i < names@.len() ==> (#[trigger] names@[i])@ == identifying_names()[i],
{
    [
        "path",
        "file",
        "file_path",
        "filename",
        "cmd",
        "command",
        "query",
        "pattern",
        "url",
        "name",
        "target",
    ]
}

/// The scalar under `name`, where the names differ from one another.
pub open spec fn scalar_under(members: Seq<(Seq<char>, ScalarView)>, name: Seq<char>) -> Option<
    ScalarView,
>
    decreases members.len(),
{
    if members.len() == 0 {
        None
    } else if members[0].0 == name {
        Some(members[0].1)
    } else {
        scalar_under(members.skip(1), name)
    }
}

/// The scalar under `name`.
pub(crate) fn find_scalar<'a>(members: &'a Vec<(String, Scalar)>, name: &str) -> (r: Option<
    &'a Scalar,
>)
    ensures
        match r {
            Some(value) => scalar_under(scalar_views(members@), name@) == Some(value@),
            None => scalar_under(scalar_views(members@), name@) is None,
        },
{
    let ghost all = scalar_views(members@);
    let mut i: usize = 0;
    assert(all.skip(0) =~= all);
    while i < members.len()
        invariant
            all == scalar_views(members@),
            i <= members@.len(),
            scalar_under(all, name@) == scalar_under(all.skip(i as int), name@),
        decreases members@.len() - i,
    {
        assert(all.skip(i as int).skip(1) =~= all.skip(i + 1));
        if text::str_eq(members[i].0.as_str(), name) {
            return Some(&members[i].1);
        }
        i = i + 1;
    }
    None
}

} // verus!
