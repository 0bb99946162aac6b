//! Text as sequences of Unicode scalar values.
//!
//! Strings are viewed as `Seq<char>`. The spec functions here say what trimming,
//! splitting, joining and measuring mean on such sequences; the executable
//! functions compute them on `&[char]`.

use vstd::prelude::*;
use vstd::slice::slice_subrange;
use vstd::string::*;
use vstd::utf8::*;

verus! {

// ---- Conversion -------------------------------------------------------------

/// `String::push` appends one scalar value at the end of the string.
pub assume_specification[ String::push ](s: &mut String, c: char)
    ensures
        final(s)@ == old(s)@.push(c),
;

/// The scalar values of `s`, in order.
pub fn to_chars(s: &str) -> (out: Vec<char>)
    ensures
        out@ == s@,
{
    let mut out: Vec<char> = Vec::new();
    for c in it: s.chars()
        invariant
            it.seq() == s@,
            out@ == s@.take(it.index()),
    {
        out.push(c);
    }
    assert(s@.take(s@.len() as int) =~= s@);
    out
}

/// The string that holds `chars`.
pub fn from_chars(chars: &[char]) -> (out: String)
    ensures
        out@ == chars@,
{
    let mut out: String = String::new();
    let mut i: usize = 0;
    while i < chars.len()
        invariant
            i <= chars@.len(),
            out@ == chars@.take(i as int),
        decreases chars@.len() - i,
    {
        out.push(chars[i]);
        assert(chars@.take(i + 1) =~= chars@.take(i as int).push(chars@[i as int]));
        i = i + 1;
    }
    assert(chars@.take(chars@.len() as int) =~= chars@);
    out
}

/// A copy of `chars`.
pub fn copy_chars(chars: &[char]) -> (out: Vec<char>)
    ensures
        out@ == chars@,
{
    let mut out: Vec<char> = Vec::new();
    push_all(&mut out, chars);
    assert(out@ =~= chars@);
    out
}

/// Appends `chars` to `out`.
pub fn push_all(out: &mut Vec<char>, chars: &[char])
    ensures
        final(out)@ == old(out)@ + chars@,
{
    let mut i: usize = 0;
    while i < chars.len()
        invariant
            i <= chars@.len(),
            out@ == old(out)@ + chars@.take(i as int),
        decreases chars@.len() - i,
    {
        out.push(chars[i]);
        assert(chars@.take(i + 1) =~= chars@.take(i as int).push(chars@[i as int]));
        i = i + 1;
    }
    assert(chars@.take(chars@.len() as int) =~= chars@);
}

/// Appends the scalar values of `s` to `out`.
pub fn push_str(out: &mut Vec<char>, s: &str)
    ensures
        final(out)@ == old(out)@ + s@,
{
    let chars = to_chars(s);
    push_all(out, chars.as_slice());
}

/// What a list of strings holds.
pub open spec fn views(list: Seq<String>) -> Seq<Seq<char>> {
    Seq::new(list.len(), |i: int| list[i]@)
}

/// What a list of slices holds.
pub open spec fn slice_views(list: Seq<&[char]>) -> Seq<Seq<char>> {
    Seq::new(list.len(), |i: int| list[i]@)
}

/// What a list of character vectors holds.
pub open spec fn vec_views(list: Seq<Vec<char>>) -> Seq<Seq<char>> {
    Seq::new(list.len(), |i: int| list[i]@)
}

/// What an optional string holds.
pub open spec fn opt_view(value: Option<String>) -> Option<Seq<char>> {
    match value {
        Some(s) => Some(s@),
        None => None,
    }
}

/// What an optional string slice holds.
pub open spec fn opt_str_view(value: Option<&str>) -> Option<Seq<char>> {
    match value {
        Some(s) => Some(s@),
        None => None,
    }
}

/// The strings that hold each of `parts`.
pub fn strings_of(parts: &Vec<Vec<char>>) -> (out: Vec<String>)
    ensures
        views(out@) == vec_views(parts@),
{
    let mut out: Vec<String> = Vec::new();
    let mut i: usize = 0;
    while i < parts.len()
        invariant
            i <= parts@.len(),
            views(out@) == vec_views(parts@).take(i as int),
        decreases parts@.len() - i,
    {
        let ghost before = out@;
        out.push(from_chars(parts[i].as_slice()));
        assert(views(out@) =~= views(before).push(parts@[i as int]@));
        assert(vec_views(parts@).take(i + 1) =~= vec_views(parts@).take(i as int).push(
            parts@[i as int]@,
        ));
        i = i + 1;
    }
    assert(vec_views(parts@).take(parts@.len() as int) =~= vec_views(parts@));
    out
}

// ---- Equality ---------------------------------------------------------------

/// Whether two byte strings hold the same bytes.
pub fn bytes_eq(a: &[u8], b: &[u8]) -> (same: bool)
    ensures
        same == (a@ == b@),
{
    if a.len() != b.len() {
        return false;
    }
    let mut i: usize = 0;
    while i < a.len()
        invariant
            i <= a@.len(),
            a@.len() == b@.len(),
            forall|j: int| 0 <= j < i ==> a@[j] == b@[j],
        decreases a@.len() - i,
    {
        if a[i] != b[i] {
            return false;
        }
        i = i + 1;
    }
    assert(a@ =~= b@);
    true
}

/// Whether two strings hold the same text.
pub fn str_eq(a: &str, b: &str) -> (same: bool)
    ensures
        same == (a@ == b@),
{
    proof {
        encode_utf8_decode_utf8(a@);
        encode_utf8_decode_utf8(b@);
    }
    bytes_eq(a.as_bytes(), b.as_bytes())
}

/// Whether two character slices hold the same text.
pub fn chars_eq(a: &[char], b: &[char]) -> (same: bool)
    ensures
        same == (a@ == b@),
{
    if a.len() != b.len() {
        return false;
    }
    let mut i: usize = 0;
    while i < a.len()
        invariant
            i <= a@.len(),
            a@.len() == b@.len(),
            forall|j: int| 0 <= j < i ==> a@[j] == b@[j],
        decreases a@.len() - i,
    {
        if a[i] != b[i] {
            return false;
        }
        i = i + 1;
    }
    assert(a@ =~= b@);
    true
}

/// Whether `list` holds `wanted`.
pub fn contains_str(list: &[String], wanted: &str) -> (found: bool)
    ensures
        found == views(list@).contains(wanted@),
{
    let mut i: usize = 0;
    while i < list.len()
        invariant
            i <= list@.len(),
            forall|j: int| 0 <= j < i ==> list@[j]@ != wanted@,
        decreases list@.len() - i,
    {
        if str_eq(list[i].as_str(), wanted) {
            assert(views(list@)[i as int] == wanted@);
            return true;
        }
        i = i + 1;
    }
    assert(!views(list@).contains(wanted@)) by {
        assert forall|j: int| 0 <= j < views(list@).len() implies views(list@)[j] != wanted@ by {
            assert(list@[j]@ != wanted@);
        }
    }
    false
}

// ---- Order ------------------------------------------------------------------

/// Whether `a` stands before `b` in the order of their characters.
pub open spec fn stands_before(a: Seq<char>, b: Seq<char>) -> bool
    decreases a.len(),
{
    if b.len() == 0 {
        false
    } else if a.len() == 0 {
        true
    } else if a[0] == b[0] {
        stands_before(a.skip(1), b.skip(1))
    } else {
        a[0] < b[0]
    }
}

/// Whether `a` stands before `b` in the order of their characters.
pub fn precedes(a: &[char], b: &[char]) -> (r: bool)
    ensures
        r == stands_before(a@, b@),
{
    let mut i: usize = 0;
    assert(a@.skip(0) =~= a@ && b@.skip(0) =~= b@);
    while i < a.len() && i < b.len() && a[i] == b[i]
        invariant
            i <= a@.len(),
            i <= b@.len(),
            stands_before(a@, b@) == stands_before(a@.skip(i as int), b@.skip(i as int)),
        decreases a@.len() - i,
    {
        assert(a@.skip(i as int).skip(1) =~= a@.skip(i + 1));
        assert(b@.skip(i as int).skip(1) =~= b@.skip(i + 1));
        i = i + 1;
    }
    if i >= b.len() {
        false
    } else if i >= a.len() {
        true
    } else {
        assert(a@.skip(i as int)[0] == a@[i as int] && b@.skip(i as int)[0] == b@[i as int]);
        a[i] < b[i]
    }
}

/// What stands before a text stands before all that it stands before.
pub proof fn lemma_order_is_transitive(a: Seq<char>, b: Seq<char>, c: Seq<char>)
    requires
        stands_before(a, b),
        stands_before(b, c),
    ensures
        stands_before(a, c),
    decreases a.len(),
{
    if a.len() > 0 && a[0] == b[0] && b[0] == c[0] {
        lemma_order_is_transitive(a.skip(1), b.skip(1), c.skip(1));
    }
}

/// No two texts stand before each other.
pub proof fn lemma_order_is_strict(a: Seq<char>, b: Seq<char>)
    ensures
        !(stands_before(a, b) && stands_before(b, a)),
    decreases a.len(),
{
    if a.len() > 0 && b.len() > 0 && a[0] == b[0] {
        lemma_order_is_strict(a.skip(1), b.skip(1));
    }
}

/// Of two different texts one stands before the other.
pub proof fn lemma_order_is_total(a: Seq<char>, b: Seq<char>)
    requires
        a != b,
    ensures
        stands_before(a, b) || stands_before(b, a),
    decreases a.len(),
{
    if a.len() == 0 || b.len() == 0 {
        assert(a.len() == 0 && b.len() == 0 ==> a =~= b);
    } else if a[0] == b[0] {
        if a.skip(1) == b.skip(1) {
            assert(a =~= seq![a[0]] + a.skip(1));
            assert(b =~= seq![b[0]] + b.skip(1));
        }
        lemma_order_is_total(a.skip(1), b.skip(1));
    }
}

// ---- Character classes ------------------------------------------------------

/// The Unicode `White_Space` property.
pub open spec fn is_white(c: char) -> bool {
    let n = c as u32;
    ||| 0x9 <= n <= 0xd
    ||| n == 0x20
    ||| n == 0x85
    ||| n == 0xa0
    ||| n == 0x1680
    ||| 0x2000 <= n <= 0x200a
    ||| n == 0x2028
    ||| n == 0x2029
    ||| n == 0x202f
    ||| n == 0x205f
    ||| n == 0x3000
}

/// Whether `c` is white space.
pub fn is_whitespace(c: char) -> (b: bool)
    ensures
        b == is_white(c),
{
    let n: u32 = c as u32;
    (0x9 <= n && n <= 0xd) || n == 0x20 || n == 0x85 || n == 0xa0 || n == 0x1680 || (0x2000 <= n
        && n <= 0x200a) || n == 0x2028 || n == 0x2029 || n == 0x202f || n == 0x205f || n == 0x3000
}

/// ASCII decimal digits.
pub open spec fn is_digit(c: char) -> bool {
    '0' <= c <= '9'
}

/// ASCII letters.
pub open spec fn is_ascii_letter(c: char) -> bool {
    ('a' <= c <= 'z') || ('A' <= c <= 'Z')
}

/// ASCII letters and digits.
pub open spec fn is_ascii_alnum(c: char) -> bool {
    is_ascii_letter(c) || is_digit(c)
}

/// Whether `c` is an ASCII digit.
pub fn is_ascii_digit(c: char) -> (b: bool)
    ensures
        b == is_digit(c),
{
    '0' <= c && c <= '9'
}

/// Whether `c` is an ASCII letter or digit.
pub fn is_ascii_alphanumeric(c: char) -> (b: bool)
    ensures
        b == is_ascii_alnum(c),
{
    ('a' <= c && c <= 'z') || ('A' <= c && c <= 'Z') || ('0' <= c && c <= '9')
}

/// Whether every character of `s` is an ASCII digit.
pub open spec fn digits_only(s: Seq<char>) -> bool {
    forall|i: int| 0 <= i < s.len() ==> is_digit(#[trigger] s[i])
}

/// Whether every character of `s` is an ASCII digit.
pub fn all_digits(s: &[char]) -> (b: bool)
    ensures
        b == digits_only(s@),
{
    let mut i: usize = 0;
    while i < s.len()
        invariant
            i <= s@.len(),
            forall|j: int| 0 <= j < i ==> is_digit(#[trigger] s@[j]),
        decreases s@.len() - i,
    {
        if !is_ascii_digit(s[i]) {
            return false;
        }
        i = i + 1;
    }
    true
}

/// `c` with an ASCII capital turned into its small letter.
pub open spec fn ascii_lower(c: char) -> char {
    if 'A' <= c <= 'Z' {
        ((c as u32) + 32) as char
    } else {
        c
    }
}

/// `s` with every ASCII capital turned into its small letter.
pub open spec fn lowered(s: Seq<char>) -> Seq<char> {
    s.map_values(|c: char| ascii_lower(c))
}

/// `c` with an ASCII capital turned into its small letter.
pub fn to_ascii_lower(c: char) -> (r: char)
    ensures
        r == ascii_lower(c),
{
    if 'A' <= c && c <= 'Z' {
        let b: u8 = (c as u32 + 32) as u8;
        b as char
    } else {
        c
    }
}

/// Whether `a` and `b` are the same text up to the case of ASCII letters.
pub open spec fn same_ignoring_case(a: Seq<char>, b: Seq<char>) -> bool {
    lowered(a) == lowered(b)
}

/// Whether `a` and `b` are the same text up to the case of ASCII letters.
pub fn eq_ignore_ascii_case(a: &[char], b: &[char]) -> (same: bool)
    ensures
        same == same_ignoring_case(a@, b@),
{
    if a.len() != b.len() {
        assert(lowered(a@).len() != lowered(b@).len());
        return false;
    }
    let mut i: usize = 0;
    while i < a.len()
        invariant
            i <= a@.len(),
            a@.len() == b@.len(),
            forall|j: int| 0 <= j < i ==> ascii_lower(a@[j]) == ascii_lower(b@[j]),
        decreases a@.len() - i,
    {
        if to_ascii_lower(a[i]) != to_ascii_lower(b[i]) {
            assert(lowered(a@)[i as int] != lowered(b@)[i as int]);
            return false;
        }
        i = i + 1;
    }
    assert(lowered(a@) =~= lowered(b@));
    true
}

/// Whether two strings are the same text up to the case of ASCII letters.
pub fn str_eq_ignore_case(a: &str, b: &str) -> (same: bool)
    ensures
        same == same_ignoring_case(a@, b@),
{
    let left = to_chars(a);
    let right = to_chars(b);
    eq_ignore_ascii_case(left.as_slice(), right.as_slice())
}

// ---- Trimming ---------------------------------------------------------------

/// `s` without its leading white space.
pub open spec fn trimmed_start(s: Seq<char>) -> Seq<char>
    decreases s.len(),
{
    if s.len() > 0 && is_white(s[0]) {
        trimmed_start(s.skip(1))
    } else {
        s
    }
}

/// `s` without its trailing white space.
pub open spec fn trimmed_end(s: Seq<char>) -> Seq<char>
    decreases s.len(),
{
    if s.len() > 0 && is_white(s.last()) {
        trimmed_end(s.drop_last())
    } else {
        s
    }
}

/// `s` without the white space at its two ends.
pub open spec fn trimmed(s: Seq<char>) -> Seq<char> {
    trimmed_end(trimmed_start(s))
}

/// `s` without its leading white space.
pub fn trim_start<'a>(s: &'a [char]) -> (r: &'a [char])
    ensures
        r@ == trimmed_start(s@),
        r@.len() <= s@.len(),
        r@ == s@.skip(s@.len() - r@.len()),
{
    let mut i: usize = 0;
    assert(s@.skip(0) =~= s@);
    while i < s.len() && is_whitespace(s[i])
        invariant
            i <= s@.len(),
            trimmed_start(s@) == trimmed_start(s@.skip(i as int)),
        decreases s@.len() - i,
    {
        assert(s@.skip(i as int).skip(1) =~= s@.skip(i + 1));
        i = i + 1;
    }
    assert(s@.subrange(i as int, s@.len() as int) =~= s@.skip(i as int));
    slice_subrange(s, i, s.len())
}

/// `s` without its trailing white space.
pub fn trim_end<'a>(s: &'a [char]) -> (r: &'a [char])
    ensures
        r@ == trimmed_end(s@),
        r@.len() <= s@.len(),
        r@ == s@.take(r@.len() as int),
{
    let mut n: usize = s.len();
    assert(s@.take(s@.len() as int) =~= s@);
    while n > 0 && is_whitespace(s[n - 1])
        invariant
            n <= s@.len(),
            trimmed_end(s@) == trimmed_end(s@.take(n as int)),
        decreases n,
    {
        assert(s@.take(n as int).drop_last() =~= s@.take(n - 1));
        n = n - 1;
    }
    assert(s@.subrange(0, n as int) =~= s@.take(n as int));
    slice_subrange(s, 0, n)
}

/// `s` without the white space at its two ends.
pub fn trim<'a>(s: &'a [char]) -> (r: &'a [char])
    ensures
        r@ == trimmed(s@),
{
    trim_end(trim_start(s))
}

/// Whether nothing but white space is in `s`.
pub open spec fn is_blank(s: Seq<char>) -> bool {
    trimmed(s).len() == 0
}

// ---- Prefixes ---------------------------------------------------------------

/// Whether `s` begins with `prefix`.
pub open spec fn begins_with(s: Seq<char>, prefix: Seq<char>) -> bool {
    prefix.len() <= s.len() && s.take(prefix.len() as int) == prefix
}

/// Whether `s` begins with `prefix`.
pub fn starts_with(s: &[char], prefix: &str) -> (b: bool)
    ensures
        b == begins_with(s@, prefix@),
{
    let p = to_chars(prefix);
    starts_with_chars(s, p.as_slice())
}

/// Whether `s` begins with `prefix`.
pub fn starts_with_chars(s: &[char], prefix: &[char]) -> (b: bool)
    ensures
        b == begins_with(s@, prefix@),
{
    if prefix.len() > s.len() {
        return false;
    }
    let head = slice_subrange(s, 0, prefix.len());
    assert(head@ =~= s@.take(prefix@.len() as int));
    chars_eq(head, prefix)
}

/// The part of `s` from index `from` on.
pub fn skip<'a>(s: &'a [char], from: usize) -> (r: &'a [char])
    requires
        from <= s@.len(),
    ensures
        r@ == s@.skip(from as int),
{
    assert(s@.subrange(from as int, s@.len() as int) =~= s@.skip(from as int));
    slice_subrange(s, from, s.len())
}

/// The part of `s` before index `to`.
pub fn take<'a>(s: &'a [char], to: usize) -> (r: &'a [char])
    requires
        to <= s@.len(),
    ensures
        r@ == s@.take(to as int),
{
    assert(s@.subrange(0, to as int) =~= s@.take(to as int));
    slice_subrange(s, 0, to)
}

// ---- Finding ----------------------------------------------------------------

/// The first index from `i` on at which `s` holds `c`, or the length of `s`.
pub open spec fn next_at(s: Seq<char>, c: char, i: int) -> int
    decreases s.len() - i,
{
    if i >= s.len() {
        s.len() as int
    } else if s[i] == c {
        i
    } else {
        next_at(s, c, i + 1)
    }
}

pub proof fn lemma_next_at(s: Seq<char>, c: char, i: int)
    requires
        0 <= i <= s.len(),
    ensures
        i <= next_at(s, c, i) <= s.len(),
        next_at(s, c, i) < s.len() ==> s[next_at(s, c, i)] == c,
        forall|j: int| i <= j < next_at(s, c, i) ==> s[j] != c,
    decreases s.len() - i,
{
    if i < s.len() && s[i] != c {
        lemma_next_at(s, c, i + 1);
    }
}

/// The first index from `from` on at which `s` holds `c`, or the length of `s`.
pub fn find_char(s: &[char], c: char, from: usize) -> (r: usize)
    requires
        from <= s@.len(),
    ensures
        r == next_at(s@, c, from as int),
        from <= r <= s@.len(),
        r < s@.len() ==> s@[r as int] == c,
        forall|j: int| from <= j < r ==> s@[j] != c,
{
    let mut i: usize = from;
    while i < s.len() && s[i] != c
        invariant
            from <= i <= s@.len(),
            next_at(s@, c, from as int) == next_at(s@, c, i as int),
            forall|j: int| from <= j < i ==> s@[j] != c,
        decreases s@.len() - i,
    {
        i = i + 1;
    }
    i
}

/// Whether `s` holds `c`.
pub fn contains_char(s: &[char], c: char) -> (b: bool)
    ensures
        b == s@.contains(c),
{
    let i: usize = find_char(s, c, 0);
    assert(i < s@.len() ==> s@.contains(s@[i as int]));
    i < s.len()
}

/// The first index from `i` on at which `pattern` stands in `s`, or the length
/// of `s` where it does not.
pub open spec fn next_match(s: Seq<char>, pattern: Seq<char>, i: int) -> int
    decreases s.len() - i,
{
    if i >= s.len() {
        s.len() as int
    } else if begins_with(s.skip(i), pattern) {
        i
    } else {
        next_match(s, pattern, i + 1)
    }
}

/// The first index from `from` on at which `pattern` stands in `s`, or the
/// length of `s` where it does not.
pub fn find_match(s: &[char], pattern: &[char], from: usize) -> (r: usize)
    requires
        from <= s@.len(),
    ensures
        r == next_match(s@, pattern@, from as int),
        from <= r <= s@.len(),
        r < s@.len() ==> begins_with(s@.skip(r as int), pattern@),
{
    let mut i: usize = from;
    while i < s.len() && !starts_with_chars(skip(s, i), pattern)
        invariant
            from <= i <= s@.len(),
            next_match(s@, pattern@, from as int) == next_match(s@, pattern@, i as int),
        decreases s@.len() - i,
    {
        i = i + 1;
    }
    i
}

// ---- Runs and words ---------------------------------------------------------

/// How often `c` is repeated from `i` on.
pub open spec fn run_of(s: Seq<char>, c: char, i: int) -> nat
    decreases s.len() - i,
{
    if 0 <= i < s.len() && s[i] == c {
        1 + run_of(s, c, i + 1)
    } else {
        0
    }
}

pub proof fn lemma_run_of(s: Seq<char>, c: char, i: int)
    requires
        0 <= i <= s.len(),
    ensures
        i + run_of(s, c, i) <= s.len(),
    decreases s.len() - i,
{
    if i < s.len() && s[i] == c {
        lemma_run_of(s, c, i + 1);
    }
}

/// How often `c` is repeated from `i` on.
pub fn run_len(s: &[char], c: char, i: usize) -> (n: usize)
    requires
        i <= s@.len(),
    ensures
        n == run_of(s@, c, i as int),
        i + n <= s@.len(),
{
    let mut j: usize = i;
    while j < s.len() && s[j] == c
        invariant
            i <= j <= s@.len(),
            run_of(s@, c, i as int) == (j - i) + run_of(s@, c, j as int),
        decreases s@.len() - j,
    {
        j = j + 1;
    }
    j - i
}

/// The index of the first white space of `s` from `i` on, or the length of `s`.
pub open spec fn word_end(s: Seq<char>, i: int) -> int
    decreases s.len() - i,
{
    if i >= s.len() {
        s.len() as int
    } else if is_white(s[i]) {
        i
    } else {
        word_end(s, i + 1)
    }
}

/// The first word of `s`; empty where `s` is blank.
pub open spec fn first_word(s: Seq<char>) -> Seq<char> {
    trimmed_start(s).take(word_end(trimmed_start(s), 0))
}

/// The first word of `s`; empty where `s` is blank.
pub fn find_first_word<'a>(s: &'a [char]) -> (r: &'a [char])
    ensures
        r@ == first_word(s@),
{
    let t = trim_start(s);
    let mut i: usize = 0;
    while i < t.len() && !is_whitespace(t[i])
        invariant
            i <= t@.len(),
            word_end(t@, 0) == word_end(t@, i as int),
        decreases t@.len() - i,
    {
        i = i + 1;
    }
    take(t, i)
}

/// The index of the first character of `s` from `i` on that is no white space,
/// or the length of `s`.
pub open spec fn word_start(s: Seq<char>, i: int) -> int
    decreases s.len() - i,
{
    if i >= s.len() {
        s.len() as int
    } else if !is_white(s[i]) {
        i
    } else {
        word_start(s, i + 1)
    }
}

pub proof fn lemma_word_start(s: Seq<char>, i: int)
    requires
        0 <= i <= s.len(),
    ensures
        i <= word_start(s, i) <= s.len(),
        word_start(s, i) < s.len() ==> !is_white(s[word_start(s, i)]),
        forall|j: int| i <= j < word_start(s, i) ==> is_white(s[j]),
    decreases s.len() - i,
{
    if i < s.len() && is_white(s[i]) {
        lemma_word_start(s, i + 1);
    }
}

pub proof fn lemma_word_end(s: Seq<char>, i: int)
    requires
        0 <= i <= s.len(),
    ensures
        i <= word_end(s, i) <= s.len(),
        forall|j: int| i <= j < word_end(s, i) ==> !is_white(s[j]),
        i < s.len() && !is_white(s[i]) ==> i < word_end(s, i),
    decreases s.len() - i,
{
    if i < s.len() && !is_white(s[i]) {
        lemma_word_end(s, i + 1);
    }
}

/// The words of `s` from index `i` on: the runs of characters between white space.
pub open spec fn words_from(s: Seq<char>, i: int) -> Seq<Seq<char>>
    decreases s.len() - i,
    when 0 <= i <= s.len()
    via words_from_decreases
{
    let begin = word_start(s, i);
    if begin >= s.len() {
        Seq::empty()
    } else {
        let end = word_end(s, begin);
        seq![s.subrange(begin, end)] + words_from(s, end)
    }
}

#[via_fn]
proof fn words_from_decreases(s: Seq<char>, i: int) {
    lemma_word_start(s, i);
    if word_start(s, i) < s.len() {
        lemma_word_end(s, word_start(s, i));
    }
}

/// The words of `s`.
pub open spec fn words(s: Seq<char>) -> Seq<Seq<char>> {
    words_from(s, 0)
}

/// The words of `s`.
pub fn split_words<'a>(s: &'a [char]) -> (list: Vec<&'a [char]>)
    ensures
        slice_views(list@) == words(s@),
{
    let mut list: Vec<&'a [char]> = Vec::new();
    let mut i: usize = 0;
    assert(slice_views(list@) + words_from(s@, 0) =~= words(s@));
    loop
        invariant_except_break
            i <= s@.len(),
            slice_views(list@) + words_from(s@, i as int) == words(s@),
        ensures
            slice_views(list@) == words(s@),
        decreases s@.len() - i,
    {
        let mut begin: usize = i;
        while begin < s.len() && is_whitespace(s[begin])
            invariant
                i <= begin <= s@.len(),
                word_start(s@, i as int) == word_start(s@, begin as int),
            decreases s@.len() - begin,
        {
            begin = begin + 1;
        }
        if begin >= s.len() {
            assert(slice_views(list@) + Seq::<Seq<char>>::empty() =~= slice_views(list@));
            break;
        }
        let mut end: usize = begin;
        while end < s.len() && !is_whitespace(s[end])
            invariant
                begin <= end <= s@.len(),
                word_end(s@, begin as int) == word_end(s@, end as int),
            decreases s@.len() - end,
        {
            end = end + 1;
        }
        let ghost before = slice_views(list@);
        let word = slice_subrange(s, begin, end);
        list.push(word);
        proof {
            lemma_word_end(s@, begin as int);
            assert(slice_views(list@) =~= before + seq![word@]);
            vstd::seq_lib::lemma_concat_associative(before, seq![word@], words_from(s@, end as int));
        }
        i = end;
    }
    list
}

// ---- Replacing --------------------------------------------------------------

/// `s` from index `i` on, with every occurrence of `pattern`, found from left to
/// right, replaced by `with`.
pub open spec fn replaced_from(s: Seq<char>, pattern: Seq<char>, with: Seq<char>, i: int) -> Seq<char>
    decreases s.len() - i,
{
    if i < 0 || i >= s.len() || pattern.len() == 0 {
        Seq::empty()
    } else if begins_with(s.skip(i), pattern) {
        with + replaced_from(s, pattern, with, i + pattern.len())
    } else {
        seq![s[i]] + replaced_from(s, pattern, with, i + 1)
    }
}

/// `s` with every occurrence of the non-empty `pattern`, found from left to
/// right, replaced by `with`.
pub open spec fn replaced(s: Seq<char>, pattern: Seq<char>, with: Seq<char>) -> Seq<char> {
    replaced_from(s, pattern, with, 0)
}

/// Text in which a pattern cannot begin stays as it is.
pub proof fn lemma_replaced_absent(s: Seq<char>, pattern: Seq<char>, with: Seq<char>, i: int)
    requires
        0 <= i <= s.len(),
        pattern.len() > 0,
        forall|j: int| i <= j < s.len() ==> s[j] != pattern[0],
    ensures
        replaced_from(s, pattern, with, i) == s.skip(i),
    decreases s.len() - i,
{
    if i < s.len() {
        lemma_replaced_absent(s, pattern, with, i + 1);
        if begins_with(s.skip(i), pattern) {
            assert(s.skip(i).take(pattern.len() as int)[0] == s[i]);
        }
        assert(seq![s[i]] + s.skip(i + 1) =~= s.skip(i));
    } else {
        assert(s.skip(i) =~= Seq::empty());
    }
}

/// `s` with every occurrence of `pattern` replaced by `with`.
pub fn replace(s: &[char], pattern: &str, with: &str) -> (out: Vec<char>)
    requires
        pattern@.len() > 0,
    ensures
        out@ == replaced(s@, pattern@, with@),
{
    let p = to_chars(pattern);
    let w = to_chars(with);
    let mut out: Vec<char> = Vec::new();
    let mut i: usize = 0;
    while i < s.len()
        invariant
            p@ == pattern@,
            w@ == with@,
            p@.len() > 0,
            i <= s@.len(),
            out@ + replaced_from(s@, pattern@, with@, i as int) =~= replaced(s@, pattern@, with@),
        decreases s@.len() - i,
    {
        if starts_with_chars(skip(s, i), p.as_slice()) {
            push_all(&mut out, w.as_slice());
            i = i + p.len();
        } else {
            out.push(s[i]);
            i = i + 1;
        }
    }
    out
}

/// A text that is set and not blank.
pub open spec fn when_filled(value: Option<Seq<char>>) -> Option<Seq<char>> {
    match value {
        Some(s) => if is_blank(s) {
            None
        } else {
            Some(s)
        },
        None => None,
    }
}

/// A text that is set and not blank.
pub fn filled(value: Option<&str>) -> (r: Option<String>)
    ensures
        opt_view(r) == when_filled(opt_str_view(value)),
{
    match value {
        Some(s) => {
            let chars = to_chars(s);
            if trim(chars.as_slice()).len() == 0 {
                None
            } else {
                Some(s.to_owned())
            }
        },
        None => None,
    }
}

/// An optional string as an optional text.
pub fn as_text(value: &Option<String>) -> (r: Option<&str>)
    ensures
        opt_str_view(r) == opt_view(*value),
{
    match value {
        Some(s) => Some(s.as_str()),
        None => None,
    }
}

// ---- Splitting --------------------------------------------------------------

/// The parts of `s` from index `start` on that `c` separates.
pub open spec fn split_from(s: Seq<char>, c: char, start: int) -> Seq<Seq<char>>
    decreases s.len() - start,
    when 0 <= start <= s.len()
    via split_from_decreases
{
    let end = next_at(s, c, start);
    if end >= s.len() {
        seq![s.subrange(start, s.len() as int)]
    } else {
        seq![s.subrange(start, end)] + split_from(s, c, end + 1)
    }
}

#[via_fn]
proof fn split_from_decreases(s: Seq<char>, c: char, start: int) {
    lemma_next_at(s, c, start);
}

/// The parts of `s` that `c` separates: one more than there are separators.
pub open spec fn split_on(s: Seq<char>, c: char) -> Seq<Seq<char>> {
    split_from(s, c, 0)
}

/// The parts of `s` that `c` separates.
pub fn split_char<'a>(s: &'a [char], c: char) -> (parts: Vec<&'a [char]>)
    ensures
        slice_views(parts@) == split_on(s@, c),
        parts@.len() >= 1,
{
    let mut parts: Vec<&'a [char]> = Vec::new();
    let mut start: usize = 0;
    loop
        invariant_except_break
            start <= s@.len(),
            slice_views(parts@) + split_from(s@, c, start as int) =~= split_on(s@, c),
        ensures
            slice_views(parts@) == split_on(s@, c),
            parts@.len() >= 1,
        decreases s@.len() - start,
    {
        let end: usize = find_char(s, c, start);
        let ghost before = parts@;
        parts.push(slice_subrange(s, start, end));
        assert(slice_views(parts@) =~= slice_views(before).push(
            s@.subrange(start as int, end as int),
        ));
        if end >= s.len() {
            assert(slice_views(parts@) =~= slice_views(before) + seq![
                s@.subrange(start as int, s@.len() as int),
            ]);
            break;
        }
        assert(slice_views(parts@) + split_from(s@, c, end + 1) =~= slice_views(before) + (seq![
            s@.subrange(start as int, end as int),
        ] + split_from(s@, c, end + 1)));
        start = end + 1;
    }
    parts
}

// ---- Joining ----------------------------------------------------------------

/// `parts` one after the other, with `sep` between two neighbours.
pub open spec fn joined(parts: Seq<Seq<char>>, sep: Seq<char>) -> Seq<char>
    decreases parts.len(),
{
    if parts.len() == 0 {
        Seq::empty()
    } else if parts.len() == 1 {
        parts[0]
    } else {
        joined(parts.drop_last(), sep) + sep + parts.last()
    }
}

/// Appends `part` to the joined text `out` of the parts before it.
pub proof fn lemma_joined_push(parts: Seq<Seq<char>>, part: Seq<char>, sep: Seq<char>)
    ensures
        joined(parts.push(part), sep) == (if parts.len() == 0 {
            part
        } else {
            joined(parts, sep) + sep + part
        }),
{
    assert(parts.push(part).drop_last() =~= parts);
}

/// The first part stands before the others, with `sep` between.
pub proof fn lemma_joined_front(part: Seq<char>, parts: Seq<Seq<char>>, sep: Seq<char>)
    ensures
        joined(seq![part] + parts, sep) == (if parts.len() == 0 {
            part
        } else {
            part + sep + joined(parts, sep)
        }),
    decreases parts.len(),
{
    let all = seq![part] + parts;
    if parts.len() == 0 {
        assert(all =~= seq![part]);
    } else {
        assert(all.drop_last() =~= seq![part] + parts.drop_last());
        lemma_joined_front(part, parts.drop_last(), sep);
        assert(all.last() == parts.last());
        if parts.len() == 1 {
            assert(parts.drop_last() =~= Seq::empty());
        } else {
            assert(joined(all, sep) =~= part + sep + joined(parts, sep));
        }
    }
}

/// `parts` one after the other, with `sep` between two neighbours.
pub fn join(parts: &Vec<Vec<char>>, sep: &str) -> (out: Vec<char>)
    ensures
        out@ == joined(vec_views(parts@), sep@),
{
    let mut out: Vec<char> = Vec::new();
    let mut i: usize = 0;
    assert(vec_views(parts@).take(0) =~= Seq::empty());
    while i < parts.len()
        invariant
            i <= parts@.len(),
            out@ == joined(vec_views(parts@).take(i as int), sep@),
        decreases parts@.len() - i,
    {
        let ghost done = vec_views(parts@).take(i as int);
        proof {
            lemma_joined_push(done, parts@[i as int]@, sep@);
            assert(vec_views(parts@).take(i + 1) =~= done.push(parts@[i as int]@));
        }
        if i > 0 {
            push_str(&mut out, sep);
        } else {
            assert(out@ =~= Seq::empty());
        }
        push_all(&mut out, parts[i].as_slice());
        i = i + 1;
    }
    assert(vec_views(parts@).take(parts@.len() as int) =~= vec_views(parts@));
    out
}

/// `parts` one after the other, with `sep` between two neighbours.
pub fn join_slices(parts: &[&[char]], sep: &str) -> (out: Vec<char>)
    ensures
        out@ == joined(slice_views(parts@), sep@),
{
    let mut out: Vec<char> = Vec::new();
    let mut i: usize = 0;
    assert(slice_views(parts@).take(0) =~= Seq::empty());
    while i < parts.len()
        invariant
            i <= parts@.len(),
            out@ == joined(slice_views(parts@).take(i as int), sep@),
        decreases parts@.len() - i,
    {
        let ghost done = slice_views(parts@).take(i as int);
        proof {
            lemma_joined_push(done, parts@[i as int]@, sep@);
            assert(slice_views(parts@).take(i + 1) =~= done.push(parts@[i as int]@));
        }
        if i > 0 {
            push_str(&mut out, sep);
        } else {
            assert(out@ =~= Seq::empty());
        }
        push_all(&mut out, parts[i]);
        i = i + 1;
    }
    assert(slice_views(parts@).take(parts@.len() as int) =~= slice_views(parts@));
    out
}

/// The words of `s` with one space between two of them.
pub open spec fn collapsed(s: Seq<char>) -> Seq<char> {
    joined(words(s), " "@)
}

/// The words of `s` with one space between two of them.
pub fn collapse(s: &[char]) -> (out: Vec<char>)
    ensures
        out@ == collapsed(s@),
{
    let list = split_words(s);
    join_slices(list.as_slice(), " ")
}

/// At most the first `n` characters of `s`.
pub open spec fn capped(s: Seq<char>, n: nat) -> Seq<char> {
    if s.len() <= n {
        s
    } else {
        s.take(n as int)
    }
}

/// At most the first `n` characters of `s`.
pub fn cap<'a>(s: &'a [char], n: usize) -> (r: &'a [char])
    ensures
        r@ == capped(s@, n as nat),
{
    if s.len() <= n {
        s
    } else {
        take(s, n)
    }
}

// ---- Measuring --------------------------------------------------------------

/// The number of UTF-8 bytes of one scalar value.
pub open spec fn utf8_width(c: char) -> nat {
    let n = c as u32;
    if n < 0x80 {
        1
    } else if n < 0x800 {
        2
    } else if n < 0x10000 {
        3
    } else {
        4
    }
}

/// The number of UTF-16 code units of one scalar value.
pub open spec fn utf16_width(c: char) -> nat {
    if (c as u32) < 0x10000 {
        1
    } else {
        2
    }
}

/// The number of UTF-8 bytes of a text.
pub open spec fn utf8_units(s: Seq<char>) -> nat
    decreases s.len(),
{
    if s.len() == 0 {
        0
    } else {
        utf8_units(s.drop_last()) + utf8_width(s.last())
    }
}

/// The number of UTF-16 code units of a text.
pub open spec fn utf16_units(s: Seq<char>) -> nat
    decreases s.len(),
{
    if s.len() == 0 {
        0
    } else {
        utf16_units(s.drop_last()) + utf16_width(s.last())
    }
}

/// The number of UTF-8 bytes of `c`.
pub fn len_utf8(c: char) -> (n: usize)
    ensures
        n == utf8_width(c),
        1 <= n <= 4,
{
    let v: u32 = c as u32;
    if v < 0x80 {
        1
    } else if v < 0x800 {
        2
    } else if v < 0x10000 {
        3
    } else {
        4
    }
}

/// The number of UTF-16 code units of `c`.
pub fn len_utf16(c: char) -> (n: usize)
    ensures
        n == utf16_width(c),
        1 <= n <= 2,
{
    if (c as u32) < 0x10000 {
        1
    } else {
        2
    }
}

/// Both measures add up over concatenation.
pub proof fn lemma_units_add(a: Seq<char>, b: Seq<char>)
    ensures
        utf8_units(a + b) == utf8_units(a) + utf8_units(b),
        utf16_units(a + b) == utf16_units(a) + utf16_units(b),
    decreases b.len(),
{
    if b.len() == 0 {
        assert(a + b =~= a);
    } else {
        assert((a + b).drop_last() =~= a + b.drop_last());
        lemma_units_add(a, b.drop_last());
    }
}

/// Both measures lie between the number of characters and a small multiple of it.
pub proof fn lemma_units_bounds(s: Seq<char>)
    ensures
        s.len() <= utf16_units(s) <= utf8_units(s) <= 4 * s.len(),
        utf16_units(s) <= 2 * s.len(),
    decreases s.len(),
{
    if s.len() > 0 {
        lemma_units_bounds(s.drop_last());
    }
}

/// The measures of a single character.
pub proof fn lemma_units_one(c: char)
    ensures
        utf8_units(seq![c]) == utf8_width(c),
        utf16_units(seq![c]) == utf16_width(c),
{
    reveal_with_fuel(utf8_units, 2);
    reveal_with_fuel(utf16_units, 2);
    assert(seq![c].drop_last() =~= Seq::<char>::empty());
}

/// The measures of a prefix that grows by one character.
pub proof fn lemma_units_take(s: Seq<char>, i: int)
    requires
        0 <= i < s.len(),
    ensures
        utf8_units(s.take(i + 1)) == utf8_units(s.take(i)) + utf8_width(s[i]),
        utf16_units(s.take(i + 1)) == utf16_units(s.take(i)) + utf16_width(s[i]),
{
    assert(s.take(i + 1).drop_last() =~= s.take(i));
}

/// A part is no longer than the whole.
pub proof fn lemma_units_part(s: Seq<char>, i: int, j: int)
    requires
        0 <= i <= j <= s.len(),
    ensures
        utf8_units(s.subrange(i, j)) <= utf8_units(s),
        utf16_units(s.subrange(i, j)) <= utf16_units(s),
{
    assert(s =~= s.subrange(0, i) + s.subrange(i, j) + s.subrange(j, s.len() as int));
    lemma_units_add(s.subrange(0, i) + s.subrange(i, j), s.subrange(j, s.len() as int));
    lemma_units_add(s.subrange(0, i), s.subrange(i, j));
}

/// `utf8_units` is the length of the UTF-8 encoding.
pub proof fn lemma_utf8_units(s: Seq<char>)
    ensures
        encode_utf8(s).len() == utf8_units(s),
    decreases s.len(),
{
    if s.len() > 0 {
        lemma_utf8_units(s.drop_first());
        assert(s =~= seq![s[0]] + s.drop_first());
        lemma_units_add(seq![s[0]], s.drop_first());
        lemma_units_one(s[0]);
        char_is_scalar(s[0]);
    }
}

/// The lesser of `cap` and the number of UTF-16 code units of `s`.
pub fn utf16_capped(s: &[char], cap: usize) -> (n: usize)
    ensures
        n == (if utf16_units(s@) < cap {
            utf16_units(s@)
        } else {
            cap as nat
        }),
{
    let mut n: usize = 0;
    let mut i: usize = 0;
    while i < s.len()
        invariant
            i <= s@.len(),
            n == utf16_units(s@.take(i as int)),
            n <= cap,
        decreases s@.len() - i,
    {
        proof {
            lemma_units_take(s@, i as int);
            lemma_units_part(s@, 0, i + 1);
            assert(s@.subrange(0, i + 1) =~= s@.take(i + 1));
        }
        let w: usize = len_utf16(s[i]);
        if w > cap - n {
            return cap;
        }
        n = n + w;
        i = i + 1;
    }
    assert(s@.take(s@.len() as int) =~= s@);
    n
}

/// The lesser of `cap` and the number of UTF-8 bytes of `s`.
pub fn utf8_capped(s: &[char], cap: usize) -> (n: usize)
    ensures
        n == (if utf8_units(s@) < cap {
            utf8_units(s@)
        } else {
            cap as nat
        }),
{
    let mut n: usize = 0;
    let mut i: usize = 0;
    while i < s.len()
        invariant
            i <= s@.len(),
            n == utf8_units(s@.take(i as int)),
            n <= cap,
        decreases s@.len() - i,
    {
        proof {
            lemma_units_take(s@, i as int);
            lemma_units_part(s@, 0, i + 1);
            assert(s@.subrange(0, i + 1) =~= s@.take(i + 1));
        }
        let w: usize = len_utf8(s[i]);
        if w > cap - n {
            return cap;
        }
        n = n + w;
        i = i + 1;
    }
    assert(s@.take(s@.len() as int) =~= s@);
    n
}

/// The number of UTF-8 bytes of a string.
pub fn byte_len(s: &str) -> (n: usize)
    ensures
        n == utf8_units(s@),
{
    proof {
        lemma_utf8_units(s@);
    }
    s.as_bytes().len()
}

// ---- Numbers ----------------------------------------------------------------

/// The character of a decimal digit.
pub open spec fn digit_char(d: nat) -> char {
    (('0' as u32) + d) as char
}

/// The decimal notation of `n`.
pub open spec fn decimal(n: nat) -> Seq<char>
    decreases n,
{
    if n < 10 {
        seq![digit_char(n)]
    } else {
        decimal(n / 10).push(digit_char(n % 10))
    }
}

/// The decimal notation of `n`.
pub fn decimal_chars(n: u64) -> (out: Vec<char>)
    ensures
        out@ == decimal(n as nat),
    decreases n,
{
    let mut out: Vec<char> = if n < 10 {
        Vec::new()
    } else {
        decimal_chars(n / 10)
    };
    let d: u8 = (48 + n % 10) as u8;
    out.push(d as char);
    assert(out@ =~= decimal(n as nat));
    out
}

/// The number that a sequence of decimal digits denotes.
pub open spec fn decimal_value(s: Seq<char>) -> nat
    decreases s.len(),
{
    if s.len() == 0 {
        0
    } else {
        decimal_value(s.drop_last()) * 10 + (s.last() as nat - '0' as nat) as nat
    }
}

/// The number that `s` denotes: decimal digits, with or without a leading `+`.
pub open spec fn numeral(s: Seq<char>) -> Option<nat> {
    let digits = if s.len() > 0 && s[0] == '+' {
        s.skip(1)
    } else {
        s
    };
    if digits.len() > 0 && digits_only(digits) {
        Some(decimal_value(digits))
    } else {
        None
    }
}

/// The value of a prefix is no greater than that of the whole.
pub proof fn lemma_decimal_value_grows(s: Seq<char>, i: int)
    requires
        0 <= i <= s.len(),
        digits_only(s),
    ensures
        decimal_value(s.take(i)) <= decimal_value(s),
    decreases s.len() - i,
{
    if i < s.len() {
        assert(s.take(i + 1).drop_last() =~= s.take(i));
        assert(is_digit(s[i]));
        lemma_decimal_value_grows(s, i + 1);
    } else {
        assert(s.take(i) =~= s);
    }
}

/// The number that `s` denotes, if it denotes one that is at most `max`.
pub fn parse_number(s: &[char], max: u64) -> (r: Option<u64>)
    ensures
        match r {
            Some(n) => n <= max && numeral(s@) == Some(n as nat),
            None => numeral(s@) is None || numeral(s@)->0 > max,
        },
{
    let digits = if s.len() > 0 && s[0] == '+' {
        skip(s, 1)
    } else {
        s
    };
    if digits.len() == 0 || !all_digits(digits) {
        return None;
    }
    let mut n: u64 = 0;
    let mut i: usize = 0;
    while i < digits.len()
        invariant
            i <= digits@.len(),
            digits_only(digits@),
            numeral(s@) == Some(decimal_value(digits@)),
            n == decimal_value(digits@.take(i as int)),
            n <= max,
        decreases digits@.len() - i,
    {
        assert(is_digit(digits@[i as int]));
        let d: u64 = (digits[i] as u32 - '0' as u32) as u64;
        proof {
            assert(digits@.take(i + 1).drop_last() =~= digits@.take(i as int));
            lemma_decimal_value_grows(digits@, i + 1);
        }
        if n > max / 10 || d > max - n * 10 {
            return None;
        }
        n = n * 10 + d;
        i = i + 1;
    }
    assert(digits@.take(digits@.len() as int) =~= digits@);
    Some(n)
}

/// `decimal(n)` with zeros in front of it until it is `width` characters long.
pub open spec fn zero_padded(n: nat, width: nat) -> Seq<char> {
    let d = decimal(n);
    if d.len() >= width {
        d
    } else {
        Seq::new((width - d.len()) as nat, |i: int| '0') + d
    }
}

/// `n` in decimal with zeros in front of it until it is `width` characters long.
pub fn zero_padded_chars(n: u64, width: usize) -> (out: Vec<char>)
    ensures
        out@ == zero_padded(n as nat, width as nat),
{
    let digits = decimal_chars(n);
    let mut out: Vec<char> = Vec::new();
    if digits.len() < width {
        let missing: usize = width - digits.len();
        while out.len() < missing
            invariant
                out@.len() <= missing,
                out@ =~= Seq::new(out@.len(), |i: int| '0'),
            decreases missing - out@.len(),
        {
            out.push('0');
        }
    }
    push_all(&mut out, digits.as_slice());
    assert(out@ =~= zero_padded(n as nat, width as nat));
    out
}

/// Decimal notation is made of digits, and has at least one.
pub proof fn lemma_decimal_digits(n: nat)
    ensures
        digits_only(decimal(n)),
        decimal(n).len() >= 1,
    decreases n,
{
    if n >= 10 {
        lemma_decimal_digits(n / 10);
        assert forall|i: int| 0 <= i < decimal(n).len() implies is_digit(
            #[trigger] decimal(n)[i],
        ) by {
            if i < decimal(n / 10).len() {
                assert(decimal(n)[i] == decimal(n / 10)[i]);
            }
        }
    }
}

/// Decimal notation denotes the number that it was made from.
pub proof fn lemma_decimal_value(n: nat)
    ensures
        decimal_value(decimal(n)) == n,
    decreases n,
{
    if n < 10 {
        reveal_with_fuel(decimal_value, 2);
        assert(decimal(n).drop_last() =~= Seq::empty());
    } else {
        lemma_decimal_value(n / 10);
        assert(decimal(n).drop_last() =~= decimal(n / 10));
    }
}

/// Decimal notation is read back as the number that it was made from, and has no white
/// space around it.
pub proof fn lemma_numeral_of_decimal(n: nat)
    ensures
        numeral(decimal(n)) == Some(n),
        trimmed(decimal(n)) == decimal(n),
{
    lemma_decimal_digits(n);
    lemma_decimal_value(n);
    assert(is_digit(decimal(n)[0]) && is_digit(decimal(n).last()));
}

/// Zeros in front do not change what a numeral denotes.
pub proof fn lemma_padded_value(n: nat, width: nat)
    ensures
        decimal_value(zero_padded(n, width)) == n,
{
    lemma_decimal_value(n);
    let d = decimal(n);
    if d.len() < width {
        lemma_zeros_in_front((width - d.len()) as nat, d);
    }
}

proof fn lemma_zeros_in_front(k: nat, d: Seq<char>)
    ensures
        decimal_value(Seq::new(k, |i: int| '0') + d) == decimal_value(d),
    decreases k + d.len(),
{
    let zeros = Seq::new(k, |i: int| '0');
    let s = zeros + d;
    if d.len() > 0 {
        assert(s.drop_last() =~= zeros + d.drop_last());
        lemma_zeros_in_front(k, d.drop_last());
    } else if k > 0 {
        let fewer = Seq::new((k - 1) as nat, |i: int| '0');
        assert(s.drop_last() =~= fewer + d);
        lemma_zeros_in_front((k - 1) as nat, d);
    } else {
        assert(s =~= d);
    }
}

/// The decimal notation of an integer.
pub open spec fn signed_decimal(n: int) -> Seq<char> {
    if n < 0 {
        seq!['-'] + decimal((-n) as nat)
    } else {
        decimal(n as nat)
    }
}

/// The decimal notation of an integer.
pub fn signed_chars(n: i64) -> (out: Vec<char>)
    ensures
        out@ == signed_decimal(n as int),
{
    if n < 0 {
        let size: u64 = (-(n + 1)) as u64 + 1;
        let mut out: Vec<char> = Vec::new();
        out.push('-');
        let digits = decimal_chars(size);
        push_all(&mut out, digits.as_slice());
        assert(out@ =~= signed_decimal(n as int));
        out
    } else {
        decimal_chars(n as u64)
    }
}

/// Different integers have different notations.
pub proof fn lemma_signed_differ(a: int, b: int)
    requires
        a != b,
    ensures
        signed_decimal(a) != signed_decimal(b),
{
    let x = signed_decimal(a);
    let y = signed_decimal(b);
    if x == y {
        lemma_signed_value(a);
        lemma_signed_value(b);
    }
}

proof fn lemma_signed_value(n: int)
    ensures
        (n < 0) == (signed_decimal(n)[0] == '-'),
        n < 0 ==> decimal_value(signed_decimal(n).skip(1)) == -n,
        n >= 0 ==> decimal_value(signed_decimal(n)) == n,
{
    if n < 0 {
        lemma_decimal_value((-n) as nat);
        assert(signed_decimal(n).skip(1) =~= decimal((-n) as nat));
    } else {
        lemma_decimal_value(n as nat);
        lemma_decimal_digits(n as nat);
        assert(is_digit(decimal(n as nat)[0]));
    }
}

// ---- Parts of a text --------------------------------------------------------

/// `parts` one after the other.
pub open spec fn concatenated(parts: Seq<Seq<char>>) -> Seq<char>
    decreases parts.len(),
{
    if parts.len() == 0 {
        Seq::empty()
    } else {
        concatenated(parts.drop_last()) + parts.last()
    }
}

pub proof fn lemma_concatenated_add(a: Seq<Seq<char>>, b: Seq<Seq<char>>)
    ensures
        concatenated(a + b) == concatenated(a) + concatenated(b),
    decreases b.len(),
{
    if b.len() == 0 {
        assert(a + b =~= a);
        assert(concatenated(a) + Seq::<char>::empty() =~= concatenated(a));
    } else {
        assert((a + b).drop_last() =~= a + b.drop_last());
        lemma_concatenated_add(a, b.drop_last());
        assert(concatenated(a) + concatenated(b.drop_last()) + b.last() =~= concatenated(a) + (
        concatenated(b.drop_last()) + b.last()));
    }
}

pub proof fn lemma_concatenated_one(part: Seq<char>)
    ensures
        concatenated(seq![part]) == part,
{
    reveal_with_fuel(concatenated, 2);
    assert(seq![part].drop_last() =~= Seq::<Seq<char>>::empty());
    assert(Seq::<char>::empty() + part =~= part);
}

/// `s` without its line breaks.
pub open spec fn unbroken(s: Seq<char>) -> Seq<char>
    decreases s.len(),
{
    if s.len() == 0 {
        Seq::empty()
    } else if s.last() == '\n' {
        unbroken(s.drop_last())
    } else {
        unbroken(s.drop_last()).push(s.last())
    }
}

pub proof fn lemma_unbroken_add(a: Seq<char>, b: Seq<char>)
    ensures
        unbroken(a + b) == unbroken(a) + unbroken(b),
    decreases b.len(),
{
    if b.len() == 0 {
        assert(a + b =~= a);
        assert(unbroken(a) + Seq::<char>::empty() =~= unbroken(a));
    } else {
        assert((a + b).drop_last() =~= a + b.drop_last());
        lemma_unbroken_add(a, b.drop_last());
        if b.last() != '\n' {
            assert(unbroken(a) + unbroken(b.drop_last()).push(b.last()) =~= (unbroken(a)
                + unbroken(b.drop_last())).push(b.last()));
        }
    }
}

pub proof fn lemma_unbroken_break()
    ensures
        unbroken(seq!['\n']) == Seq::<char>::empty(),
{
    reveal_with_fuel(unbroken, 2);
    assert(seq!['\n'].drop_last() =~= Seq::<char>::empty());
}

/// Text that holds no line break.
pub open spec fn one_line(s: Seq<char>) -> bool {
    forall|i: int| 0 <= i < s.len() ==> s[i] != '\n'
}

pub proof fn lemma_unbroken_one_line(s: Seq<char>)
    requires
        one_line(s),
    ensures
        unbroken(s) == s,
    decreases s.len(),
{
    if s.len() > 0 {
        lemma_unbroken_one_line(s.drop_last());
        assert(s =~= s.drop_last().push(s.last()));
    }
}

/// The lines of a text hold no line breaks, and hold all the rest of it in order.
pub proof fn lemma_lines_from(s: Seq<char>, start: int)
    requires
        0 <= start <= s.len(),
    ensures
        concatenated(split_from(s, '\n', start)) == unbroken(s.subrange(start, s.len() as int)),
        forall|k: int|
            0 <= k < split_from(s, '\n', start).len() ==> one_line(
                #[trigger] split_from(s, '\n', start)[k],
            ),
        split_from(s, '\n', start).len() >= 1,
    decreases s.len() - start,
{
    lemma_next_at(s, '\n', start);
    let end = next_at(s, '\n', start);
    let line = s.subrange(start, end);
    lemma_unbroken_one_line(line);
    if end >= s.len() {
        lemma_concatenated_one(line);
    } else {
        lemma_lines_from(s, end + 1);
        let rest = s.subrange(end + 1, s.len() as int);
        lemma_concatenated_add(seq![line], split_from(s, '\n', end + 1));
        lemma_concatenated_one(line);
        assert(s.subrange(start, s.len() as int) =~= line + (seq!['\n'] + rest));
        lemma_unbroken_add(line, seq!['\n'] + rest);
        lemma_unbroken_add(seq!['\n'], rest);
        lemma_unbroken_break();
        assert(Seq::<char>::empty() + unbroken(rest) =~= unbroken(rest));
    }
}

/// Whether every character of `a` occurs in `b`, in the same order.
pub open spec fn within(a: Seq<char>, b: Seq<char>) -> bool
    decreases b.len(),
{
    if a.len() == 0 {
        true
    } else if b.len() == 0 {
        false
    } else if a.last() == b.last() {
        within(a.drop_last(), b.drop_last())
    } else {
        within(a, b.drop_last())
    }
}

pub proof fn lemma_within_drop(a: Seq<char>, b: Seq<char>)
    requires
        within(a, b),
        a.len() > 0,
    ensures
        within(a.drop_last(), b),
    decreases b.len(),
{
    if a.last() == b.last() {
        if a.len() > 1 {
            if a.drop_last().last() == b.last() {
                lemma_within_drop(a.drop_last(), b.drop_last());
            }
        }
    } else {
        lemma_within_drop(a, b.drop_last());
        if a.len() > 1 && a.drop_last().last() == b.last() {
            lemma_within_drop(a.drop_last(), b.drop_last());
        }
    }
}

pub proof fn lemma_within_extend(a: Seq<char>, b: Seq<char>, c: Seq<char>)
    requires
        within(a, b),
    ensures
        within(a, b + c),
    decreases c.len(),
{
    if c.len() == 0 {
        assert(b + c =~= b);
    } else {
        lemma_within_extend(a, b, c.drop_last());
        assert((b + c).drop_last() =~= b + c.drop_last());
        if a.len() > 0 {
            lemma_within_drop(a, b + c.drop_last());
        }
    }
}

pub proof fn lemma_within_add(a: Seq<char>, b: Seq<char>, c: Seq<char>, d: Seq<char>)
    requires
        within(a, b),
        within(c, d),
    ensures
        within(a + c, b + d),
    decreases d.len(),
{
    if c.len() == 0 {
        assert(a + c =~= a);
        lemma_within_extend(a, b, d);
    } else {
        assert((b + d).drop_last() =~= b + d.drop_last());
        assert((a + c).drop_last() =~= a + c.drop_last());
        if c.last() == d.last() {
            lemma_within_add(a, b, c.drop_last(), d.drop_last());
        } else {
            lemma_within_add(a, b, c, d.drop_last());
        }
    }
}

pub proof fn lemma_within_refl(a: Seq<char>)
    ensures
        within(a, a),
    decreases a.len(),
{
    if a.len() > 0 {
        lemma_within_refl(a.drop_last());
    }
}

pub proof fn lemma_within_trans(a: Seq<char>, b: Seq<char>, c: Seq<char>)
    requires
        within(a, b),
        within(b, c),
    ensures
        within(a, c),
    decreases c.len(),
{
    if a.len() > 0 {
        if b.last() == c.last() {
            if a.last() == b.last() {
                lemma_within_trans(a.drop_last(), b.drop_last(), c.drop_last());
            } else {
                lemma_within_trans(a, b.drop_last(), c.drop_last());
            }
        } else {
            lemma_within_trans(a, b, c.drop_last());
            if a.last() == c.last() {
                lemma_within_drop(a, c.drop_last());
            }
        }
    }
}

/// Text that holds no white space.
pub open spec fn no_white(s: Seq<char>) -> bool {
    forall|i: int| 0 <= i < s.len() ==> !is_white(#[trigger] s[i])
}

/// Whether `s` holds no white space.
pub fn has_no_white(s: &[char]) -> (b: bool)
    ensures
        b == no_white(s@),
{
    let mut i: usize = 0;
    while i < s.len()
        invariant
            i <= s@.len(),
            forall|k: int| 0 <= k < i ==> !is_white(#[trigger] s@[k]),
        decreases s@.len() - i,
    {
        if is_whitespace(s[i]) {
            return false;
        }
        i = i + 1;
    }
    true
}

/// `s` without its white space.
pub open spec fn dense(s: Seq<char>) -> Seq<char>
    decreases s.len(),
{
    if s.len() == 0 {
        Seq::empty()
    } else if is_white(s.last()) {
        dense(s.drop_last())
    } else {
        dense(s.drop_last()).push(s.last())
    }
}

pub proof fn lemma_dense_add(a: Seq<char>, b: Seq<char>)
    ensures
        dense(a + b) == dense(a) + dense(b),
    decreases b.len(),
{
    if b.len() == 0 {
        assert(a + b =~= a);
        assert(dense(a) + Seq::<char>::empty() =~= dense(a));
    } else {
        assert((a + b).drop_last() =~= a + b.drop_last());
        lemma_dense_add(a, b.drop_last());
        if !is_white(b.last()) {
            assert(dense(a) + dense(b.drop_last()).push(b.last()) =~= (dense(a) + dense(
                b.drop_last(),
            )).push(b.last()));
        }
    }
}

pub proof fn lemma_dense_white(s: Seq<char>)
    requires
        forall|i: int| 0 <= i < s.len() ==> is_white(#[trigger] s[i]),
    ensures
        dense(s) == Seq::<char>::empty(),
    decreases s.len(),
{
    if s.len() > 0 {
        assert(is_white(s[s.len() - 1]));
        lemma_dense_white(s.drop_last());
    }
}

pub proof fn lemma_dense_no_white(s: Seq<char>)
    requires
        no_white(s),
    ensures
        dense(s) == s,
    decreases s.len(),
{
    if s.len() > 0 {
        assert(!is_white(s[s.len() - 1]));
        lemma_dense_no_white(s.drop_last());
        assert(s =~= s.drop_last().push(s.last()));
    }
}

/// Words hold no white space, are not empty, and hold all the rest of the text in order.
pub proof fn lemma_words(s: Seq<char>, i: int)
    requires
        0 <= i <= s.len(),
    ensures
        forall|k: int|
            0 <= k < words_from(s, i).len() ==> no_white(#[trigger] words_from(s, i)[k])
                && words_from(s, i)[k].len() > 0,
        concatenated(words_from(s, i)) == dense(s.subrange(i, s.len() as int)),
    decreases s.len() - i,
{
    lemma_word_start(s, i);
    let begin = word_start(s, i);
    let n = s.len() as int;
    let gap = s.subrange(i, begin);
    lemma_dense_white(gap);
    if begin >= n {
    } else {
        lemma_word_end(s, begin);
        let end = word_end(s, begin);
        let word = s.subrange(begin, end);
        let rest = s.subrange(end, n);
        lemma_words(s, end);
        lemma_dense_no_white(word);
        lemma_dense_add(gap, word + rest);
        lemma_dense_add(word, rest);
        assert(s.subrange(i, n) =~= gap + (word + rest));
        assert(Seq::<char>::empty() + (dense(word) + dense(rest)) =~= dense(word) + dense(rest));
        lemma_concatenated_add(seq![word], words_from(s, end));
        lemma_concatenated_one(word);
    }
}

/// The lines of a text hold all of it but white space, in order.
pub proof fn lemma_lines_dense(s: Seq<char>, start: int)
    requires
        0 <= start <= s.len(),
    ensures
        dense(concatenated(split_from(s, '\n', start))) == dense(s.subrange(start, s.len() as int)),
    decreases s.len() - start,
{
    lemma_next_at(s, '\n', start);
    let end = next_at(s, '\n', start);
    let line = s.subrange(start, end);
    lemma_concatenated_one(line);
    if end < s.len() {
        let rest = s.subrange(end + 1, s.len() as int);
        lemma_lines_dense(s, end + 1);
        lemma_concatenated_add(seq![line], split_from(s, '\n', end + 1));
        lemma_dense_add(line, concatenated(split_from(s, '\n', end + 1)));
        assert(s.subrange(start, s.len() as int) =~= line + (seq!['\n'] + rest));
        lemma_dense_add(line, seq!['\n'] + rest);
        lemma_dense_add(seq!['\n'], rest);
        lemma_dense_white(seq!['\n']);
        assert(Seq::<char>::empty() + dense(rest) =~= dense(rest));
    }
}

/// Where a word ends is not changed by what follows, if that begins with white space.
proof fn lemma_word_end_add(a: Seq<char>, b: Seq<char>, i: int)
    requires
        0 <= i <= a.len(),
        b.len() == 0 || is_white(b[0]),
    ensures
        word_end(a + b, i) == word_end(a, i),
    decreases a.len() - i,
{
    if i < a.len() {
        assert((a + b)[i] == a[i]);
        if !is_white(a[i]) {
            lemma_word_end_add(a, b, i + 1);
        }
    } else if b.len() > 0 {
        assert((a + b)[i] == b[0]);
    }
}

/// Where the next word starts is not changed by what follows, if there is one.
proof fn lemma_word_start_add(a: Seq<char>, b: Seq<char>, i: int)
    requires
        0 <= i <= a.len(),
    ensures
        word_start(a + b, i) == if word_start(a, i) < a.len() {
            word_start(a, i)
        } else {
            word_start(a + b, a.len() as int)
        },
    decreases a.len() - i,
{
    if i < a.len() {
        assert((a + b)[i] == a[i]);
        if is_white(a[i]) {
            lemma_word_start_add(a, b, i + 1);
        }
    }
}

/// The words of a text that goes on with white space are its own, and those after it.
proof fn lemma_words_add(a: Seq<char>, b: Seq<char>, i: int)
    requires
        0 <= i <= a.len(),
        b.len() == 0 || is_white(b[0]),
    ensures
        words_from(a + b, i) == words_from(a, i) + words_from(a + b, a.len() as int),
    decreases a.len() - i,
{
    let all = a + b;
    let n = a.len() as int;
    lemma_word_start(a, i);
    lemma_word_start_add(a, b, i);
    let begin = word_start(a, i);
    if begin < n {
        lemma_word_end(a, begin);
        lemma_word_end_add(a, b, begin);
        let end = word_end(a, begin);
        lemma_words_add(a, b, end);
        assert(all.subrange(begin, end) =~= a.subrange(begin, end));
        assert(words_from(all, i) =~= words_from(a, i) + words_from(all, n));
    } else {
        lemma_word_start(all, i);
        lemma_word_start(all, n);
        assert(words_from(all, i) =~= words_from(all, n));
        assert(words_from(a, i) =~= Seq::<Seq<char>>::empty());
        assert(words_from(all, i) =~= words_from(a, i) + words_from(all, n));
    }
}

/// Where a word starts and ends does not depend on what stands before.
proof fn lemma_word_shift(s: Seq<char>, d: int, i: int)
    requires
        0 <= d,
        0 <= i,
        d + i <= s.len(),
    ensures
        word_start(s, d + i) == d + word_start(s.skip(d), i),
        word_end(s, d + i) == d + word_end(s.skip(d), i),
    decreases s.len() - d - i,
{
    if d + i < s.len() {
        lemma_word_shift(s, d, i + 1);
    }
}

/// The words of a text from an index on are those of the text that begins there.
proof fn lemma_words_shift(s: Seq<char>, d: int, i: int)
    requires
        0 <= d,
        0 <= i,
        d + i <= s.len(),
    ensures
        words_from(s, d + i) == words_from(s.skip(d), i),
    decreases s.len() - d - i,
{
    let rest = s.skip(d);
    lemma_word_shift(s, d, i);
    lemma_word_start(rest, i);
    let begin = word_start(rest, i);
    if begin < rest.len() {
        lemma_word_shift(s, d, begin);
        lemma_word_end(rest, begin);
        let end = word_end(rest, begin);
        lemma_words_shift(s, d, end);
        assert(s.subrange(d + begin, d + end) =~= rest.subrange(begin, end));
    }
}

/// The words of a line and of what follows it make up the words of both.
pub proof fn lemma_words_of_line(line: Seq<char>, rest: Seq<char>)
    ensures
        words(line + seq!['\n'] + rest) == words(line) + words(rest),
{
    let tail = seq!['\n'] + rest;
    let all = line + tail;
    let n = line.len() as int;
    assert(all =~= line + seq!['\n'] + rest);
    lemma_words_add(line, tail, 0);
    assert(all[n] == '\n');
    assert(word_start(all, n) == word_start(all, n + 1));
    assert(words_from(all, n) =~= words_from(all, n + 1));
    lemma_words_shift(all, n + 1, 0);
    assert(all.skip(n + 1) =~= rest);
}

/// A run of characters without white space that stands at the end is one word.
proof fn lemma_last_word(s: Seq<char>, i: int)
    requires
        0 <= i < s.len(),
        forall|j: int| i <= j < s.len() ==> !is_white(s[j]),
    ensures
        word_end(s, i) == s.len(),
    decreases s.len() - i,
{
    assert(!is_white(s[i]));
    if i + 1 < s.len() {
        lemma_last_word(s, i + 1);
    } else {
        assert(word_end(s, i + 1) == s.len());
    }
}

/// A text without white space is its own only word.
pub proof fn lemma_one_word(word: Seq<char>)
    requires
        no_white(word),
        word.len() > 0,
    ensures
        words(word) == seq![word],
{
    assert(!is_white(word[0]));
    lemma_last_word(word, 0);
    assert(word.subrange(0, word.len() as int) =~= word);
    assert(words_from(word, word.len() as int) =~= Seq::<Seq<char>>::empty());
    assert(words(word) =~= seq![word]);
}

/// A word after a space is one more word.
pub proof fn lemma_one_more_word(s: Seq<char>, word: Seq<char>)
    requires
        no_white(word),
        word.len() > 0,
    ensures
        words(s + seq![' '] + word) == words(s).push(word),
{
    let rest = seq![' '] + word;
    let all = s + rest;
    let n = s.len() as int;
    let end = all.len() as int;
    assert(all =~= s + seq![' '] + word);
    lemma_words_add(s, rest, 0);
    assert(all[n] == ' ');
    assert(all[n + 1] == word[0]);
    assert(!is_white(word[0]));
    assert(word_start(all, n + 1) == n + 1);
    assert(word_start(all, n) == n + 1);
    assert forall|j: int| n + 1 <= j < end implies !is_white(all[j]) by {
        assert(all[j] == word[j - n - 1]);
    }
    lemma_last_word(all, n + 1);
    assert(all.subrange(n + 1, end) =~= word);
    assert(words_from(all, end) =~= Seq::<Seq<char>>::empty());
    assert(words_from(all, n) =~= seq![word]);
    assert(words(all) =~= words(s).push(word));
}

/// A blank text is one that holds nothing but white space.
pub proof fn lemma_blank(s: Seq<char>)
    ensures
        is_blank(s) <==> forall|i: int| 0 <= i < s.len() ==> is_white(#[trigger] s[i]),
        is_blank(s) <==> dense(s).len() == 0,
{
    lemma_trimmed_dense(s);
    let t = trimmed_start(s);
    lemma_trimmed_end_dense(t);
    let r = trimmed(s);
    assert(dense(r) == dense(s));
    if is_blank(s) {
        assert(dense(r).len() == 0);
        lemma_dense_empty(s);
    } else {
        assert(!is_white(r.last()));
        assert(dense(r).len() > 0);
        if forall|i: int| 0 <= i < s.len() ==> is_white(#[trigger] s[i]) {
            lemma_dense_white(s);
        }
    }
}

/// Leading white space is all that is trimmed at the start.
proof fn lemma_trimmed_dense(s: Seq<char>)
    ensures
        dense(trimmed_start(s)) == dense(s),
    decreases s.len(),
{
    if s.len() > 0 && is_white(s[0]) {
        lemma_trimmed_dense(s.skip(1));
        assert(s =~= seq![s[0]] + s.skip(1));
        lemma_dense_add(seq![s[0]], s.skip(1));
        lemma_dense_white(seq![s[0]]);
        assert(Seq::<char>::empty() + dense(s.skip(1)) =~= dense(s.skip(1)));
    }
}

/// Trailing white space is all that is trimmed at the end.
proof fn lemma_trimmed_end_dense(s: Seq<char>)
    ensures
        dense(trimmed_end(s)) == dense(s),
        trimmed_end(s).len() > 0 ==> !is_white(trimmed_end(s).last()),
    decreases s.len(),
{
    if s.len() > 0 && is_white(s.last()) {
        lemma_trimmed_end_dense(s.drop_last());
    }
}

/// A text that holds nothing but white space holds nothing else.
proof fn lemma_dense_empty(s: Seq<char>)
    requires
        dense(s).len() == 0,
    ensures
        forall|i: int| 0 <= i < s.len() ==> is_white(#[trigger] s[i]),
    decreases s.len(),
{
    if s.len() > 0 {
        lemma_dense_empty(s.drop_last());
        assert forall|i: int| 0 <= i < s.len() implies is_white(#[trigger] s[i]) by {
            if i < s.len() - 1 {
                assert(s.drop_last()[i] == s[i]);
            }
        }
    }
}

} // verus!
