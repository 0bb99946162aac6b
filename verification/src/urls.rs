//! Addresses.

use crate::text;
use vstd::prelude::*;
use vstd::string::*;

verus! {

/// The scheme and the host of an address, as `url::Url::parse` reads it; `None`
/// where it is not an absolute address.
pub uninterp spec fn url_parts(value: Seq<char>) -> Option<(Seq<char>, Option<Seq<char>>)>;

/// `url::Url::parse`, `url::Url::scheme` and `url::Url::host_str`: what is read from
/// an address depends on its text alone.
#[verifier::external_body]
pub(crate) fn read_url(value: &str) -> (r: Option<(String, Option<String>)>)
    ensures
        match r {
            Some((scheme, host)) => url_parts(value@) == Some((scheme@, text::opt_view(host))),
            None => url_parts(value@) is None,
        },
{
    let url = url::Url::parse(value).ok()?;
    Some((url.scheme().to_owned(), url.host_str().map(str::to_owned)))
}

/// What `url::Url::join` makes of `reference` seen from the address `base`; `None` where
/// the one or the other is no address.
pub uninterp spec fn resolved(base: Seq<char>, reference: Seq<char>) -> Option<Seq<char>>;

/// `url::Url::parse` of `base`, and `url::Url::join`: what they make of two texts
/// depends on these alone, and there is nothing where `base` is not an absolute address.
#[verifier::external_body]
pub(crate) fn resolve(base: &str, reference: &str) -> (r: Option<String>)
    ensures
        text::opt_view(r) == resolved(base@, reference@),
        url_parts(base@) is None ==> r is None,
{
    let url = url::Url::parse(base).ok()?.join(reference).ok()?;
    Some(url.to_string())
}

/// Whether `s` ends with `suffix`.
pub open spec fn ends_with(s: Seq<char>, suffix: Seq<char>) -> bool {
    suffix.len() <= s.len() && s.skip(s.len() - suffix.len()) == suffix
}

/// Whether `s` ends with `suffix`.
pub fn has_suffix(s: &str, suffix: &str) -> (b: bool)
    ensures
        b == ends_with(s@, suffix@),
{
    let chars = text::to_chars(s);
    let tail = text::to_chars(suffix);
    tail.len() <= chars.len() && text::chars_eq(
        text::skip(chars.as_slice(), chars.len() - tail.len()),
        tail.as_slice(),
    )
}

} // verus!
