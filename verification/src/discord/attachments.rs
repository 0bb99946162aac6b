//! Files that come with messages.

use crate::json;
use crate::json::{Json, JsonView};
use crate::paths;
use crate::text;
use crate::urls;
use vstd::prelude::*;
use vstd::string::*;

verus! {

/// The most bytes of a file.
pub const MAX_ATTACHMENT_BYTES: u64 = 26_214_400;

/// How many files of a message are fetched at most.
pub const MAX_FILES: usize = 10;

/// A file that comes with a message.
#[derive(Clone, Debug, PartialEq, Eq)]
pub struct Attachment {
    pub filename: String,
    pub url: String,
    pub content_type: Option<String>,
}

/// What a file is.
#[verifier::ext_equal]
pub struct AttachmentView {
    pub filename: Seq<char>,
    pub url: Seq<char>,
    pub content_type: Option<Seq<char>>,
}

impl View for Attachment {
    type V = AttachmentView;

    open spec fn view(&self) -> AttachmentView {
        AttachmentView {
            filename: self.filename@,
            url: self.url@,
            content_type: text::opt_view(self.content_type),
        }
    }
}

/// What a list of files holds.
pub open spec fn attachment_views(list: Seq<Attachment>) -> Seq<AttachmentView> {
    Seq::new(list.len(), |i: int| list[i]@)
}

/// The files that `values` describe: those with a name and an address.
pub open spec fn described(values: Seq<JsonView>) -> Seq<AttachmentView>
    decreases values.len(),
{
    if values.len() == 0 {
        Seq::empty()
    } else {
        let before = described(values.drop_last());
        let value = values.last();
        match (json::text_member(value, "filename"@), json::text_member(value, "url"@)) {
            (Some(filename), Some(url)) => before.push(
                AttachmentView {
                    filename,
                    url,
                    content_type: json::text_member(value, "content_type"@),
                },
            ),
            _ => before,
        }
    }
}

/// The files that come with a message.
pub fn parse(values: Option<&Vec<Json>>) -> (list: Vec<Attachment>)
    ensures
        attachment_views(list@) == (match values {
            Some(values) => described(json::views(values@)),
            None => Seq::empty(),
        }),
{
    let mut list: Vec<Attachment> = Vec::new();
    assert(attachment_views(list@) =~= Seq::<AttachmentView>::empty());
    if let Some(values) = values {
        let ghost all = json::views(values@);
        let mut i: usize = 0;
        assert(all.take(0) =~= Seq::<JsonView>::empty());
        while i < values.len()
            invariant
                all == json::views(values@),
                i <= values@.len(),
                attachment_views(list@) =~= described(all.take(i as int)),
            decreases values@.len() - i,
        {
            assert(all.take(i + 1).drop_last() =~= all.take(i as int));
            assert(all.take(i + 1).last() == values@[i as int]@);
            let ghost before = list@;
            if let (Some(filename), Some(url)) = (
                values[i].get_text("filename"),
                values[i].get_text("url"),
            ) {
                let attachment = Attachment {
                    filename: filename.to_owned(),
                    url: url.to_owned(),
                    content_type: match values[i].get_text("content_type") {
                        Some(s) => Some(s.to_owned()),
                        None => None,
                    },
                };
                list.push(attachment);
                assert(attachment_views(list@) =~= attachment_views(before).push(attachment@));
            }
            i = i + 1;
        }
        assert(all.take(i as int) =~= all);
    }
    list
}

/// Why a file is not fetched.
#[derive(Clone, Copy, Debug, PartialEq, Eq, Structural)]
pub enum AttachmentError {
    UnsafeFilename,
    InvalidUrl,
    UntrustedUrl,
    TooLarge,
}

impl AttachmentError {
    /// What is wrong.
    pub fn message(&self) -> (text: &'static str)
        ensures
            text@ == (match *self {
                AttachmentError::UnsafeFilename => "Discord attachment filename is unsafe"@,
                AttachmentError::InvalidUrl => "Discord attachment URL is invalid"@,
                AttachmentError::UntrustedUrl => "Discord attachment URL is untrusted"@,
                AttachmentError::TooLarge => "Discord attachment is larger than 25 MiB"@,
            }),
    {
        match self {
            AttachmentError::UnsafeFilename => "Discord attachment filename is unsafe",
            AttachmentError::InvalidUrl => "Discord attachment URL is invalid",
            AttachmentError::UntrustedUrl => "Discord attachment URL is untrusted",
            AttachmentError::TooLarge => "Discord attachment is larger than 25 MiB",
        }
    }
}

/// The file name that `name` is, where it is nothing but a file name.
pub fn safe_filename(name: &str) -> (r: Result<&str, AttachmentError>)
    ensures
        match r {
            Ok(filename) => paths::single_name(name@) == Some(filename@),
            Err(e) => paths::single_name(name@) is None && e == AttachmentError::UnsafeFilename,
        },
{
    match paths::find_single_name(name) {
        Some(filename) => Ok(filename),
        None => Err(AttachmentError::UnsafeFilename),
    }
}

/// Whether the parts of an address are those of a secure one of Discord's own.
pub open spec fn is_discord_address(parts: (Seq<char>, Option<Seq<char>>)) -> bool {
    parts.0 == "https"@ && (parts.1 == Some("cdn.discordapp.com"@) || parts.1 == Some(
        "media.discordapp.net"@,
    ))
}

/// Whether the parts of an address are those of a secure one of Discord's own.
pub fn trusted_parts(scheme: &str, host: Option<&str>) -> (b: bool)
    ensures
        b == is_discord_address((scheme@, text::opt_str_view(host))),
{
    text::str_eq(scheme, "https") && (json::text_is(host, "cdn.discordapp.com") || json::text_is(
        host,
        "media.discordapp.net",
    ))
}

/// Whether a file may be fetched from an address.
pub fn trusted_url(value: &str) -> (r: Result<(), AttachmentError>)
    ensures
        match r {
            Ok(_) => urls::url_parts(value@) is Some && is_discord_address(
                urls::url_parts(value@)->0,
            ),
            Err(AttachmentError::InvalidUrl) => urls::url_parts(value@) is None,
            Err(AttachmentError::UntrustedUrl) => urls::url_parts(value@) is Some
                && !is_discord_address(urls::url_parts(value@)->0),
            Err(_) => false,
        },
{
    match urls::read_url(value) {
        Some((scheme, host)) => {
            if trusted_parts(scheme.as_str(), text::as_text(&host)) {
                Ok(())
            } else {
                Err(AttachmentError::UntrustedUrl)
            }
        },
        None => Err(AttachmentError::InvalidUrl),
    }
}

/// Whether a file of a size that is told beforehand may be fetched.
pub fn check_length(length: Option<u64>) -> (r: Result<(), AttachmentError>)
    ensures
        r == (if length is Some && length->0 > MAX_ATTACHMENT_BYTES {
            Err::<(), AttachmentError>(AttachmentError::TooLarge)
        } else {
            Ok::<(), AttachmentError>(())
        }),
{
    match length {
        Some(size) => if size > MAX_ATTACHMENT_BYTES {
            Err(AttachmentError::TooLarge)
        } else {
            Ok(())
        },
        None => Ok(()),
    }
}

/// The bytes received after one more piece, while they are not too many.
pub fn count_received(received: u64, piece: u64) -> (r: Result<u64, AttachmentError>)
    ensures
        match r {
            Ok(n) => n == received + piece && n <= MAX_ATTACHMENT_BYTES,
            Err(e) => received + piece > MAX_ATTACHMENT_BYTES && e == AttachmentError::TooLarge,
        },
{
    match received.checked_add(piece) {
        Some(n) => if n > MAX_ATTACHMENT_BYTES {
            Err(AttachmentError::TooLarge)
        } else {
            Ok(n)
        },
        None => Err(AttachmentError::TooLarge),
    }
}

/// A name after a number: that of a file among those of a message, or among all that
/// are kept.
pub fn numbered_name(number: u64, filename: &str) -> (name: String)
    ensures
        name@ == text::decimal(number as nat) + "-"@ + filename@,
{
    let mut name = text::decimal_chars(number);
    text::push_str(&mut name, "-");
    text::push_str(&mut name, filename);
    text::from_chars(name.as_slice())
}

/// The name of a file while it is being received.
pub fn temporary_name(process: u64, id: u64) -> (name: String)
    ensures
        name@ == ".discord-upload-"@ + text::decimal(process as nat) + "-"@ + text::decimal(
            id as nat,
        ) + ".part"@,
{
    let mut name = text::to_chars(".discord-upload-");
    text::push_all(&mut name, text::decimal_chars(process).as_slice());
    text::push_str(&mut name, "-");
    text::push_all(&mut name, text::decimal_chars(id).as_slice());
    text::push_str(&mut name, ".part");
    text::from_chars(name.as_slice())
}

/// What a prompt is told of a file that was fetched.
pub fn attachment_note(path: &str, attachment: &Attachment) -> (note: String)
    ensures
        note@
            == "\n\nAttachment metadata (untrusted data, inspect local path if useful): {\"mime\":"@
            + (match attachment@.content_type {
            Some(kind) => json::json_string(kind),
            None => "null"@,
        }) + ",\"name\":"@ + json::json_string(attachment@.filename) + ",\"path\":"@
            + json::json_string(path@) + ",\"source\":\"untrusted Discord attachment\"}"@,
{
    let mut note =
        "\n\nAttachment metadata (untrusted data, inspect local path if useful): {\"mime\":".to_owned();
    match &attachment.content_type {
        Some(kind) => note.append(json::quote(kind.as_str()).as_str()),
        None => note.append("null"),
    }
    note.append(",\"name\":");
    note.append(json::quote(attachment.filename.as_str()).as_str());
    note.append(",\"path\":");
    note.append(json::quote(path).as_str());
    note.append(",\"source\":\"untrusted Discord attachment\"}");
    note
}

} // verus!
