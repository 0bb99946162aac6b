//! Files that come with messages.

use crate::paths;
use crate::slack::api;
use crate::slack::api::SlackError;
use crate::text;
use crate::urls;
use vstd::prelude::*;
use vstd::string::*;

verus! {

/// The most bytes of a file.
pub const MAX_UPLOAD_BYTES: u64 = 26_214_400;

/// The file name that `name` is, where it is nothing but a file name.
pub fn safe_filename(name: &str) -> (r: Option<&str>)
    ensures
        text::opt_str_view(r) == paths::single_name(name@),
{
    paths::find_single_name(name)
}

/// Where a file of an agent goes.
pub fn upload_path(agent_root: &str, name: &str) -> (r: Result<String, SlackError>)
    ensures
        match r {
            Ok(path) => paths::single_name(name@) is Some && path@ == paths::joined(
                paths::joined(paths::joined(agent_root@, "data"@), "uploads"@),
                paths::single_name(name@)->0,
            ),
            Err(e) => paths::single_name(name@) is None && e.code@ == api::sanitized(
                "unsafe_attachment_filename"@,
            ) && e.retry_after is None,
        },
{
    match safe_filename(name) {
        Some(filename) => {
            let uploads = paths::join(paths::join(agent_root, "data").as_str(), "uploads");
            Ok(paths::join(uploads.as_str(), filename))
        },
        None => Err(SlackError::new("unsafe_attachment_filename", None)),
    }
}

/// Whether the parts of an address are those of a secure one of Slack's own.
pub open spec fn is_slack_address(parts: (Seq<char>, Option<Seq<char>>)) -> bool {
    parts.0 == "https"@ && match parts.1 {
        Some(host) => host == "slack.com"@ || urls::ends_with(host, ".slack.com"@),
        None => false,
    }
}

/// Whether the parts of an address are those of a secure one of Slack's own.
pub fn trusted_parts(scheme: &str, host: Option<&str>) -> (b: bool)
    ensures
        b == is_slack_address((scheme@, text::opt_str_view(host))),
{
    if !text::str_eq(scheme, "https") {
        return false;
    }
    match host {
        Some(host) => text::str_eq(host, "slack.com") || urls::has_suffix(host, ".slack.com"),
        None => false,
    }
}

/// What is wrong with an address, by the codes for an invalid and for an untrusted
/// one.
pub(crate) fn check_address(url: &str, invalid: &str, untrusted: &str) -> (r: Result<
    (),
    SlackError,
>)
    ensures
        match r {
            Ok(_) => urls::url_parts(url@) is Some && is_slack_address(urls::url_parts(url@)->0),
            Err(e) => e.retry_after is None && e.code@ == api::sanitized(
                if urls::url_parts(url@) is None {
                    invalid@
                } else {
                    untrusted@
                },
            ) && !(urls::url_parts(url@) is Some && is_slack_address(urls::url_parts(url@)->0)),
        },
{
    match urls::read_url(url) {
        Some((scheme, host)) => {
            if trusted_parts(scheme.as_str(), text::as_text(&host)) {
                Ok(())
            } else {
                Err(SlackError::new(untrusted, None))
            }
        },
        None => Err(SlackError::new(invalid, None)),
    }
}

/// Whether a file may be fetched from an address.
pub fn check_download_url(url: &str) -> (r: Result<(), SlackError>)
    ensures
        match r {
            Ok(_) => urls::url_parts(url@) is Some && is_slack_address(urls::url_parts(url@)->0),
            Err(e) => e.retry_after is None && e.code@ == api::sanitized(
                if urls::url_parts(url@) is None {
                    "invalid_attachment_url"@
                } else {
                    "untrusted_attachment_url"@
                },
            ) && !(urls::url_parts(url@) is Some && is_slack_address(urls::url_parts(url@)->0)),
        },
{
    check_address(url, "invalid_attachment_url", "untrusted_attachment_url")
}

/// What is wrong with the answer to a download, from its status and its length.
pub open spec fn download_fault(status: u16, length: Option<u64>, max_bytes: u64) -> Option<
    Seq<char>,
> {
    if 300 <= status < 400 {
        Some("attachment_redirect_rejected"@)
    } else if !(200 <= status < 300) {
        Some("attachment_download_failed"@)
    } else if length is Some && length->0 > max_bytes {
        Some("attachment_too_large"@)
    } else {
        None
    }
}

/// Whether the answer to a download can be read.
pub fn check_download_response(status: u16, length: Option<u64>, max_bytes: u64) -> (r: Result<
    (),
    SlackError,
>)
    ensures
        match r {
            Ok(_) => download_fault(status, length, max_bytes) is None,
            Err(e) => download_fault(status, length, max_bytes) is Some && e.code@
                == api::sanitized(download_fault(status, length, max_bytes)->0)
                && e.retry_after is None,
        },
{
    if status >= 300 && status < 400 {
        return Err(SlackError::new("attachment_redirect_rejected", None));
    }
    if status < 200 || status >= 300 {
        return Err(SlackError::new("attachment_download_failed", None));
    }
    if let Some(size) = length {
        if size > max_bytes {
            return Err(SlackError::new("attachment_too_large", None));
        }
    }
    Ok(())
}

/// The bytes received after one more piece, while they are not too many.
pub fn count_received(received: u64, piece: u64, max_bytes: u64) -> (r: Result<u64, SlackError>)
    ensures
        match r {
            Ok(n) => n == received + piece && n <= max_bytes,
            Err(e) => received + piece > max_bytes && e.code@ == api::sanitized(
                "attachment_too_large"@,
            ) && e.retry_after is None,
        },
{
    match received.checked_add(piece) {
        Some(n) => if n > max_bytes {
            Err(SlackError::new("attachment_too_large", None))
        } else {
            Ok(n)
        },
        None => Err(SlackError::new("attachment_too_large", None)),
    }
}

/// The name under which a file is kept: its own after a number.
pub fn target_name(id: u64, filename: &str) -> (name: String)
    ensures
        name@ == text::decimal(id as nat) + "-"@ + filename@,
{
    let mut name = text::decimal_chars(id);
    text::push_str(&mut name, "-");
    text::push_str(&mut name, filename);
    text::from_chars(name.as_slice())
}

/// The name of a file while it is being received.
pub fn temporary_name(process: u64, id: u64) -> (name: String)
    ensures
        name@ == ".slack-upload-"@ + text::decimal(process as nat) + "-"@ + text::decimal(
            id as nat,
        ) + ".part"@,
{
    let mut name = text::to_chars(".slack-upload-");
    text::push_all(&mut name, text::decimal_chars(process).as_slice());
    text::push_str(&mut name, "-");
    text::push_all(&mut name, text::decimal_chars(id).as_slice());
    text::push_str(&mut name, ".part");
    text::from_chars(name.as_slice())
}

} // verus!
