use dar_extensions::discord::attachments::{
    attachment_note, check_length, count_received, numbered_name, parse, safe_filename,
    temporary_name, trusted_url, Attachment, AttachmentError, MAX_ATTACHMENT_BYTES,
};
use dar_extensions::json::{Json, Member};

fn convert(value: serde_json::Value) -> Json {
    match value {
        serde_json::Value::Null => Json::Null,
        serde_json::Value::Bool(b) => Json::Bool(b),
        serde_json::Value::Number(n) => {
            if let Some(u) = n.as_u64() {
                Json::Unsigned(u)
            } else if let Some(i) = n.as_i64() {
                Json::Negative(i)
            } else {
                Json::Decimal(n.to_string())
            }
        }
        serde_json::Value::String(s) => Json::Text(s),
        serde_json::Value::Array(list) => Json::Array(list.into_iter().map(convert).collect()),
        serde_json::Value::Object(map) => Json::Object(
            map.into_iter()
                .map(|(name, value)| Member {
                    name,
                    value: convert(value),
                })
                .collect(),
        ),
    }
}

fn json(text: &str) -> Json {
    convert(serde_json::from_str(text).unwrap())
}

#[test]
fn rejects_unsafe_filenames_and_urls() {
    assert!(safe_filename("../secret").is_err());
    assert!(trusted_url("https://example.com/file").is_err());
}

#[test]
fn accepts_discord_cdn_url() {
    assert!(trusted_url("https://cdn.discordapp.com/attachments/1/2/file.png").is_ok());
}

#[test]
fn attachments_are_read() {
    let list = match json(
        r#"[{"filename":"a.png","url":"https://cdn.discordapp.com/a","content_type":"image/png"},{"url":"x"}]"#,
    ) {
        Json::Array(list) => list,
        _ => unreachable!(),
    };
    assert_eq!(
        parse(Some(&list)),
        vec![Attachment {
            filename: "a.png".into(),
            url: "https://cdn.discordapp.com/a".into(),
            content_type: Some("image/png".into()),
        }]
    );
    assert!(parse(None).is_empty());
}

#[test]
fn sizes_and_urls_are_checked() {
    assert_eq!(safe_filename("a.png"), Ok("a.png"));
    assert_eq!(trusted_url("nonsense"), Err(AttachmentError::InvalidUrl));
    assert_eq!(
        trusted_url("https://example.com/file"),
        Err(AttachmentError::UntrustedUrl)
    );
    assert!(check_length(Some(MAX_ATTACHMENT_BYTES)).is_ok());
    assert_eq!(
        check_length(Some(MAX_ATTACHMENT_BYTES + 1)),
        Err(AttachmentError::TooLarge)
    );
    assert_eq!(count_received(1, 2), Ok(3));
    assert_eq!(
        count_received(MAX_ATTACHMENT_BYTES, 1),
        Err(AttachmentError::TooLarge)
    );
    assert!(!AttachmentError::UnsafeFilename.message().is_empty());
}

#[test]
fn discord_names_of_downloads_differ() {
    assert_ne!(numbered_name(1, "a.png"), numbered_name(2, "a.png"));
    assert_ne!(temporary_name(1, 1), temporary_name(1, 2));
    let note = attachment_note(
        "/data/1-a.png",
        &Attachment {
            filename: "a.png".into(),
            url: "https://cdn.discordapp.com/a".into(),
            content_type: None,
        },
    );
    assert!(note.contains("/data/1-a.png"), "{note}");
}
