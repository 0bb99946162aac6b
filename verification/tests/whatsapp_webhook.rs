use dar_extensions::json::{Json, Member};
use dar_extensions::whatsapp::webhook::{
    accept_payload, answer_handshake, check_request, constant_eq, judge, parse_payload,
    read_request, verify_signature, Admission, Dedup, Handshake, Inbound, DEDUP_CAPACITY, MAX_BODY,
};
use hmac::{Hmac, Mac};
use sha2::Sha256;

fn convert(value: serde_json::Value) -> Json {
    match value {
        serde_json::Value::Null => Json::Null,
        serde_json::Value::Bool(b) => Json::Bool(b),
        serde_json::Value::Number(n) => {
            if let Some(u) = n.as_u64() {
                Json::Unsigned(u)
            } else if let Some(i) = n.as_i64() {
                Json::Negative(i)
            } else {
                Json::Decimal(n.to_string())
            }
        }
        serde_json::Value::String(s) => Json::Text(s),
        serde_json::Value::Array(list) => Json::Array(list.into_iter().map(convert).collect()),
        serde_json::Value::Object(map) => Json::Object(
            map.into_iter()
                .map(|(name, value)| Member {
                    name,
                    value: convert(value),
                })
                .collect(),
        ),
    }
}

fn json(text: &str) -> Json {
    convert(serde_json::from_str(text).unwrap())
}

fn signature(key: &str, raw: &[u8]) -> String {
    let mut mac = Hmac::<Sha256>::new_from_slice(key.as_bytes()).unwrap();
    mac.update(raw);
    format!("sha256={}", hex::encode(mac.finalize().into_bytes()))
}

#[test]
fn signs() {
    let raw = b"{}";
    let mut mac = Hmac::<Sha256>::new_from_slice(b"key").unwrap();
    mac.update(raw);
    assert!(verify_signature(
        "key",
        raw,
        &format!("sha256={}", hex::encode(mac.finalize().into_bytes()))
    ));
    assert!(!verify_signature("key", raw, "sha256=00"));
}

#[test]
fn signatures_depend_on_secret_and_body() {
    let raw = b"{}";
    let good = signature("key", raw);
    assert!(!verify_signature("other", raw, &good));
    assert!(!verify_signature("key", b"{ }", &good));
    assert!(!verify_signature("key", raw, &good["sha256=".len()..]));
    assert!(!verify_signature("key", raw, "sha256=zz"));
    assert!(!verify_signature("key", raw, ""));
}

#[test]
fn parses_text_and_name() {
    let p = json(
        r#"{"entry":[{"changes":[{"field":"messages","value":{"metadata":{"phone_number_id":"p"},"contacts":[{"wa_id":"3361","profile":{"name":"A"}}],"messages":[{"from":"3361","id":"wamid","type":"text","text":{"body":"hi"}},{"from":"3361","id":"skip","type":"reaction"}]}}]}]}"#,
    );
    assert_eq!(
        parse_payload(&p, "p"),
        vec![Inbound {
            wa_id: "3361".into(),
            name: Some("A".into()),
            wamid: "wamid".into(),
            text: "hi".into()
        }]
    );
    assert!(parse_payload(&p, "other").is_empty());
    let group = json(
        r#"{"entry":[{"changes":[{"field":"messages","value":{"metadata":{"phone_number_id":"p"},"messages":[{"from":"3361","chat_id":"group-1","id":"wamid","type":"text","text":{"body":"hi"}}]}}]}]}"#,
    );
    assert!(parse_payload(&group, "p").is_empty());
    let group_id = json(
        r#"{"entry":[{"changes":[{"field":"messages","value":{"metadata":{"phone_number_id":"p"},"messages":[{"from":"3361","group_id":"group-1","id":"wamid","type":"text","text":{"body":"hi"}}]}}]}]}"#,
    );
    assert!(parse_payload(&group_id, "p").is_empty());
}

#[test]
fn payloads_without_messages_bring_none() {
    assert!(parse_payload(&json("{}"), "p").is_empty());
    assert!(parse_payload(&json("[]"), "p").is_empty());
    assert!(parse_payload(&json(r#"{"entry":[{"changes":[{"field":"statuses"}]}]}"#), "p").is_empty());
    let unsound = json(
        r#"{"entry":[{"changes":[{"field":"messages","value":{"metadata":{"phone_number_id":"p"},"messages":[{"from":"../x","id":"wamid","type":"text","text":{"body":"hi"}}]}}]}]}"#,
    );
    assert!(parse_payload(&unsound, "p").is_empty());
}

#[test]
fn evicts_old_ids() {
    let mut d = Dedup::default();
    for i in 0..=DEDUP_CAPACITY {
        assert!(d.insert(&i.to_string()));
    }
    assert!(d.insert("0"));
}

#[test]
fn repeated_ids_are_no_news_until_removed() {
    let mut d = Dedup::default();
    assert!(d.insert("a"));
    assert!(!d.insert("a"));
    d.remove("a");
    assert!(d.insert("a"));
}

#[test]
fn verifies_meta_handshake() {
    let answer = answer_handshake(
        Some("verify"),
        Some("subscribe"),
        Some("verify"),
        Some("abc"),
    );
    assert_eq!(answer.status(), 200);
    assert_eq!(answer, Handshake::Verified("abc".to_string()));
    let answer = answer_handshake(Some("verify"), Some("subscribe"), Some("wrong"), None);
    assert_eq!(answer.status(), 403);
    let answer = answer_handshake(None, Some("subscribe"), Some("verify"), Some("abc"));
    assert_eq!(answer, Handshake::Unavailable);
}

#[test]
fn requests_are_checked_before_they_are_read() {
    let raw = br#"{"entry":[]}"#;
    assert_eq!(
        check_request(Some("secret"), raw, ""),
        Admission::Unauthorized
    );
    assert_eq!(Admission::Unauthorized.status(), 401);
    assert_eq!(
        check_request(Some("secret"), raw, &signature("secret", raw)),
        Admission::Admitted
    );
    assert_eq!(
        check_request(None, raw, &signature("secret", raw)),
        Admission::Unavailable
    );
}

#[test]
fn caps_oversized_body() {
    let body = vec![b'x'; MAX_BODY + 1];
    let answer = check_request(Some("secret"), &body, &signature("secret", &body));
    assert_eq!(answer, Admission::TooLarge);
    assert_eq!(answer.status(), 413);
}

#[test]
fn equality_takes_every_byte_into_account() {
    assert!(constant_eq(b"token", b"token"));
    assert!(!constant_eq(b"token", b"tokeN"));
    assert!(!constant_eq(b"token", b"toke"));
    assert!(constant_eq(b"", b""));
}

#[test]
fn requests_are_judged_in_order() {
    assert_eq!(judge(None, MAX_BODY + 1, true), Admission::Unavailable);
    assert_eq!(judge(Some(""), 1, true), Admission::Unavailable);
    assert_eq!(judge(Some("s"), MAX_BODY + 1, false), Admission::TooLarge);
    assert_eq!(judge(Some("s"), MAX_BODY, false), Admission::Unauthorized);
    assert_eq!(judge(Some("s"), MAX_BODY, true), Admission::Admitted);
}

#[test]
fn bodies_that_are_no_object_are_bad_requests() {
    assert_eq!(accept_payload(None, "123"), Err(400));
    assert_eq!(accept_payload(Some(&Json::Array(Vec::new())), "123"), Err(400));
    assert_eq!(accept_payload(Some(&Json::Object(Vec::new())), "123"), Ok(vec![]));
}

#[test]
fn signed_requests_are_read() {
    let read = |raw: &[u8], phone: &str| {
        read_request(Some("secret"), raw, &signature("secret", raw), phone)
    };
    let raw = br#"{"entry":[{"changes":[{"field":"messages","value":{
        "metadata":{"phone_number_id":"123"},
        "contacts":[{"wa_id":"456","profile":{"name":"Ann"}}],
        "messages":[{"type":"text","from":"456","id":"w1","text":{"body":"hi"}}]
    }}]}]}"#;
    assert_eq!(
        read(raw, "123"),
        Ok(vec![Inbound {
            wa_id: "456".to_string(),
            name: Some("Ann".to_string()),
            wamid: "w1".to_string(),
            text: "hi".to_string(),
        }])
    );
    assert_eq!(read(raw, "124"), Ok(vec![]));
    assert_eq!(read(b"{}", "123"), Ok(vec![]));
    assert_eq!(read(b"[]", "123"), Err(400));
    assert_eq!(read(b"{", "123"), Err(400));
    assert_eq!(read(b"\"\xff\"", "123"), Err(400));
    let good = signature("secret", raw);
    assert_eq!(read_request(None, raw, &good, "123"), Err(503));
    assert_eq!(read_request(Some(""), raw, &good, "123"), Err(503));
    assert_eq!(read_request(Some("other"), raw, &good, "123"), Err(401));
    assert_eq!(read_request(Some("secret"), b"{", "", "123"), Err(401));
    assert_eq!(read(&vec![b' '; MAX_BODY + 1], "123"), Err(413));
    assert_eq!(read(&vec![b' '; MAX_BODY], "123"), Err(400));
}
