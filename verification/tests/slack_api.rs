use dar_extensions::json::{Json, Member};
use dar_extensions::slack::api::{
    check_base, check_response, check_socket_url, check_upload, check_upload_url, endpoint, find_thread, holds_text,
    judge_response, matches_query, public_channels, public_users, retry_after, sanitize, shape_error, take_channels, take_users,
    wants_page, ReplyMessage, SlackChannel, SlackError, SlackUser, MAX_LIST_PAGES,
};

fn convert(value: serde_json::Value) -> Json {
    match value {
        serde_json::Value::Null => Json::Null,
        serde_json::Value::Bool(b) => Json::Bool(b),
        serde_json::Value::Number(n) => {
            if let Some(u) = n.as_u64() {
                Json::Unsigned(u)
            } else if let Some(i) = n.as_i64() {
                Json::Negative(i)
            } else {
                Json::Decimal(n.to_string())
            }
        }
        serde_json::Value::String(s) => Json::Text(s),
        serde_json::Value::Array(list) => Json::Array(list.into_iter().map(convert).collect()),
        serde_json::Value::Object(map) => Json::Object(
            map.into_iter()
                .map(|(name, value)| Member {
                    name,
                    value: convert(value),
                })
                .collect(),
        ),
    }
}

fn json(text: &str) -> Json {
    convert(serde_json::from_str(text).unwrap())
}

#[test]
fn redacts_tokens_and_urls() {
    assert_eq!(
        sanitize("xoxb-secret xapp-thing xoxp-private https://files.slack.com/private"),
        "[redacted] [redacted] [redacted] [private-url]"
    );
}

#[test]
fn filters_inactive_resources() {
    assert_eq!(
        public_users(vec![
            SlackUser {
                id: "U".into(),
                name: "".into(),
                real_name: "".into(),
                deleted: false,
                is_bot: false
            },
            SlackUser {
                id: "B".into(),
                name: "".into(),
                real_name: "".into(),
                deleted: false,
                is_bot: true
            }
        ])
        .len(),
        1
    );
    assert_eq!(
        public_channels(vec![
            SlackChannel {
                id: "C".into(),
                name: "".into(),
                is_archived: false,
                is_member: false
            },
            SlackChannel {
                id: "A".into(),
                name: "".into(),
                is_archived: true,
                is_member: false
            }
        ])
        .len(),
        1
    );
}

#[test]
fn response_parsing_preserves_slack_error() {
    let body = r#"{"ok":false,"error":"missing_scope"}"#;
    let error = check_response(200, "application/json", body, None).unwrap_err();
    assert_eq!(error.code, "missing_scope");
}

#[test]
fn responses_are_checked() {
    let fine = r#"{"ok":true,"ts":"1.0","n":[-1,2,0.5,null]}"#;
    assert_eq!(
        check_response(200, "application/json", fine, None),
        Ok(json(fine))
    );
    let limited = check_response(429, "text/plain", "", Some(7)).unwrap_err();
    assert_eq!(limited.code, "rate_limited");
    assert_eq!(limited.retry_after, Some(7));
    let unreadable = check_response(200, "text/html", "<é>", Some(7)).unwrap_err();
    assert_eq!(
        unreadable.code,
        "invalid_api_response_status_200_type_text/html_bytes_4"
    );
    assert_eq!(unreadable.retry_after, None);
    let failed = check_response(500, "application/json", fine, None).unwrap_err();
    assert_eq!(failed.code, "http_error");
    assert_eq!(retry_after(Some("30")), Some(30));
    assert_eq!(retry_after(Some("soon")), None);
    assert_eq!(retry_after(None), None);
    assert!(!shape_error(&json(r#"{"ok":true,"token":"xoxb-secret"}"#))
        .message()
        .contains("xoxb"));
}

#[test]
fn parsed_responses_are_judged() {
    let fine = json(r#"{"ok":true}"#);
    assert_eq!(
        judge_response(200, "application/json", 11, Some(&fine), None),
        Ok(())
    );
    let error = judge_response(200, "text/plain", 5, None, None).unwrap_err();
    assert_eq!(
        error.code,
        "invalid_api_response_status_200_type_text/plain_bytes_5"
    );
    let error = judge_response(302, "text/plain", 0, Some(&fine), Some(3)).unwrap_err();
    assert_eq!(
        (error.code.as_str(), error.retry_after),
        ("http_error", Some(3))
    );
}

#[test]
fn methods_have_addresses() {
    let base = "https://slack.com/api/";
    assert_eq!(check_base(base), Ok(()));
    assert_eq!(
        check_base("slack.com/api").unwrap_err().code,
        "invalid_api_base"
    );
    assert_eq!(
        endpoint(base, "auth.test").as_deref(),
        Ok("https://slack.com/api/auth.test")
    );
    assert_eq!(
        endpoint("https://slack.com/api", "auth.test").as_deref(),
        Ok("https://slack.com/auth.test")
    );
    assert_eq!(
        endpoint(base, "http://[").unwrap_err().code,
        "invalid_api_method"
    );
    assert_eq!(
        endpoint("nowhere", "auth.test").unwrap_err().code,
        "invalid_api_method"
    );
}

#[test]
fn urls_are_held_to_slack() {
    assert!(check_socket_url("wss://wss-primary.slack.com/link").is_ok());
    assert!(check_socket_url("https://wss-primary.slack.com/link").is_err());
    assert!(check_socket_url("wss://example.com/link").is_ok());
    assert!(check_socket_url("not a url").is_err());
    assert!(check_upload_url("https://files.slack.com/upload").is_ok());
    assert!(check_upload_url("http://files.slack.com/upload").is_err());
    assert!(check_upload_url("https://files.slack.com.example.com/upload").is_err());
    assert!(check_upload("report.pdf", 10).is_ok());
    assert!(check_upload("", 10).is_err());
}

fn user(id: &str, name: &str) -> SlackUser {
    SlackUser {
        id: id.into(),
        name: name.into(),
        real_name: "".into(),
        deleted: false,
        is_bot: false,
    }
}

#[test]
fn list_users_paginates_past_inactive_users() {
    let mut found = Vec::new();
    let mut bot = user("B1", "");
    bot.is_bot = true;
    let mut gone = user("D1", "");
    gone.deleted = true;
    take_users(&mut found, vec![bot, gone], None, 1);
    assert!(found.is_empty());
    assert!(wants_page(1, found.len(), 1, "next"));
    take_users(&mut found, vec![user("U1", "")], None, 1);
    assert_eq!(
        found.iter().map(|user| user.id.as_str()).collect::<Vec<_>>(),
        ["U1"]
    );
    assert!(!wants_page(2, found.len(), 1, ""));
    assert!(!wants_page(MAX_LIST_PAGES, 0, 1, "next"));
}

#[test]
fn list_channels_filters_archived_and_query_results() {
    let channel = |id: &str, name: &str, is_archived: bool| SlackChannel {
        id: id.into(),
        name: name.into(),
        is_archived,
        is_member: false,
    };
    let mut found = Vec::new();
    take_channels(
        &mut found,
        vec![
            channel("C1", "General", false),
            channel("C2", "random", false),
            channel("C3", "general-archive", true),
        ],
        Some("GENERAL"),
        1,
    );
    assert_eq!(
        found.iter().map(|channel| channel.id.as_str()).collect::<Vec<_>>(),
        ["C1"]
    );
}

#[test]
fn reaction_thread_lookup_uses_the_message() {
    let message = |ts: &str, thread_ts: Option<&str>| ReplyMessage {
        ts: ts.into(),
        thread_ts: thread_ts.map(str::to_owned),
    };
    let replies = vec![message("1.0", None), message("2.0", Some("1.0"))];
    assert_eq!(find_thread(&replies, "2.0").as_deref(), Some("1.0"));
    assert_eq!(find_thread(&replies, "3.0"), None);
}

#[test]
fn queries_ignore_case() {
    assert!(matches_query(None, &["x"]));
    assert!(matches_query(Some("ét"), &["Été"]));
    assert!(!matches_query(Some("winter"), &["Été"]));
}

#[test]
fn errors_hold_no_secret() {
    let error = SlackError::new("bad xoxb-123 value", None);
    assert!(!error.message().contains("xoxb-123"), "{}", error.message());
}

#[test]
fn a_query_is_looked_for_anywhere() {
    assert!(holds_text("general", "ner"));
    assert!(holds_text("general", ""));
    assert!(holds_text("", ""));
    assert!(!holds_text("general", "generally"));
    assert!(!holds_text("General", "general"));
}

#[test]
fn statuses_may_stand_in_a_list() {
    let code = |text: &str| {
        check_response(200, "application/json", text, Some(7))
            .map_err(|error| (error.code, error.retry_after))
    };
    let shape = || Err(("invalid_api_shape_fields_non_object".to_string(), None));
    assert_eq!(
        code(r#"[false, "missing_scope"]"#),
        Err(("missing_scope".to_string(), Some(7)))
    );
    assert_eq!(code("[false]"), Err(("unknown_error".to_string(), Some(7))));
    assert_eq!(code("[true]"), shape());
    assert_eq!(code("[]"), shape());
    assert_eq!(code("[false, null, 1]"), shape());
    assert_eq!(code("7"), shape());
}
