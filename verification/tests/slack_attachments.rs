use dar_extensions::slack::attachments::{
    check_download_response, check_download_url, count_received, safe_filename, target_name,
    temporary_name, upload_path, MAX_UPLOAD_BYTES,
};

#[test]
fn rejects_path_traversal() {
    assert!(safe_filename("../secret.png").is_none());
    assert!(safe_filename("folder/image.png").is_none());
    assert!(safe_filename("/tmp/image.png").is_none());
}

#[test]
fn permits_single_filename() {
    assert_eq!(safe_filename("screen shot.png"), Some("screen shot.png"));
}

#[test]
fn keeps_uploads_under_agent_data() {
    assert_eq!(
        upload_path("/agent", "x.png").unwrap(),
        "/agent/data/uploads/x.png"
    );
}

#[test]
fn downloads_are_held_to_slack_and_a_size() {
    assert!(check_download_url("https://files.slack.com/x").is_ok());
    assert!(check_download_url("https://example.com/x").is_err());
    assert!(check_download_url("http://files.slack.com/x").is_err());
    assert!(check_download_response(200, Some(10), 10).is_ok());
    assert!(check_download_response(200, None, 10).is_ok());
    assert!(check_download_response(200, Some(11), 10).is_err());
    assert!(check_download_response(404, Some(1), 10).is_err());
    assert_eq!(count_received(4, 6, 10).unwrap(), 10);
    assert!(count_received(4, 7, 10).is_err());
    assert!(count_received(u64::MAX, 1, MAX_UPLOAD_BYTES).is_err());
    assert!(upload_path("/agent", "../x").is_err());
}

#[test]
fn slack_names_of_downloads_differ() {
    assert_ne!(target_name(1, "x.png"), target_name(2, "x.png"));
    assert_ne!(temporary_name(1, 1), temporary_name(1, 2));
    assert!(target_name(1, "x.png").ends_with("x.png"));
}
