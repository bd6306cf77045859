use document_library::default_expiration;
use document_library::ingest::{
    bearer_token, classify_storage_error, copy_source, destination_key, detect_event_kind,
    file_name_of_key, fix_plus, max_relocation_attempts, next_retry, object_key_decoded,
    relocation_status, EventKind, RelocationStatus, RetryDecision, StorageErrorKind,
};

#[test]
fn file_name_is_the_last_key_segment() {
    assert_eq!(file_name_of_key("inbox/2024/report.pdf"), "report.pdf");
    assert_eq!(file_name_of_key("report.pdf"), "report.pdf");
    assert_eq!(file_name_of_key("inbox/"), "");
}

#[test]
fn destination_key_swaps_or_prepends_the_prefix() {
    assert_eq!(
        destination_key("inbox/report.pdf", "inbox/", "processed/"),
        "processed/report.pdf"
    );
    assert_eq!(
        destination_key("elsewhere/report.pdf", "inbox/", "processed/"),
        "processed/elsewhere/report.pdf"
    );
}

#[test]
fn plus_is_escaped_before_decoding() {
    assert_eq!(fix_plus("a+b+c"), "a%2Bb%2Bc");
    assert_eq!(fix_plus("plain"), "plain");
}

#[test]
fn object_keys_decode_percent_escapes_and_keep_plus() {
    assert_eq!(object_key_decoded("my%20file.pdf"), "my file.pdf");
    // a literal '+' must survive, not turn into a space
    assert_eq!(object_key_decoded("a+b.pdf"), "a+b.pdf");
    assert_eq!(object_key_decoded("plain.pdf"), "plain.pdf");
}

#[test]
fn copy_source_escapes_the_key_strictly() {
    assert_eq!(copy_source("bucket", "dir/a b.pdf"), "bucket/dir%2Fa%20b%2Epdf");
}

#[test]
fn storage_errors_are_told_apart() {
    assert_eq!(
        classify_storage_error("service error: NoSuchKey on get"),
        StorageErrorKind::MissingObject
    );
    assert_eq!(
        classify_storage_error("head failed: NotFound"),
        StorageErrorKind::MissingObject
    );
    assert_eq!(
        classify_storage_error("AccessDenied for this bucket"),
        StorageErrorKind::AccessDenied
    );
    assert_eq!(
        classify_storage_error("Access Denied by policy"),
        StorageErrorKind::AccessDenied
    );
    assert_eq!(
        classify_storage_error("connection reset by peer"),
        StorageErrorKind::OtherFailure
    );
}

#[test]
fn relocation_retries_are_bounded_with_fixed_policy() {
    assert_eq!(max_relocation_attempts(), 3);
    assert_eq!(next_retry(0), RetryDecision::RetryAfterDelay);
    assert_eq!(next_retry(2), RetryDecision::RetryAfterDelay);
    assert_eq!(next_retry(3), RetryDecision::GiveUp);
}

#[test]
fn copy_failure_aborts_but_delete_failure_only_warns() {
    assert_eq!(relocation_status(false, true), RelocationStatus::CopyFailed);
    assert_eq!(relocation_status(false, false), RelocationStatus::CopyFailed);
    assert_eq!(relocation_status(true, true), RelocationStatus::Completed);
    assert_eq!(
        relocation_status(true, false),
        RelocationStatus::CompletedSourceRetained
    );
}

#[test]
fn event_shape_detection_prefers_direct_records() {
    assert_eq!(detect_event_kind(true, true, true), EventKind::DirectRecords);
    assert_eq!(detect_event_kind(false, true, true), EventKind::HttpEnvelope);
    assert_eq!(detect_event_kind(false, true, false), EventKind::UnknownShape);
    assert_eq!(detect_event_kind(false, false, true), EventKind::UnknownShape);
}

#[test]
fn default_link_expiration_is_fifteen_minutes() {
    assert_eq!(default_expiration(), 900);
}

#[test]
fn bearer_tokens_are_stripped_or_rejected() {
    assert_eq!(bearer_token("Bearer abc.def.ghi"), Some(String::from("abc.def.ghi")));
    assert_eq!(bearer_token("Bearer "), Some(String::from("")));
    assert_eq!(bearer_token("Basic abc"), None);
    assert_eq!(bearer_token("bearer abc"), None);
}
