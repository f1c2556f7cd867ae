use ftml::preproc::preprocess;
use ftml::service::{FileService, ServiceError};

fn v(s: &str) -> Vec<u8> {
    s.as_bytes().to_vec()
}

#[test]
fn preprocess_normalizes_line_endings_and_tabs() {
    let out = preprocess(&v("a\r\nb\rc\td"));
    assert_eq!(out, v("a\nb\nc    d"));
}

#[test]
fn preprocess_leaves_clean_text_alone() {
    let out = preprocess(&v("plain\ntext"));
    assert_eq!(out, v("plain\ntext"));
}

#[test]
fn get_passes_found_records_through() {
    assert_eq!(FileService::get(Some(7u32)), Ok(7u32));
    assert_eq!(FileService::get::<u32>(None), Err(ServiceError::NotFound));
}

#[test]
fn record_exists_reflects_the_lookup() {
    assert!(FileService::record_exists(&Some(1u8)));
    assert!(!FileService::record_exists::<u8>(&None));
}

#[test]
fn conflicting_name_forbids_creation() {
    assert_eq!(
        FileService::check_conflicts(Some(v("file_1"))),
        Err(ServiceError::Conflict)
    );
    assert_eq!(FileService::check_conflicts(None), Ok(()));
}

#[test]
fn deletion_requires_existence() {
    assert_eq!(FileService::delete_allowed(true), Ok(()));
    assert_eq!(FileService::delete_allowed(false), Err(ServiceError::NotFound));
}

#[test]
fn errors_map_to_http_statuses() {
    assert_eq!(ServiceError::Database(v("boom")).status_code(), 500);
    assert_eq!(ServiceError::Web(503).status_code(), 503);
    assert_eq!(ServiceError::Conflict.status_code(), 409);
    assert_eq!(ServiceError::NotFound.status_code(), 404);
}

#[test]
fn database_errors_split_on_missing_records() {
    assert_eq!(
        ServiceError::of_database_error(true, v("ignored")),
        ServiceError::NotFound
    );
    assert_eq!(
        ServiceError::of_database_error(false, v("syntax")),
        ServiceError::Database(v("syntax"))
    );
}
