//! Protocol decisions: status codes, dimension checks, error names.

use vfs::err::VFSError;
use vfs::protocol::{status_code_to_text, validate_dimension, status_for_lookup,
    status_for_register};
use vfs::storage_manager::VFSManager;

#[test]
fn status_texts_follow_http_conventions() {
    assert_eq!(status_code_to_text(200), "200 OK");
    assert_eq!(status_code_to_text(201), "201 Created");
    assert_eq!(status_code_to_text(204), "204 No Content");
    assert_eq!(status_code_to_text(400), "400 Bad Request");
    assert_eq!(status_code_to_text(404), "404 Not Found");
    assert_eq!(status_code_to_text(500), "500 Internal Server Error");
    assert_eq!(status_code_to_text(999), "200 OK");
}

#[test]
fn wrong_dimension_is_a_400_invalid_vector() {
    // An engine initialized for dimension four refuses a three-value
    // registration before it touches the store.
    let err = validate_dimension(4, 3).expect_err("the dimension mismatch must be refused");
    assert_eq!(err.error_type(), "invalid_vector");
    assert_eq!(err.status_code(), 400);
    let outcome: Result<u64, VFSError> = Err(err);
    assert_eq!(status_for_register(&outcome), 400);
    assert!(validate_dimension(4, 4).is_ok());
}

#[test]
fn unknown_identifier_is_a_404() {
    let mut m = VFSManager::new("web");
    m.register_vector_from_vec(vec![1.0f32.to_bits()], "one", Vec::new()).unwrap();
    let found = m.get_vector_by_id(999999);
    assert!(found.is_none());
    assert_eq!(status_for_lookup(&found), 404);
    let hit = m.get_vector_by_id(1);
    assert_eq!(status_for_lookup(&hit), 200);
}

#[test]
fn successful_registration_is_a_201() {
    let mut m = VFSManager::new("post");
    let outcome = m.register_vector_from_vec(vec![2.0f32.to_bits()], "ok", Vec::new());
    assert_eq!(status_for_register(&outcome), 201);
}

#[test]
fn error_kinds_map_to_codes_and_names() {
    let cases: Vec<(VFSError, u16, &str, &str)> = vec![
        (VFSError::IoError("boom".into()), 500, "io_error", "I/O error: boom"),
        (VFSError::MemtableError("m".into()), 500, "storage_error", "Memtable error: m"),
        (VFSError::InvalidVector("v".into()), 400, "invalid_vector", "Invalid vector: v"),
        (
            VFSError::IdGenerationError("i".into()),
            500,
            "id_generation_error",
            "ID generation error: i",
        ),
        (
            VFSError::SerializationError("s".into()),
            422,
            "serialization_error",
            "Serialization error: s",
        ),
    ];
    for (err, code, name, message) in cases {
        assert_eq!(err.status_code(), code);
        assert_eq!(err.error_type(), name);
        assert_eq!(err.message(), message);
    }
}
