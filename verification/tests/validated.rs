use magical_merchant_core::error::CoreError;
use magical_merchant_core::validated::{Filename, NoteFilename, Slug};

#[test]
fn validated_test_slug_parse_valid() {
    assert!(Slug::parse("my-project").is_ok());
    assert!(Slug::parse("project123").is_ok());
    assert!(Slug::parse("a").is_ok());
    assert!(Slug::parse("abc-def-123").is_ok());
}

#[test]
fn validated_test_slug_parse_invalid() {
    assert!(Slug::parse("").is_err());
    assert!(Slug::parse("My-Project").is_err());
    assert!(Slug::parse("-start").is_err());
    assert!(Slug::parse("end-").is_err());
    assert!(Slug::parse("has space").is_err());
    assert!(Slug::parse("under_score").is_err());
}

#[test]
fn validated_test_slug_parse_returns_invalid_slug_error() {
    let err = Slug::parse("Bad Slug").unwrap_err();
    assert!(matches!(err, CoreError::InvalidSlug(_)));
}

#[test]
fn validated_test_slug_as_str_roundtrip() {
    let slug = Slug::parse("foo").unwrap();
    assert_eq!(slug.as_str(), "foo");
}

#[test]
fn validated_test_slug_display() {
    let slug = Slug::parse("my-project").unwrap();
    assert_eq!(slug.display(), "my-project");
}

#[test]
fn test_filename_parse_valid() {
    assert!(Filename::parse("20260101_120000.md").is_ok());
    assert!(Filename::parse("task.md").is_ok());
    assert!(Filename::parse("some-file.txt").is_ok());
}

#[test]
fn test_filename_parse_invalid() {
    assert!(Filename::parse("").is_err());
    assert!(Filename::parse("../evil.md").is_err());
    assert!(Filename::parse("foo/bar.md").is_err());
    assert!(Filename::parse("foo\\bar.md").is_err());
    assert!(Filename::parse("foo\0bar.md").is_err());
    assert!(Filename::parse("../../etc/passwd").is_err());
}

#[test]
fn test_filename_parse_returns_path_traversal_error() {
    let err = Filename::parse("../evil").unwrap_err();
    assert!(matches!(err, CoreError::PathTraversal(_)));
}

#[test]
fn test_filename_as_str_roundtrip() {
    let f = Filename::parse("task.md").unwrap();
    assert_eq!(f.as_str(), "task.md");
}

#[test]
fn test_note_filename_parse_valid() {
    assert!(NoteFilename::parse("20260101_120000.md").is_ok());
    assert!(NoteFilename::parse("my-note.md").is_ok());
}

#[test]
fn test_note_filename_parse_invalid() {
    assert!(NoteFilename::parse("").is_err());
    assert!(NoteFilename::parse("../etc/passwd").is_err());
    assert!(NoteFilename::parse("/tmp/evil.md").is_err());
    assert!(NoteFilename::parse("evil.txt").is_err());
    assert!(NoteFilename::parse("no-extension").is_err());
    assert!(NoteFilename::parse("foo\0bar.md").is_err());
}

#[test]
fn test_note_filename_parse_returns_path_traversal_error() {
    let err = NoteFilename::parse("../evil.md").unwrap_err();
    assert!(matches!(err, CoreError::PathTraversal(_)));
}

#[test]
fn test_note_filename_as_str_roundtrip() {
    let f = NoteFilename::parse("note.md").unwrap();
    assert_eq!(f.as_str(), "note.md");
}

#[test]
fn test_delete_note_path_traversal() {
    assert!(NoteFilename::parse("../etc/passwd").is_err());
}

#[test]
fn test_delete_note_rejects_absolute_path() {
    assert!(NoteFilename::parse("/tmp/evil.md").is_err());
}

#[test]
fn test_read_note_by_filename_path_traversal() {
    assert!(NoteFilename::parse("../etc/passwd").is_err());
}

#[test]
fn test_validate_rejects_non_md_extension() {
    assert!(NoteFilename::parse("evil.txt").is_err());
}

#[test]
fn test_create_project_invalid_slug() {
    assert!(Slug::parse("Bad Slug").is_err());
}

#[test]
fn test_complete_task_path_traversal() {
    assert!(Filename::parse("../../../etc/passwd").is_err());
}

#[test]
fn test_update_task_path_traversal() {
    assert!(Filename::parse("../evil.md").is_err());
}

#[test]
fn test_delete_task_invalid_slug() {
    assert!(Slug::parse("Bad Slug").is_err());
}

#[test]
fn test_delete_task_path_traversal() {
    assert!(Filename::parse("../../../etc/passwd").is_err());
}

#[test]
fn slug_error_carries_the_refused_text() {
    match Slug::parse("Bad Slug") {
        Err(CoreError::InvalidSlug(s)) => assert_eq!(s, "Bad Slug"),
        _ => panic!("expected an invalid slug error"),
    }
}

#[test]
fn note_filename_accepts_double_extension_ending_in_md() {
    assert!(NoteFilename::parse("a.b.md").is_ok());
    assert!(NoteFilename::parse(".md").is_err());
}
