use hibiscus_core::error::HibiscusError;

#[test]
fn test_error_display() {
    let err = HibiscusError::FileNotFound("/path/to/file".to_string());
    assert_eq!(err.message(), "File not found: /path/to/file");
}

#[test]
fn test_io_error_conversion() {
    let io_err = std::io::Error::new(std::io::ErrorKind::NotFound, "test");
    let err = HibiscusError::Io(io_err.to_string());
    assert!(err.message().contains("test"));
}

#[test]
fn test_every_variant_message() {
    let e = HibiscusError::InvalidPathType {
        path: "/w/x".to_string(),
        expected: "file".to_string(),
        actual: "directory".to_string(),
    };
    assert_eq!(e.message(), "Invalid path type: expected file, got directory at /w/x");
    assert_eq!(
        HibiscusError::PathValidation("no".to_string()).message(),
        "Path validation failed: no"
    );
    assert_eq!(HibiscusError::Io("disk full".to_string()).message(), "IO error: disk full");
    assert_eq!(
        HibiscusError::Serialization("bad".to_string()).message(),
        "Serialization error: bad"
    );
    assert_eq!(HibiscusError::Workspace("w".to_string()).message(), "Workspace error: w");
    assert_eq!(HibiscusError::Watcher("dead".to_string()).message(), "Watcher error: dead");
}
