use hibiscus_core::error::HibiscusError;
use hibiscus_core::path_guard::validate_path;
use hibiscus_core::path_guard::validate_path_within_root;
use hibiscus_core::path_guard::within_root;
use hibiscus_core::path_guard::CanonOutcome;
use hibiscus_core::path_guard::MAX_PATH_DEPTH;

fn expect_path_validation(r: Result<String, HibiscusError>, msg: &str) {
    match r {
        Err(HibiscusError::PathValidation(m)) => assert_eq!(m, msg),
        other => panic!("expected a path-validation error, got {:?}", other),
    }
}

#[test]
fn traversal_rejected_everywhere() {
    // leading, middle, trailing, deeply nested, backslash style, and bare
    for p in [
        "../etc/passwd",
        "a/../b",
        "docs/..",
        "a/b/c/d/e/../../f",
        "a\\..\\b",
        "..",
        "weird..name",
    ] {
        expect_path_validation(validate_path(p), "Path traversal not allowed");
    }
}

#[test]
fn depth_boundary() {
    assert_eq!(MAX_PATH_DEPTH, 50);
    let at_max = vec!["x"; 50].join("/");
    assert_eq!(validate_path(&at_max).unwrap(), at_max);
    let over = vec!["x"; 51].join("/");
    expect_path_validation(validate_path(&over), "Path depth 51 exceeds maximum 50");
    let far_over = vec!["x"; 120].join("/");
    expect_path_validation(validate_path(&far_over), "Path depth 120 exceeds maximum 50");
}

#[test]
fn valid_path_returned_as_given() {
    let r = validate_path("notes/today.txt").unwrap();
    assert_eq!(r, "notes/today.txt");
    // empty runs of separators open no components
    let r = validate_path("/a//b/").unwrap();
    assert_eq!(r, "/a//b/");
}

#[test]
fn within_root_component_boundary() {
    assert!(within_root("/home/u/ws/doc.txt", "/home/u/ws"));
    assert!(within_root("/home/u/ws", "/home/u/ws"));
    assert!(!within_root("/home/u/ws2/doc.txt", "/home/u/ws"));
    assert!(!within_root("/home/u", "/home/u/ws"));
    assert!(within_root("/home/u/ws/doc.txt", "/"));
}

#[test]
fn within_root_decision() {
    assert!(validate_path_within_root("ws/doc.txt", CanonOutcome::NotBothPresent).is_ok());
    let ok = validate_path_within_root(
        "ws/doc.txt",
        CanonOutcome::Canonical { path: "/r/ws/doc.txt".to_string(), root: "/r/ws".to_string() },
    );
    assert!(ok.is_ok());
    let out = validate_path_within_root(
        "doc.txt",
        CanonOutcome::Canonical { path: "/elsewhere/doc.txt".to_string(), root: "/r/ws".to_string() },
    );
    match out {
        Err(HibiscusError::PathValidation(m)) => {
            assert_eq!(m, "Path is outside workspace root")
        },
        other => panic!("expected a path-validation error, got {:?}", other),
    }
    // a validation failure propagates with its exact message
    match validate_path_within_root("a/../b", CanonOutcome::NotBothPresent) {
        Err(HibiscusError::PathValidation(m)) => assert_eq!(m, "Path traversal not allowed"),
        other => panic!("expected a path-validation error, got {:?}", other),
    }
    let io = validate_path_within_root("ws/doc.txt", CanonOutcome::PathFailed("denied".to_string()));
    match io {
        Err(HibiscusError::Io(m)) => assert_eq!(m, "Failed to canonicalize path: denied"),
        other => panic!("expected an io error, got {:?}", other),
    }
}
