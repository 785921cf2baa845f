use std::collections::HashMap;

use hibiscus_core::error::HibiscusError;
use hibiscus_core::persist::read_text_file;
use hibiscus_core::persist::structured_temp_path;
use hibiscus_core::persist::temp_path_for;
use hibiscus_core::persist::AtomicWrite;
use hibiscus_core::persist::SourceProbe;
use hibiscus_core::persist::WritePhase;

#[test]
fn temp_sibling_names() {
    assert_eq!(temp_path_for("dir/notes.txt"), "dir/notes.txt.hibiscus-save~");
    assert_eq!(temp_path_for("notes.txt"), "notes.txt.hibiscus-save~");
    assert_eq!(structured_temp_path("ws/.hibiscus/workspace.json"), "ws/.hibiscus/workspace.json.tmp");
    assert_eq!(structured_temp_path("a/b.json"), "a/b.json.tmp");
    assert_eq!(structured_temp_path("noext"), "noext.json.tmp");
    // a leading dot opens a name, not an extension
    assert_eq!(structured_temp_path(".hidden"), ".hidden.json.tmp");
    assert_eq!(structured_temp_path("a.b.c"), "a.b.json.tmp");
}

#[test]
fn machine_walks_the_step_order() {
    let mut m = AtomicWrite::begin_raw("dir/doc.txt").unwrap();
    assert_eq!(m.target, "dir/doc.txt");
    assert_eq!(m.temp, "dir/doc.txt.hibiscus-save~");
    let expected = [
        WritePhase::EnsureParent,
        WritePhase::CreateTemp,
        WritePhase::WriteTemp,
        WritePhase::SyncTemp,
        WritePhase::RemoveExisting,
        WritePhase::Rename,
        WritePhase::Committed,
    ];
    for (i, phase) in expected.iter().enumerate() {
        assert_eq!(m.phase, *phase);
        if i + 1 < expected.len() {
            m.succeed();
        }
    }
}

#[test]
fn machine_rejects_traversal() {
    assert!(matches!(
        AtomicWrite::begin_raw("a/../b"),
        Err(HibiscusError::PathValidation(_))
    ));
    assert!(matches!(
        AtomicWrite::begin_structured("a/../b.json"),
        Err(HibiscusError::PathValidation(_))
    ));
}

#[test]
fn failure_messages_and_cleanup_flags() {
    let mut m = AtomicWrite::begin_raw("d/f.txt").unwrap();
    let (e, cleanup) = m.fail("denied");
    assert!(!cleanup); // no temp file exists before its creation is attempted
    match e {
        HibiscusError::Io(msg) => {
            assert_eq!(msg, "Failed to create parent directories for 'd/f.txt': denied")
        },
        other => panic!("expected an io error, got {:?}", other),
    }

    let mut m = AtomicWrite::begin_raw("d/f.txt").unwrap();
    m.succeed(); // parent ensured
    m.succeed(); // temp created
    let (e, cleanup) = m.fail("disk full");
    assert!(cleanup);
    match e {
        HibiscusError::Io(msg) => {
            assert_eq!(msg, "Failed to write to temp file 'd/f.txt.hibiscus-save~': disk full")
        },
        other => panic!("expected an io error, got {:?}", other),
    }

    let mut m = AtomicWrite::begin_raw("d/f.txt").unwrap();
    for _ in 0..5 {
        m.succeed();
    }
    assert_eq!(m.phase, WritePhase::Rename);
    let (e, cleanup) = m.fail("busy");
    assert!(cleanup);
    match e {
        HibiscusError::Io(msg) => {
            assert_eq!(msg, "Failed to rename 'd/f.txt.hibiscus-save~' to 'd/f.txt': busy")
        },
        other => panic!("expected an io error, got {:?}", other),
    }
}

/// Runs the write machine against a fake disk, failing (if anywhere) at the
/// given phase; returns whether the write committed.
fn run_write(
    disk: &mut HashMap<String, Vec<u8>>,
    path: &str,
    content: &[u8],
    fail_at: Option<WritePhase>,
) -> bool {
    let mut m = AtomicWrite::begin_raw(path).unwrap();
    loop {
        if fail_at == Some(m.phase) {
            let (_e, cleanup) = m.fail("simulated");
            if cleanup {
                disk.remove(&m.temp);
            }
            return false;
        }
        match m.phase {
            WritePhase::EnsureParent => {},
            WritePhase::CreateTemp => {
                disk.insert(m.temp.clone(), Vec::new());
            },
            WritePhase::WriteTemp => {
                disk.insert(m.temp.clone(), content.to_vec());
            },
            WritePhase::SyncTemp => {},
            // rename replaces the destination on this modeled platform
            WritePhase::RemoveExisting => {},
            WritePhase::Rename => {
                let bytes = disk.remove(&m.temp).unwrap();
                disk.insert(m.target.clone(), bytes);
            },
            WritePhase::Committed => return true,
            WritePhase::Failed => return false,
        }
        if m.phase == WritePhase::Committed {
            return true;
        }
        m.succeed();
    }
}

#[test]
fn writing_twice_is_byte_identical_and_leaves_no_temp() {
    let mut disk: HashMap<String, Vec<u8>> = HashMap::new();
    assert!(run_write(&mut disk, "ws/doc.txt", b"hello", None));
    let once = disk.clone();
    assert!(run_write(&mut disk, "ws/doc.txt", b"hello", None));
    assert_eq!(disk, once);
    assert_eq!(disk.get("ws/doc.txt").map(|b| b.as_slice()), Some(b"hello".as_slice()));
    assert!(!disk.contains_key("ws/doc.txt.hibiscus-save~"));
    assert_eq!(disk.len(), 1);
}

#[test]
fn failure_before_rename_preserves_target_and_removes_temp() {
    let mut disk: HashMap<String, Vec<u8>> = HashMap::new();
    assert!(run_write(&mut disk, "ws/doc.txt", b"old content", None));
    let before = disk.clone();
    // the temp file is created and written, then the sync step fails
    assert!(!run_write(&mut disk, "ws/doc.txt", b"new content", Some(WritePhase::SyncTemp)));
    assert_eq!(disk, before);
    // and the same when the target never existed
    let mut disk: HashMap<String, Vec<u8>> = HashMap::new();
    assert!(!run_write(&mut disk, "ws/new.txt", b"content", Some(WritePhase::Rename)));
    assert!(disk.is_empty());
}

#[test]
fn read_text_file_cases() {
    match read_text_file("ws/missing.txt", SourceProbe::Missing) {
        Err(HibiscusError::FileNotFound(p)) => assert_eq!(p, "ws/missing.txt"),
        other => panic!("expected a file-not-found error, got {:?}", other),
    }
    match read_text_file("ws/folder", SourceProbe::NotAFile) {
        Err(HibiscusError::InvalidPathType { path, expected, actual }) => {
            assert_eq!((path.as_str(), expected.as_str(), actual.as_str()), ("ws/folder", "file", "directory"));
        },
        other => panic!("expected an invalid-path-type error, got {:?}", other),
    }
    match read_text_file("ws/f.txt", SourceProbe::ReadFailed("denied".to_string())) {
        Err(HibiscusError::Io(m)) => assert_eq!(m, "Failed to read file 'ws/f.txt': denied"),
        other => panic!("expected an io error, got {:?}", other),
    }
    let got = read_text_file("ws/f.txt", SourceProbe::Content("body".to_string())).unwrap();
    assert_eq!(got, "body");
    assert!(matches!(
        read_text_file("../f.txt", SourceProbe::Content("body".to_string())),
        Err(HibiscusError::PathValidation(_))
    ));
}
