use sy::streaming::channel::{DestFileState, DestIndex, SyncStats};
use sy::streaming::{DataFlags, DestFileFlags, FileFlags, SyncDirection, DATA_CHUNK_SIZE};

#[test]
fn test_dest_index() {
    let mut index = DestIndex::new();

    index.insert(
        "file.txt".to_string(),
        DestFileState { size: 1024, mtime: 1234567890, mode: 0o644, is_dir: false, delta_info: None },
    );

    assert!(index.contains("file.txt"));
    assert!(!index.contains("other.txt"));

    let state = index.get("file.txt").unwrap();
    assert_eq!(state.size, 1024);

    index.remove("file.txt");
    assert!(!index.contains("file.txt"));
}

#[test]
fn test_sync_stats() {
    let mut stats = SyncStats::new();
    stats.files_ok = 100;
    stats.bytes_transferred = 1024 * 1024;
    stats.delta_files = 10;
    stats.delta_bytes_saved = 512 * 1024;

    assert_eq!(stats.files_ok, 100);
    assert_eq!(stats.delta_files, 10);
}

#[test]
fn index_lists_what_is_left() {
    let mut index = DestIndex::default();
    assert!(index.is_empty());
    for (path, is_dir) in vec![("a", false), ("b", true), ("c", false)] {
        index.insert(
            path.to_string(),
            DestFileState { size: 1, mtime: 2, mode: 3, is_dir, delta_info: None },
        );
    }
    // Putting a path in again replaces its state.
    index.insert(
        "a".to_string(),
        DestFileState { size: 9, mtime: 2, mode: 3, is_dir: false, delta_info: None },
    );
    assert_eq!(index.len(), 3);
    let taken = index.remove("b").unwrap();
    assert!(taken.is_dir);
    assert!(index.remove("b").is_none());
    index.insert(
        "b".to_string(),
        DestFileState { size: 4, mtime: 2, mode: 3, is_dir: false, delta_info: None },
    );
    index.remove("c");
    let mut left: Vec<(String, u64)> =
        index.remaining_paths().iter().map(|(p, s)| ((*p).clone(), s.size)).collect();
    left.sort();
    assert_eq!(left, vec![("a".to_string(), 9), ("b".to_string(), 4)]);
    assert_eq!(index.len(), 2);
    assert!(!index.is_empty());
}

#[test]
fn defaults_are_empty() {
    assert_eq!(SyncStats::default(), SyncStats::new());
    assert_eq!(SyncStats::new().files_ok, 0);
    assert!(FileFlags::default().is_empty());
    assert!(DestFileFlags::default().is_empty());
    assert!(DataFlags::default().is_empty());
    assert_ne!(SyncDirection::Push, SyncDirection::Pull);
    assert_eq!(DATA_CHUNK_SIZE, 256 * 1024);
}
