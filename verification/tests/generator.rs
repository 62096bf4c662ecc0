use sy::streaming::channel::{DeltaInfo, GeneratorMessage, DELTA_MIN_SIZE};
use sy::streaming::generator::{
    Generator, GeneratorConfig, SourceEntry, DIR_MODE, FILE_MODE,
};
use sy::streaming::protocol::{BlockChecksum, DestFileEntry, DestFileFlags};

fn config(delete_enabled: bool) -> GeneratorConfig {
    GeneratorConfig {
        root: "/src".to_string(),
        include_hidden: true,
        follow_symlinks: false,
        delete_enabled,
    }
}

fn file(path: &str, size: u64, mtime: i64) -> SourceEntry {
    SourceEntry {
        relative_path: path.to_string(),
        size,
        mtime,
        is_dir: false,
        is_symlink: false,
        symlink_target: None,
        inode: Some(1),
        nlink: 1,
    }
}

fn dest(path: &str, size: u64, mtime: i64, flags: DestFileFlags) -> DestFileEntry {
    DestFileEntry {
        path: path.to_string(),
        size,
        mtime,
        mode: 0o644,
        flags,
        block_size: 0,
        checksums: vec![],
    }
}

#[test]
fn empty_source_yields_file_end_alone() {
    let generator = Generator::new(config(false));
    let plan = generator.run(&vec![]);
    assert_eq!(plan.total_files, 0);
    assert_eq!(plan.total_bytes, 0);
    assert_eq!(plan.messages.len(), 1);
    assert!(matches!(
        plan.messages[0],
        GeneratorMessage::FileEnd { total_files: 0, total_bytes: 0 }
    ));
}

#[test]
fn two_files_and_a_directory() {
    let mut root = file("", 0, 0);
    root.is_dir = true;
    let mut subdir = file("subdir", 0, 0);
    subdir.is_dir = true;
    let entries = vec![root, file("a.txt", 5, 10), file("b.txt", 5, 11), subdir];
    let plan = Generator::new(config(false)).run(&entries);
    assert_eq!(plan.total_files, 2);
    assert_eq!(plan.total_bytes, 10);
    assert_eq!(plan.messages.len(), 4);
    match &plan.messages[0] {
        GeneratorMessage::File(job) => {
            assert_eq!(job.path, "a.txt");
            assert_eq!(job.size, 5);
            assert_eq!(job.mtime, 10);
            assert_eq!(job.mode, FILE_MODE);
            assert_eq!(job.inode, 1);
            assert!(!job.need_delta);
            assert!(job.checksums.is_none());
        }
        other => panic!("expected a file, got {:?}", other),
    }
    assert!(matches!(&plan.messages[1], GeneratorMessage::File(job) if job.path == "b.txt"));
    match &plan.messages[2] {
        GeneratorMessage::Mkdir { path, mode } => {
            assert_eq!(path, "subdir");
            assert_eq!(*mode, DIR_MODE);
        }
        other => panic!("expected a directory, got {:?}", other),
    }
    assert!(matches!(
        plan.messages[3],
        GeneratorMessage::FileEnd { total_files: 2, total_bytes: 10 }
    ));
}

#[test]
fn unchanged_file_is_skipped() {
    let mut generator = Generator::new(config(true));
    generator.add_dest_entry(dest("a.txt", 100, 77, DestFileFlags::empty()));
    assert_eq!(generator.dest_count(), 1);
    let plan = generator.run(&vec![file("a.txt", 100, 77)]);
    assert_eq!(plan.total_files, 0);
    // Neither a work item for the file, nor a deletion: only the two ends.
    assert_eq!(plan.messages.len(), 2);
    assert!(matches!(plan.messages[0], GeneratorMessage::FileEnd { total_files: 0, .. }));
    assert!(matches!(plan.messages[1], GeneratorMessage::DeleteEnd { count: 0 }));
}

#[test]
fn changed_file_and_same_sized_directory_are_not_skipped() {
    let mut generator = Generator::new(config(false));
    generator.add_dest_entry(dest("a.txt", 100, 77, DestFileFlags::empty()));
    generator.add_dest_entry(dest("d", 0, 5, DestFileFlags::dir()));
    let mut dir = file("d", 0, 5);
    dir.is_dir = true;
    let plan = generator.run(&vec![file("a.txt", 100, 78), dir]);
    assert_eq!(plan.total_files, 1);
    assert_eq!(plan.messages.len(), 3);
    assert!(matches!(&plan.messages[0], GeneratorMessage::File(_)));
    assert!(matches!(&plan.messages[1], GeneratorMessage::Mkdir { .. }));
}

#[test]
fn stale_paths_are_deleted_once_each() {
    let mut generator = Generator::new(config(true));
    generator.add_dest_entry(dest("stale.txt", 1, 1, DestFileFlags::empty()));
    generator.add_dest_entry(dest("old", 0, 1, DestFileFlags::dir()));
    generator.add_dest_entry(dest("keep.txt", 4, 1, DestFileFlags::empty()));
    let plan = generator.run(&vec![file("keep.txt", 4, 2)]);
    let mut deleted: Vec<(String, bool)> = vec![];
    let mut count = None;
    for message in &plan.messages {
        match message {
            GeneratorMessage::Delete { path, is_dir } => deleted.push((path.clone(), *is_dir)),
            GeneratorMessage::DeleteEnd { count: n } => count = Some(*n),
            _ => {}
        }
    }
    deleted.sort();
    assert_eq!(deleted, vec![("old".to_string(), true), ("stale.txt".to_string(), false)]);
    assert_eq!(count, Some(2));
    assert!(matches!(plan.messages.last(), Some(GeneratorMessage::DeleteEnd { .. })));
}

#[test]
fn nothing_is_deleted_unless_enabled() {
    let mut generator = Generator::new(config(false));
    generator.add_dest_entry(dest("stale.txt", 1, 1, DestFileFlags::empty()));
    let plan = generator.run(&vec![]);
    assert_eq!(plan.messages.len(), 1);
    assert!(matches!(plan.messages[0], GeneratorMessage::FileEnd { .. }));
}

#[test]
fn delete_detection_on_empty_source() {
    let mut generator = Generator::new(config(true));
    generator.add_dest_entry(dest("stale.txt", 1, 1, DestFileFlags::empty()));
    let plan = generator.run(&vec![]);
    assert_eq!(plan.messages.len(), 3);
    assert!(matches!(
        &plan.messages[1],
        GeneratorMessage::Delete { path, is_dir: false } if path == "stale.txt"
    ));
    assert!(matches!(plan.messages[2], GeneratorMessage::DeleteEnd { count: 1 }));
}

#[test]
fn second_hard_link_points_at_the_first() {
    let mut generator = Generator::new(config(false));
    let mut first = file("first", 3, 1);
    first.inode = Some(42);
    first.nlink = 2;
    let mut second = file("second", 3, 1);
    second.inode = Some(42);
    second.nlink = 2;
    let mut single = file("single", 3, 1);
    single.inode = Some(42);
    let planned = generator.next_item(&first);
    assert!(planned.message.is_some());
    assert_eq!(planned.link_target, None);
    let planned = generator.next_item(&single);
    assert_eq!(planned.link_target, None);
    let planned = generator.next_item(&second);
    assert!(matches!(&planned.message, Some(GeneratorMessage::File(job)) if job.inode == 42));
    assert_eq!(planned.link_target, Some("first".to_string()));
    assert_eq!(generator.hard_link_target(42, 3, "third"), Some("first".to_string()));
    assert_eq!(generator.hard_link_target(42, 1, "fourth"), None);
    assert_eq!(generator.hard_link_target(43, 2, "other"), None);
    assert_eq!(generator.hard_link_target(43, 2, "again"), Some("other".to_string()));
}

#[test]
fn delta_needs_size_and_checksums() {
    let mut with_table = dest("big", 1, 1, DestFileFlags::has_checksums());
    with_table.block_size = 4096;
    with_table.checksums = vec![BlockChecksum { offset: 0, weak: 1, strong: 2 }];
    let mut generator = Generator::new(config(false));
    generator.add_dest_entry(with_table.clone());
    let planned = generator.next_item(&file("big", DELTA_MIN_SIZE, 9));
    match planned.message {
        Some(GeneratorMessage::File(job)) => {
            assert!(job.need_delta);
            let info: DeltaInfo = job.checksums.unwrap();
            assert_eq!(info.block_size, 4096);
            assert_eq!(info.file_size, 1);
            assert_eq!(info.checksums, vec![BlockChecksum { offset: 0, weak: 1, strong: 2 }]);
        }
        other => panic!("expected a file, got {:?}", other),
    }
    // One byte short of the minimum: sent whole.
    let mut generator = Generator::new(config(false));
    generator.add_dest_entry(with_table);
    let planned = generator.next_item(&file("big", DELTA_MIN_SIZE - 1, 9));
    assert!(matches!(
        planned.message,
        Some(GeneratorMessage::File(job)) if !job.need_delta && job.checksums.is_none()
    ));
    // No table on the other side: sent whole.
    let mut generator = Generator::new(config(false));
    generator.add_dest_entry(dest("big", 1, 1, DestFileFlags::empty()));
    let (need_delta, info) = generator.check_delta_for_state(None, DELTA_MIN_SIZE);
    assert!(!need_delta);
    assert!(info.is_none());
}

#[test]
fn symlinks_carry_their_target() {
    let mut generator = Generator::new(config(false));
    let mut link = file("l", 0, 0);
    link.is_symlink = true;
    link.symlink_target = Some("t".to_string());
    let planned = generator.next_item(&link);
    assert!(matches!(
        planned.message,
        Some(GeneratorMessage::Symlink { ref path, ref target }) if path == "l" && target == "t"
    ));
    link.symlink_target = None;
    let planned = generator.next_item(&link);
    assert!(matches!(
        planned.message,
        Some(GeneratorMessage::Symlink { ref target, .. }) if target.is_empty()
    ));
}
