use std::hash::{Hash, Hasher};
use sy::bisync::state::{parse_line, write_state, BisyncStateDb, PathStates, Side, SyncState};
use sy::bisync::text::{
    append_hex, find, parse_hex_u64, parse_i64, parse_u64, push_hex_u64, push_i64, push_u64, trim,
};

fn temp_db() -> BisyncStateDb {
    BisyncStateDb::open("/tmp/T/source", "/tmp/T/dest", None)
}

fn state(path: &str, side: Side, size: u64, checksum: Option<u64>) -> SyncState {
    SyncState {
        path: path.to_string(),
        side,
        mtime: 1_700_000_000_123_456_789,
        size,
        checksum,
        last_sync: 1_700_000_000_999_999_999,
    }
}

fn entry<'a>(all: &'a [PathStates], path: &str) -> &'a PathStates {
    all.iter().find(|e| e.path == path).unwrap()
}

#[test]
fn test_store_and_retrieve() {
    let mut db = temp_db();

    let state = state("test.txt", Side::Source, 1024, Some(0x123456789abcdef0));

    db.store(&state);

    let retrieved = db.get(&state.path, Side::Source).unwrap();
    assert_eq!(retrieved.path, state.path);
    assert_eq!(retrieved.side, state.side);
    assert_eq!(retrieved.size, state.size);
    assert_eq!(retrieved.checksum, state.checksum);
}

#[test]
fn test_store_both_sides() {
    let mut db = temp_db();

    let source_state = state("test.txt", Side::Source, 1024, Some(0x111));
    let mut dest_state = state("test.txt", Side::Dest, 2048, Some(0x222));
    dest_state.mtime -= 60_000_000_000;

    db.store(&source_state);
    db.store(&dest_state);

    let source_retrieved = db.get(&source_state.path, Side::Source).unwrap();
    let dest_retrieved = db.get(&dest_state.path, Side::Dest).unwrap();

    assert_eq!(source_retrieved.size, 1024);
    assert_eq!(dest_retrieved.size, 2048);
    assert_eq!(source_retrieved.checksum, Some(0x111));
    assert_eq!(dest_retrieved.checksum, Some(0x222));
}

#[test]
fn test_load_all() {
    let mut db = temp_db();

    let states = vec![
        state("file1.txt", Side::Source, 100, None),
        state("file1.txt", Side::Dest, 100, None),
        state("file2.txt", Side::Source, 200, None),
    ];

    for state in &states {
        db.store(state);
    }

    let all_states = db.load_all();
    assert_eq!(all_states.len(), 2); // 2 unique paths

    let file1 = entry(&all_states, "file1.txt");
    assert!(file1.source.is_some()); // Source
    assert!(file1.dest.is_some()); // Dest

    let file2 = entry(&all_states, "file2.txt");
    assert!(file2.source.is_some()); // Source
    assert!(file2.dest.is_none()); // Dest
}

#[test]
fn test_delete() {
    let mut db = temp_db();

    let state = state("test.txt", Side::Source, 1024, None);

    db.store(&state);
    assert!(db.get(&state.path, Side::Source).is_some());

    db.delete(&state.path);
    assert!(db.get(&state.path, Side::Source).is_none());
}

#[test]
fn test_clear_all() {
    let mut db = temp_db();

    for i in 0..10 {
        let state = state(&format!("file{}.txt", i), Side::Source, 1024, None);
        db.store(&state);
    }

    let all_before = db.load_all();
    assert_eq!(all_before.len(), 10);

    db.clear_all();

    let all_after = db.load_all();
    assert_eq!(all_after.len(), 0);
}

#[test]
fn test_sync_pair_hash_uniqueness() {
    let db1 = BisyncStateDb::open("/tmp/T/source1", "/tmp/T/dest", None);
    let db2 = BisyncStateDb::open("/tmp/T/source2", "/tmp/T/dest", None);

    // Different source → different hash
    assert_ne!(db1.sync_pair_hash(), db2.sync_pair_hash());
}

#[test]
fn pair_hash_is_the_standard_hash_in_hex() {
    let mut hasher = std::collections::hash_map::DefaultHasher::new();
    "/a".hash(&mut hasher);
    "/b".hash(&mut hasher);
    let expected = format!("{:x}", hasher.finish());
    assert_eq!(BisyncStateDb::generate_sync_pair_hash("/a", "/b"), expected);
    assert_eq!(BisyncStateDb::open("/a", "/b", None).sync_pair_hash(), expected);
}

#[test]
fn state_lines_are_written_field_by_field() {
    let mut out = Vec::new();
    write_state(&mut out, &state("dir/file.txt", Side::Source, 1024, Some(0xabc)));
    assert_eq!(out, b"source 1700000000123456789 1024 abc dir/file.txt\n".to_vec());
    let mut out = Vec::new();
    let mut s = state("my \"file\"", Side::Dest, 0, None);
    s.mtime = -5;
    write_state(&mut out, &s);
    assert_eq!(out, b"dest -5 0 - \"my \\\"file\\\"\"\n".to_vec());
}

#[test]
fn state_lines_are_read_back() {
    let s = parse_line(b"  source 1700000000123456789 1024 abc dir/file.txt \r\n").unwrap();
    assert_eq!(
        s,
        SyncState {
            path: "dir/file.txt".to_string(),
            side: Side::Source,
            mtime: 1700000000123456789,
            size: 1024,
            checksum: Some(0xabc),
            last_sync: 1700000000123456789,
        }
    );
    let s = parse_line(b"dest x y - \"my file\"").unwrap();
    assert_eq!(s.side, Side::Dest);
    assert_eq!(s.mtime, 0);
    assert_eq!(s.size, 0);
    assert_eq!(s.checksum, None);
    assert_eq!(s.path, "my file");
    assert_eq!(parse_line(b"source 1 2 zz p").unwrap().checksum, None);
    assert_eq!(parse_line(b"source 1 2 FF \"").unwrap().path, "\"");
    assert_eq!(parse_line(b"source 1 2 FF \"").unwrap().checksum, Some(255));
    assert_eq!(parse_line(b"# comment"), None);
    assert_eq!(parse_line(b"   "), None);
    assert_eq!(parse_line(b"source 1 2 3"), None);
    assert_eq!(parse_line(b"middle 1 2 3 p"), None);
    assert_eq!(parse_line(b"source 1 2 3 \xff"), None);
    // A second space makes an empty field.
    assert_eq!(parse_line(b"source  1 2 3 p").unwrap().path, "3 p");
}

#[test]
fn state_file_round_trip() {
    let mut db = BisyncStateDb::open("/src dir", "/dst", None);
    db.store(&state("b.txt", Side::Dest, 7, None));
    db.store(&state("a b.txt", Side::Source, 9, Some(0x10)));
    db.store(&state("b.txt", Side::Source, 8, Some(0xdeadbeef)));
    let content = db.save_to_file("2024-01-01T00:00:00+00:00");
    let text = String::from_utf8(content.clone()).unwrap();
    assert_eq!(
        text,
        "# sy bisync v1\n# sync_pair: /src dir <-> /dst\n# last_sync: 2024-01-01T00:00:00+00:00\n\
         source 1700000000123456789 8 deadbeef b.txt\n\
         dest 1700000000123456789 7 - b.txt\n\
         source 1700000000123456789 9 10 \"a b.txt\"\n"
    );
    let again = BisyncStateDb::open("/src dir", "/dst", Some(&content));
    let all = again.load_all();
    assert_eq!(all.len(), 2);
    assert_eq!(all[0].path, "b.txt");
    assert_eq!(all[0].source.as_ref().unwrap().size, 8);
    assert_eq!(all[0].source.as_ref().unwrap().checksum, Some(0xdeadbeef));
    assert_eq!(all[0].dest.as_ref().unwrap().size, 7);
    assert_eq!(all[1].path, "a b.txt");
    assert_eq!(again.get("a b.txt", Side::Source).unwrap().checksum, Some(0x10));
    assert_eq!(again.get("a b.txt", Side::Dest), None);
    assert_eq!(again.get("missing", Side::Dest), None);
    let mut again = again;
    assert_eq!(again.prune_stale(3), 0);
    assert_eq!(again.load_all().len(), 2);
    assert_eq!(BisyncStateDb::load_from_file(b"").len(), 0);
}

#[test]
fn state_directory_follows_the_environment() {
    assert_eq!(
        BisyncStateDb::get_state_dir(Some("/xdg"), Some("/home/u")),
        Some("/xdg/sy/bisync".to_string())
    );
    assert_eq!(
        BisyncStateDb::get_state_dir(None, Some("/home/u")),
        Some("/home/u/.cache/sy/bisync".to_string())
    );
    assert_eq!(BisyncStateDb::get_state_dir(None, None), None);
    assert_eq!(Side::Source.as_str(), "source");
    assert_eq!(Side::Dest.as_str(), "dest");
    assert_eq!(Side::from_str("source"), Some(Side::Source));
    assert_eq!(Side::from_str("dest"), Some(Side::Dest));
    assert_eq!(Side::from_str("Dest"), None);
    assert_eq!(BisyncStateDb::FORMAT_VERSION, "v1");
}

#[test]
fn numbers_as_text() {
    assert_eq!(parse_u64(b"0"), Some(0));
    assert_eq!(parse_u64(b"+42"), Some(42));
    assert_eq!(parse_u64(b"18446744073709551615"), Some(u64::MAX));
    assert_eq!(parse_u64(b"18446744073709551616"), None);
    assert_eq!(parse_u64(b""), None);
    assert_eq!(parse_u64(b"+"), None);
    assert_eq!(parse_u64(b"-1"), None);
    assert_eq!(parse_u64(b"1a"), None);
    assert_eq!(parse_i64(b"-9223372036854775808"), Some(i64::MIN));
    assert_eq!(parse_i64(b"9223372036854775807"), Some(i64::MAX));
    assert_eq!(parse_i64(b"9223372036854775808"), None);
    assert_eq!(parse_i64(b"-9223372036854775809"), None);
    assert_eq!(parse_i64(b"-"), None);
    assert_eq!(parse_i64(b"+7"), Some(7));
    assert_eq!(parse_hex_u64(b"ff"), Some(255));
    assert_eq!(parse_hex_u64(b"FFFFFFFFFFFFFFFF"), Some(u64::MAX));
    assert_eq!(parse_hex_u64(b"10000000000000000"), None);
    assert_eq!(parse_hex_u64(b"0x10"), None);
    assert_eq!(parse_hex_u64(b"g"), None);
    for n in vec![0u64, 9, 10, 255, 1 << 40, u64::MAX] {
        let mut out = Vec::new();
        push_u64(&mut out, n);
        assert_eq!(out, n.to_string().into_bytes());
        assert_eq!(parse_u64(&out), Some(n));
        let mut out = Vec::new();
        push_hex_u64(&mut out, n);
        assert_eq!(out, format!("{:x}", n).into_bytes());
        assert_eq!(parse_hex_u64(&out), Some(n));
        let mut text = "x".to_string();
        append_hex(&mut text, n);
        assert_eq!(text, format!("x{:x}", n));
    }
    for n in vec![0i64, -1, 1, i64::MIN, i64::MAX, -1234567890] {
        let mut out = Vec::new();
        push_i64(&mut out, n);
        assert_eq!(out, n.to_string().into_bytes());
        assert_eq!(parse_i64(&out), Some(n));
    }
    assert_eq!(trim(b" \t a b \r\n"), b"a b");
    assert_eq!(trim(b"   "), b"");
    assert_eq!(find(b"abc", b'c'), 2);
    assert_eq!(find(b"abc", b'x'), 3);
}
