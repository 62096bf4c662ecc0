use bytes::Bytes;
use std::collections::{BTreeMap, BTreeSet};
use sy::delta::apply::apply_delta;
use sy::server::{pull_done, run_server, run_server_push, Greeting};
use sy::streaming::channel::{GeneratorMessage, SyncStats};
use sy::streaming::generator::{Generator, SourceEntry};
use sy::streaming::pipeline::{
    exchange_step, expect_hello, receive_step, Exchange, Received, StreamingSync,
};
use sy::streaming::protocol::{read_frame, Data, DataFlags, DestFileEntry, Done, MessageType};
use sy::streaming::receiver::{Action, Receiver};
use sy::streaming::sender::Sender;

/// A file system in memory: files by their full path.
struct Tree {
    files: BTreeMap<String, (Vec<u8>, i64)>,
    dirs: BTreeSet<String>,
    temps: BTreeMap<String, Vec<u8>>,
}

impl Tree {
    fn new() -> Tree {
        Tree { files: BTreeMap::new(), dirs: BTreeSet::new(), temps: BTreeMap::new() }
    }

    fn with(mut self, path: &str, content: &[u8], mtime: i64) -> Tree {
        self.files.insert(path.to_string(), (content.to_vec(), mtime));
        self
    }

    fn scan(&self, root: &str) -> Vec<(SourceEntry, Vec<u8>)> {
        let prefix = format!("{}/", root);
        self.files
            .iter()
            .filter(|(path, _)| path.starts_with(&prefix))
            .map(|(path, (content, mtime))| {
                let entry = SourceEntry {
                    relative_path: path[prefix.len()..].to_string(),
                    size: content.len() as u64,
                    mtime: *mtime,
                    is_dir: false,
                    is_symlink: false,
                    symlink_target: None,
                    inode: None,
                    nlink: 1,
                };
                (entry, content.clone())
            })
            .collect()
    }

    fn perform(&mut self, action: Action) {
        match action {
            Action::Nothing => {}
            Action::OpenTemp { temp_path, .. } => {
                self.temps.insert(temp_path, Vec::new());
            }
            Action::WriteAt { temp_path, offset, data } => {
                let temp = self.temps.get_mut(&temp_path).unwrap();
                let end = offset as usize + data.len();
                if temp.len() < end {
                    temp.resize(end, 0);
                }
                temp[offset as usize..end].copy_from_slice(&data);
            }
            Action::ApplyDelta { original, temp_path, data } => {
                let original = self.files.get(&original).unwrap().0.clone();
                let temp = self.temps.get_mut(&temp_path).unwrap();
                apply_delta(&original, &data, temp).unwrap();
            }
            Action::Commit { temp_path, path, mtime, .. } => {
                let content = self.temps.remove(&temp_path).unwrap();
                self.files.insert(path, (content, mtime));
            }
            Action::Discard { temp_path } => {
                self.temps.remove(&temp_path);
            }
            Action::Mkdir { path, .. } => {
                self.dirs.insert(path);
            }
            Action::Symlink { .. } => {}
            Action::Delete { path, .. } => {
                self.files.remove(&path);
                self.dirs.remove(&path);
            }
        }
    }
}

struct Outcome {
    stats: SyncStats,
    frames: Vec<(MessageType, Bytes)>,
}

/// Runs a push from `/src` to `/dst` within `tree`, each frame going
/// through its encoder and its decoder.
fn push(tree: &mut Tree, delete: bool) -> Outcome {
    let sync = StreamingSync::new("/src".to_string(), "/dst".to_string(), delete, false);

    // Greeting.
    let mut wire = sync.push_hello().encode();
    let (t, payload) = read_frame(&mut wire).unwrap();
    let reply = match run_server(t, payload).unwrap() {
        Greeting::Serve { hello, reply } => {
            assert!(!hello.is_pull());
            reply
        }
        Greeting::Refuse(fatal) => panic!("refused: {}", fatal.message),
    };
    let mut wire = reply.encode();
    let (t, payload) = read_frame(&mut wire).unwrap();
    expect_hello(t, payload).unwrap();

    // Initial exchange.
    let mut receiver = Receiver::new(sy::server::push_receiver_config("/dst"));
    let mut entries: Vec<DestFileEntry> = Vec::new();
    for (entry, content) in tree.scan("/dst") {
        let checksums = if Receiver::needs_checksums(&entry) {
            receiver.compute_checksums(&content)
        } else {
            Vec::new()
        };
        entries.push(receiver.dest_entry(&entry, checksums));
    }
    let announced = receiver.scan_dest(&entries);
    let mut generator = Generator::new(sync.generator_config());
    let mut complete = false;
    for buffer in announced.buffers {
        let mut stream = buffer;
        while !stream.is_empty() {
            let (t, payload) = read_frame(&mut stream).unwrap();
            match exchange_step(&mut generator, t, payload).unwrap() {
                Exchange::More => {}
                Exchange::Complete => complete = true,
            }
        }
    }
    assert!(complete);

    // Transfer.
    let source = tree.scan("/src");
    let listing: Vec<SourceEntry> = source.iter().map(|(e, _)| e.clone()).collect();
    let plan = generator.run(&listing);
    let sender = Sender::new(sync.sender_config());
    let mut frames = Vec::new();
    for message in &plan.messages {
        let content: &[u8] = match message {
            GeneratorMessage::File(job) => {
                &source.iter().find(|(e, _)| e.relative_path == job.path).unwrap().1
            }
            _ => &[],
        };
        for frame in sender.run(message, content) {
            let mut stream = frame;
            frames.push(read_frame(&mut stream).unwrap());
        }
    }
    let mut last = StreamingSync::client_done().encode();
    frames.push(read_frame(&mut last).unwrap());

    let mut finished = false;
    for (t, payload) in frames.clone() {
        match receive_step(&mut receiver, t, payload).unwrap() {
            Received::Apply(action) => tree.perform(action),
            Received::Finished(_) => finished = true,
        }
    }
    assert!(finished);
    assert!(tree.temps.is_empty());

    // Closing.
    let mut wire = run_server_push(receiver.stats()).encode();
    let (t, payload) = read_frame(&mut wire).unwrap();
    let stats = StreamingSync::push(t, payload, plan.total_files, plan.total_bytes).unwrap();
    Outcome { stats, frames }
}

fn count(outcome: &Outcome, t: MessageType) -> usize {
    outcome.frames.iter().filter(|(kind, _)| *kind == t).count()
}

#[test]
fn empty_source_and_empty_destination() {
    let mut tree = Tree::new();
    let outcome = push(&mut tree, false);
    assert_eq!(outcome.stats.files_ok, 0);
    assert_eq!(outcome.stats.files_err, 0);
    assert_eq!(outcome.stats.bytes_transferred, 0);
    assert!(tree.files.is_empty());
}

#[test]
fn two_files_to_a_fresh_destination() {
    let mut tree = Tree::new().with("/src/a.txt", b"hello", 1).with("/src/b.txt", b"world", 2);
    let outcome = push(&mut tree, false);
    assert_eq!(count(&outcome, MessageType::FileEntry), 2);
    assert_eq!(count(&outcome, MessageType::Data), 2);
    assert_eq!(count(&outcome, MessageType::DataEnd), 2);
    assert_eq!(outcome.stats.files_ok, 2);
    assert_eq!(outcome.stats.bytes_transferred, 10);
    assert_eq!(tree.files["/dst/a.txt"], (b"hello".to_vec(), 1));
    assert_eq!(tree.files["/dst/b.txt"], (b"world".to_vec(), 2));
}

#[test]
fn one_unchanged_file() {
    let content = vec![7u8; 100];
    let mut tree = Tree::new().with("/src/a.txt", &content, 1000).with("/dst/a.txt", &content, 1000);
    let outcome = push(&mut tree, false);
    assert_eq!(count(&outcome, MessageType::FileEntry), 0);
    assert_eq!(outcome.stats.files_ok, 0);
}

#[test]
fn stale_file_is_deleted() {
    let mut tree = Tree::new().with("/dst/stale.txt", b"old", 5);
    let outcome = push(&mut tree, true);
    assert_eq!(count(&outcome, MessageType::Delete), 1);
    assert_eq!(count(&outcome, MessageType::DeleteEnd), 1);
    let (_, payload) = outcome.frames.iter().find(|(t, _)| *t == MessageType::Delete).unwrap();
    let delete = sy::streaming::protocol::Delete::decode(payload.clone()).unwrap();
    assert_eq!(delete.path, "stale.txt");
    assert!(!delete.is_dir);
    let (_, payload) = outcome.frames.iter().find(|(t, _)| *t == MessageType::DeleteEnd).unwrap();
    assert_eq!(sy::streaming::protocol::DeleteEnd::decode(payload.clone()).unwrap().count, 1);
    assert!(tree.files.is_empty());
}

#[test]
fn stale_file_stays_without_delete() {
    let mut tree = Tree::new().with("/dst/stale.txt", b"old", 5);
    let outcome = push(&mut tree, false);
    assert_eq!(count(&outcome, MessageType::Delete), 0);
    assert_eq!(tree.files.len(), 1);
}

#[test]
fn large_file_with_one_changed_block_goes_as_delta() {
    let mut dest = Vec::new();
    for i in 0..(256 * 1024u32) {
        dest.push((i.wrapping_mul(2654435761) >> 11) as u8);
    }
    let mut source = dest.clone();
    for byte in &mut source[126 * 1024..130 * 1024] {
        *byte = !*byte;
    }
    let mut tree = Tree::new().with("/src/big.bin", &source, 20).with("/dst/big.bin", &dest, 10);
    let outcome = push(&mut tree, false);
    let mut sent = 0;
    for (t, payload) in &outcome.frames {
        if *t == MessageType::Data {
            let data = Data::decode(payload.clone()).unwrap();
            assert!(data.flags.contains(DataFlags::delta()));
            assert_eq!(data.offset, 0);
            sent += data.data.len();
        }
    }
    assert!(sent > 4096 && sent < 3 * 4096);
    assert_eq!(outcome.stats.files_ok, 1);
    assert_eq!(tree.files["/dst/big.bin"], (source, 20));
}

#[test]
fn changed_small_file_is_sent_whole() {
    let mut tree = Tree::new().with("/src/a", b"new content", 2).with("/dst/a", b"old", 1);
    let outcome = push(&mut tree, false);
    let (_, payload) = outcome.frames.iter().find(|(t, _)| *t == MessageType::Data).unwrap();
    let data = Data::decode(payload.clone()).unwrap();
    assert!(data.flags.is_empty());
    assert_eq!(tree.files["/dst/a"], (b"new content".to_vec(), 2));
}

#[test]
fn done_of_a_pull() {
    assert_eq!(pull_done(2, 10), Done { files_ok: 2, files_err: 0, bytes: 10, duration_ms: 0 });
}

#[test]
fn unreadable_file_leaves_nothing_behind() {
    let mut tree = Tree::new();
    let mut receiver = Receiver::new(sy::server::push_receiver_config("/dst"));
    let sender = Sender::new(sy::streaming::sender::SenderConfig {
        root: "/src".to_string(),
        compress: false,
    });
    let job = sy::streaming::channel::FileJob {
        path: "dir/broken".to_string(),
        size: 9,
        mtime: 1,
        mode: 0o600,
        inode: 0,
        need_delta: false,
        checksums: None,
    };
    let mut opened = false;
    for frame in sender.abandon_file(&job) {
        let mut stream = frame;
        let (t, payload) = read_frame(&mut stream).unwrap();
        match receive_step(&mut receiver, t, payload).unwrap() {
            Received::Apply(action) => {
                opened = opened || matches!(action, Action::OpenTemp { .. });
                tree.perform(action);
            }
            Received::Finished(_) => panic!("not yet"),
        }
    }
    assert!(opened);
    assert!(tree.temps.is_empty());
    assert!(tree.files.is_empty());
    assert_eq!(receiver.stats().files_err, 1);
    assert_eq!(receiver.stats().files_ok, 0);
}
