use bytes::Bytes;
use sy::server::{
    expand_tilde, expand_tilde_in, pull_done, pull_generator_config,
    pull_sender_config, push_receiver_config, run_server, run_server_pull, run_server_push,
    Greeting, FATAL_PROTOCOL,
};
use sy::streaming::channel::SyncStats;
use sy::streaming::generator::Generator;
use sy::streaming::pipeline::{
    exchange_step, expect_hello, frame_fatal, receive_step, Exchange, Received, SessionError,
    StreamingSync, DEFAULT_BLOCK_SIZE,
};
use sy::streaming::protocol::{
    read_frame, DestFileEnd, DestFileEntry, DestFileFlags, Done, Fatal, Fault, Field, FileEntry,
    FileFlags, FrameError, Hello, HelloFlags, MessageType, Mkdir,
};
use sy::streaming::receiver::{Action, Receiver, ReceiverError};
use sy::sync::server_mode::make_sync_stats;
use sy::transport::server::{ServerSession, SshConfig};

fn sync(delete: bool, compress: bool) -> StreamingSync {
    StreamingSync::new("/local".to_string(), "/remote".to_string(), delete, compress)
}

fn payload(frame: Bytes) -> Bytes {
    frame.slice(5..)
}

#[test]
fn hellos_of_push_and_pull() {
    let hello = sync(true, true).push_hello();
    assert_eq!(hello.version, 2);
    assert!(hello.flags.is_empty());
    assert_eq!(hello.root_path, "/remote");
    assert!(!hello.is_pull());
    let hello = sync(false, false).pull_hello();
    assert_eq!(hello.flags, HelloFlags::pull());
    let hello = sync(true, false).pull_hello();
    assert_eq!(hello.flags.bits(), 3);
    let hello = sync(true, true).pull_hello();
    assert_eq!(hello.flags.bits(), 11);
    let hello = sync(false, true).pull_hello();
    assert_eq!(hello.flags.bits(), 9);
    assert!(hello.is_pull());
}

#[test]
fn configurations_follow_the_sync() {
    let s = sync(true, true);
    let g = s.generator_config();
    assert_eq!(g.root, "/local");
    assert!(g.include_hidden);
    assert!(!g.follow_symlinks);
    assert!(g.delete_enabled);
    let c = s.sender_config();
    assert_eq!(c.root, "/local");
    assert!(c.compress);
    let r = s.receiver_config();
    assert_eq!(r.root, "/local");
    assert_eq!(r.block_size, 4096);
    assert_eq!(DEFAULT_BLOCK_SIZE, 4096);
    assert_eq!(
        StreamingSync::client_done(),
        Done { files_ok: 0, files_err: 0, bytes: 0, duration_ms: 0 }
    );
}

#[test]
fn only_a_hello_of_version_two_is_a_greeting() {
    let hello = Hello::new(HelloFlags::empty(), "".to_string());
    let ok = expect_hello(MessageType::Hello, payload(hello.encode())).unwrap();
    assert_eq!(ok.version, 2);
    assert!(matches!(
        expect_hello(MessageType::Done, Bytes::new()),
        Err(SessionError::ExpectedHello(MessageType::Done))
    ));
    for version in vec![0u16, 1, 3, 99] {
        let old = Hello { version, flags: HelloFlags::empty(), root_path: "".to_string() };
        assert!(matches!(
            expect_hello(MessageType::Hello, payload(old.encode())),
            Err(SessionError::UnsupportedVersion(v)) if v == version
        ));
    }
    match expect_hello(MessageType::Hello, Bytes::new()) {
        Err(SessionError::Decode(e)) => {
            assert_eq!(e.message, MessageType::Hello);
            assert_eq!(e.field, Field::Payload);
            assert_eq!(e.fault, Fault::TooShort);
        }
        other => panic!("unexpected {:?}", other),
    }
}

#[test]
fn initial_exchange_fills_the_index() {
    let mut generator = Generator::new(sync(true, false).generator_config());
    let entry = DestFileEntry {
        path: "x".to_string(),
        size: 1,
        mtime: 2,
        mode: 3,
        flags: DestFileFlags::empty(),
        block_size: 0,
        checksums: vec![],
    };
    let step = exchange_step(&mut generator, MessageType::DestFileEntry, payload(entry.encode()));
    assert!(matches!(step, Ok(Exchange::More)));
    assert_eq!(generator.dest_count(), 1);
    let end = DestFileEnd { total_files: 1, total_bytes: 1 };
    let step = exchange_step(&mut generator, MessageType::DestFileEnd, payload(end.encode()));
    assert!(matches!(step, Ok(Exchange::Complete)));
    let fatal = Fatal { code: 9, message: "disk on fire".to_string() };
    match exchange_step(&mut generator, MessageType::Fatal, payload(fatal.encode())) {
        Err(SessionError::RemoteFatal(f)) => {
            assert_eq!(f.code, 9);
            assert_eq!(f.message, "disk on fire");
        }
        other => panic!("unexpected {:?}", other),
    }
    assert!(matches!(
        exchange_step(&mut generator, MessageType::Data, Bytes::new()),
        Err(SessionError::UnexpectedMessage(MessageType::Data))
    ));
    assert!(matches!(
        exchange_step(&mut generator, MessageType::DestFileEntry, Bytes::new()),
        Err(SessionError::Decode(_))
    ));
    // On the server a Fatal has no place in the exchange.
    assert!(matches!(
        run_server_pull(&mut generator, MessageType::Fatal, payload(fatal.encode())),
        Err(SessionError::UnexpectedMessage(MessageType::Fatal))
    ));
    assert!(matches!(
        run_server_pull(&mut generator, MessageType::DestFileEnd, Bytes::new()),
        Ok(Exchange::Complete)
    ));
    assert_eq!(generator.dest_count(), 1);
}

#[test]
fn outcome_of_a_push() {
    let done = Done { files_ok: 2, files_err: 1, bytes: 10, duration_ms: 99 };
    let stats = StreamingSync::push(MessageType::Done, payload(done.encode()), 7, 8).unwrap();
    assert_eq!(
        stats,
        SyncStats { files_ok: 2, files_err: 1, bytes_transferred: 10, ..SyncStats::new() }
    );
    let stats = StreamingSync::push(MessageType::FileEnd, Bytes::new(), 7, 8).unwrap();
    assert_eq!(stats, SyncStats { files_ok: 7, bytes_transferred: 8, ..SyncStats::new() });
    assert!(StreamingSync::push(MessageType::Done, Bytes::new(), 7, 8).is_err());
}

#[test]
fn a_pull_receives_until_done() {
    let mut receiver = Receiver::new(sync(false, false).receiver_config());
    let mkdir = Mkdir { path: "d".to_string(), mode: 0o755 };
    match receive_step(&mut receiver, MessageType::Mkdir, payload(mkdir.encode())) {
        Ok(Received::Apply(Action::Mkdir { path, .. })) => assert_eq!(path, "/local/d"),
        other => panic!("unexpected {:?}", other),
    }
    let evil = Mkdir { path: "../d".to_string(), mode: 0o755 };
    assert!(matches!(
        receive_step(&mut receiver, MessageType::Mkdir, payload(evil.encode())),
        Err(SessionError::Receiver(ReceiverError::Path(_)))
    ));
    let done = Done { files_ok: 5, files_err: 6, bytes: 7, duration_ms: 8 };
    let finished = match receive_step(&mut receiver, MessageType::Done, payload(done.encode())) {
        Ok(Received::Finished(d)) => d,
        other => panic!("unexpected {:?}", other),
    };
    assert_eq!(finished, done);
    let stats = StreamingSync::pull(receiver.stats(), finished);
    assert_eq!(stats.files_ok, 5);
    assert_eq!(stats.files_err, 6);
    assert_eq!(stats.bytes_transferred, 7);
    assert_eq!(stats.dirs_created, 1);
    assert!(matches!(
        receive_step(&mut receiver, MessageType::Done, Bytes::new()),
        Err(SessionError::Decode(_))
    ));
}

#[test]
fn the_server_answers_the_greeting() {
    let hello = Hello::new(HelloFlags::pull() | HelloFlags::delete(), "/srv".to_string());
    match run_server(MessageType::Hello, payload(hello.encode())).unwrap() {
        Greeting::Serve { hello, reply } => {
            assert!(hello.is_pull());
            assert_eq!(hello.root_path, "/srv");
            assert_eq!(reply.version, 2);
            assert!(reply.flags.is_empty());
            assert_eq!(reply.root_path, "");
            let g = pull_generator_config(&hello, "/srv");
            assert!(g.delete_enabled);
            assert_eq!(g.root, "/srv");
            assert!(g.include_hidden);
            assert!(!g.follow_symlinks);
            assert!(!pull_sender_config(&hello, "/srv").compress);
        }
        other => panic!("unexpected {:?}", other),
    }
    match run_server(MessageType::Data, Bytes::new()).unwrap() {
        Greeting::Refuse(fatal) => {
            assert_eq!(fatal.code, FATAL_PROTOCOL);
            assert_eq!(fatal.message, "Expected HELLO, got Data");
        }
        other => panic!("unexpected {:?}", other),
    }
    let v1 = Hello { version: 1, flags: HelloFlags::empty(), root_path: "".to_string() };
    match run_server(MessageType::Hello, payload(v1.encode())).unwrap() {
        Greeting::Refuse(fatal) => {
            assert_eq!(fatal.code, 1);
            assert_eq!(fatal.message, "Unsupported protocol version");
        }
        other => panic!("unexpected {:?}", other),
    }
    assert!(run_server(MessageType::Hello, Bytes::new()).is_err());
    assert_eq!(MessageType::DestFileEntry.as_str(), "DestFileEntry");
    assert_eq!(push_receiver_config("/srv").block_size, 4096);
    assert_eq!(push_receiver_config("/srv").root, "/srv");
}

#[test]
fn done_of_the_server() {
    assert_eq!(pull_done(3, 30), Done { files_ok: 3, files_err: 0, bytes: 30, duration_ms: 0 });
    let stats = SyncStats { files_ok: 4, files_err: 1, bytes_transferred: 9, ..SyncStats::new() };
    assert_eq!(
        run_server_push(&stats),
        Done { files_ok: 4, files_err: 1, bytes: 9, duration_ms: 0 }
    );
}

#[test]
fn tilde_is_the_home_directory() {
    assert_eq!(expand_tilde_in("~", Some("/home/u")), "/home/u");
    assert_eq!(expand_tilde_in("~", None), ".");
    assert_eq!(expand_tilde_in("~/a/b", Some("/home/u")), "/home/u/a/b");
    assert_eq!(expand_tilde_in("~/a", Some("/home/u/")), "/home/u/a");
    assert_eq!(expand_tilde_in("~/a", Some("")), "a");
    assert_eq!(expand_tilde_in("~/a", None), "~/a");
    assert_eq!(expand_tilde_in("~user/a", Some("/home/u")), "~user/a");
    assert_eq!(expand_tilde_in("/abs/~", Some("/home/u")), "/abs/~");
    assert_eq!(expand_tilde_in("", Some("/home/u")), "");
    assert_eq!(expand_tilde("plain/path"), "plain/path");
}

#[test]
fn report_of_a_sync() {
    let stats = SyncStats {
        files_ok: 3,
        files_err: 1,
        bytes_transferred: 100,
        delta_files: 2,
        delta_bytes_saved: 50,
        dirs_created: 4,
        symlinks_created: 5,
        deleted: 6,
        hardlinks_created: 7,
    };
    let report = make_sync_stats(stats);
    assert_eq!(report.files_scanned, 3);
    assert_eq!(report.files_created, 3);
    assert_eq!(report.files_updated, 0);
    assert_eq!(report.files_deleted, 6);
    assert_eq!(report.bytes_transferred, 100);
    assert_eq!(report.files_delta_synced, 2);
    assert_eq!(report.delta_bytes_saved, 50);
    assert_eq!(report.dirs_created, 4);
    assert_eq!(report.symlinks_created, 5);
    assert_eq!(report.duration_ms, 0);
    assert!(report.errors.is_empty());
}

#[test]
fn command_line_of_the_server() {
    let local = ServerSession::connect_local("/dest");
    assert_eq!(local.program, None);
    assert_eq!(local.args, vec!["--server".to_string(), "/dest".to_string()]);
    let config = SshConfig {
        hostname: "host".to_string(),
        user: "".to_string(),
        port: 22,
        identity_file: vec![],
    };
    let plain = ServerSession::connect_ssh(&config, "/dest");
    assert_eq!(plain.program, Some("ssh".to_string()));
    assert_eq!(plain.args, vec!["host", "--", "sy", "--server", "/dest"]);
    let config = SshConfig {
        hostname: "host".to_string(),
        user: "me".to_string(),
        port: 2222,
        identity_file: vec!["k1".to_string(), "k2".to_string()],
    };
    let full = ServerSession::connect_ssh(&config, "/dest");
    assert_eq!(
        full.args,
        vec![
            "host", "-l", "me", "-p", "2222", "-i", "k1", "-i", "k2", "--", "sy", "--server",
            "/dest"
        ]
    );
}

#[test]
fn path_traversal_ends_the_session_with_a_fatal() {
    let mut receiver = Receiver::new(sync(false, false).receiver_config());
    let evil = FileEntry {
        path: "../evil".to_string(),
        size: 1,
        mtime: 0,
        mode: 0o644,
        inode: 0,
        flags: FileFlags::empty(),
        symlink_target: None,
        link_target: None,
    };
    let error = match receive_step(&mut receiver, MessageType::FileEntry, payload(evil.encode())) {
        Err(e) => e,
        other => panic!("unexpected {:?}", other),
    };
    assert_eq!(error.describe(), "Unsafe path: path traversal not allowed");
    let mut frame = error.to_fatal().encode();
    let (t, body) = read_frame(&mut frame).unwrap();
    assert_eq!(t, MessageType::Fatal);
    let fatal = Fatal::decode(body).unwrap();
    assert_eq!(fatal.code, FATAL_PROTOCOL);
    assert_eq!(fatal.message, "Unsafe path: path traversal not allowed");
    // Nothing became pending and nothing was counted.
    assert_eq!(*receiver.stats(), SyncStats::new());
}

#[test]
fn session_errors_in_words() {
    assert_eq!(
        SessionError::ExpectedHello(MessageType::Done).describe(),
        "Expected HELLO, got Done"
    );
    assert_eq!(SessionError::UnsupportedVersion(1).describe(), "Unsupported protocol version");
    assert_eq!(
        SessionError::UnexpectedMessage(MessageType::Data).describe(),
        "Unexpected message: Data"
    );
    assert_eq!(
        SessionError::Receiver(ReceiverError::NoPendingFile).describe(),
        "No pending file for data"
    );
    let remote = SessionError::RemoteFatal(Fatal { code: 3, message: "boom".to_string() });
    assert_eq!(remote.describe(), "Remote fatal error: boom");
    match expect_hello(MessageType::Hello, Bytes::new()) {
        Err(e) => assert_eq!(e.describe(), "Malformed message: Hello payload too short"),
        other => panic!("unexpected {:?}", other),
    }
    let fatal = frame_fatal(FrameError::TooLarge(1 << 30));
    assert_eq!(fatal.code, 1);
    assert_eq!(fatal.message, "frame exceeds maximum allowed size");
    assert_eq!(FrameError::UnknownType(9).describe(), "unknown message type");
}
