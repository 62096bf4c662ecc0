//! The course of a session, as the client sees it: the greeting, the
//! initial exchange, the transfer, and the closing `Done`.
//!
//! Frames are read and written by the caller. What a frame means at each
//! point of the session is decided here.

use crate::buffer::contents;
use crate::streaming::channel::{DestFileStateView, SyncStats};
use crate::streaming::generator::{dest_state, Generator, GeneratorConfig};
use crate::streaming::protocol::{
    DecodeError, DestFileEntry, DestFileEntryView, Done, Fatal, FatalView, FrameError, Hello,
    HelloFlags, HelloView, MessageType, FATAL_PROTOCOL, PROTOCOL_VERSION,
};
use crate::streaming::receiver::{
    on_message, Action, ActionView, Receiver, ReceiverConfig, ReceiverError,
};
use crate::streaming::sender::SenderConfig;
use bytes::Bytes;
use vstd::prelude::*;
use vstd::string::StringExecFns;

verus! {

/// The block size of the checksums that a destination sends.
pub const DEFAULT_BLOCK_SIZE: u32 = 4096;

/// Why a session is given up.
#[derive(Debug, Clone)]
pub enum SessionError {
    /// The peer did not greet with `Hello`.
    ExpectedHello(MessageType),
    /// The peer speaks another version of the protocol.
    UnsupportedVersion(u16),
    /// A message that has no place at this point of the session.
    UnexpectedMessage(MessageType),
    /// A payload is not a well-formed message.
    Decode(DecodeError),
    /// The peer gave the session up.
    RemoteFatal(Fatal),
    /// The receiver refused a message.
    Receiver(ReceiverError),
}

/// A `SessionError` as a mathematical value.
pub ghost enum SessionFault {
    ExpectedHello(MessageType),
    UnsupportedVersion(u16),
    UnexpectedMessage(MessageType),
    Decode(DecodeError),
    RemoteFatal(FatalView),
    Receiver(ReceiverError),
}

impl View for SessionError {
    type V = SessionFault;

    open spec fn view(&self) -> SessionFault {
        match *self {
            SessionError::ExpectedHello(t) => SessionFault::ExpectedHello(t),
            SessionError::UnsupportedVersion(v) => SessionFault::UnsupportedVersion(v),
            SessionError::UnexpectedMessage(t) => SessionFault::UnexpectedMessage(t),
            SessionError::Decode(e) => SessionFault::Decode(e),
            SessionError::RemoteFatal(f) => SessionFault::RemoteFatal(f@),
            SessionError::Receiver(e) => SessionFault::Receiver(e),
        }
    }
}

impl SessionFault {
    /// The error in words, as the `Fatal` that reports it carries them.
    pub open spec fn text(self) -> Seq<char> {
        match self {
            SessionFault::ExpectedHello(t) => "Expected HELLO, got "@ + t.name(),
            SessionFault::UnsupportedVersion(_) => "Unsupported protocol version"@,
            SessionFault::UnexpectedMessage(t) => "Unexpected message: "@ + t.name(),
            SessionFault::Decode(e) => "Malformed message: "@ + e.text(),
            SessionFault::RemoteFatal(f) => "Remote fatal error: "@ + f.message,
            SessionFault::Receiver(ReceiverError::Decode(e)) => "Malformed message: "@ + e.text(),
            SessionFault::Receiver(ReceiverError::Path(e)) => "Unsafe path: "@ + e.text(),
            SessionFault::Receiver(ReceiverError::NoPendingFile) => "No pending file for data"@,
        }
    }
}

impl SessionError {
    /// The error in words.
    pub fn describe(&self) -> (r: String)
        ensures
            r@ == self@.text(),
    {
        match self {
            SessionError::ExpectedHello(t) => {
                let mut r = String::from_str("Expected HELLO, got ");
                r.append(t.as_str());
                r
            },
            SessionError::UnsupportedVersion(_) => String::from_str("Unsupported protocol version"),
            SessionError::UnexpectedMessage(t) => {
                let mut r = String::from_str("Unexpected message: ");
                r.append(t.as_str());
                r
            },
            SessionError::Decode(e) => {
                let mut r = String::from_str("Malformed message: ");
                r.append(e.describe().as_str());
                r
            },
            SessionError::RemoteFatal(f) => {
                let mut r = String::from_str("Remote fatal error: ");
                r.append(f.message.as_str());
                r
            },
            SessionError::Receiver(ReceiverError::Decode(e)) => {
                let mut r = String::from_str("Malformed message: ");
                r.append(e.describe().as_str());
                r
            },
            SessionError::Receiver(ReceiverError::Path(e)) => {
                let mut r = String::from_str("Unsafe path: ");
                r.append(e.describe());
                r
            },
            SessionError::Receiver(ReceiverError::NoPendingFile) => String::from_str(
                "No pending file for data",
            ),
        }
    }

    /// The `Fatal` that tells the peer why the session ends.
    pub fn to_fatal(&self) -> (r: Fatal)
        ensures
            r@ == (FatalView { code: FATAL_PROTOCOL, message: self@.text() }),
    {
        Fatal { code: FATAL_PROTOCOL, message: self.describe() }
    }
}

/// The `Fatal` that tells the peer that its frame was refused.
pub fn frame_fatal(e: FrameError) -> (r: Fatal)
    ensures
        r@ == (FatalView { code: FATAL_PROTOCOL, message: e.text() }),
{
    Fatal { code: FATAL_PROTOCOL, message: String::from_str(e.describe()) }
}

/// What the first frame of the peer is taken for: its `Hello`, if it is
/// one, is well-formed, and speaks version 2.
pub open spec fn greeting(t: MessageType, payload: Seq<u8>) -> Result<HelloView, SessionFault> {
    if t != MessageType::Hello {
        Err(SessionFault::ExpectedHello(t))
    } else {
        match HelloView::parse(payload) {
            Err(e) => Err(SessionFault::Decode(e)),
            Ok(hello) => if hello.version != PROTOCOL_VERSION {
                Err(SessionFault::UnsupportedVersion(hello.version))
            } else {
                Ok(hello)
            },
        }
    }
}

/// Reads the peer's greeting.
pub fn expect_hello(t: MessageType, payload: Bytes) -> (r: Result<Hello, SessionError>)
    ensures
        match r {
            Ok(hello) => greeting(t, contents(payload)) == Ok::<_, SessionFault>(hello@),
            Err(e) => greeting(t, contents(payload)) == Err::<HelloView, _>(e@),
        },
{
    match t {
        MessageType::Hello => {},
        _ => {
            return Err(SessionError::ExpectedHello(t));
        },
    }
    match Hello::decode(payload) {
        Err(e) => Err(SessionError::Decode(e)),
        Ok(hello) => if hello.version != PROTOCOL_VERSION {
            Err(SessionError::UnsupportedVersion(hello.version))
        } else {
            Ok(hello)
        },
    }
}

/// How the initial exchange goes on after a frame.
#[derive(Debug, Clone, Copy, PartialEq, Eq, Structural)]
pub enum Exchange {
    /// More entries are to come.
    More,
    /// The destination has sent all it has.
    Complete,
}

/// What a frame of the initial exchange does: an entry is added to the
/// destination index, `DestFileEnd` ends the exchange, `Fatal` ends the
/// session, and nothing else may come.
pub open spec fn exchange(
    index: Map<Seq<char>, DestFileStateView>,
    t: MessageType,
    payload: Seq<u8>,
) -> Result<(Map<Seq<char>, DestFileStateView>, Exchange), SessionFault> {
    match t {
        MessageType::DestFileEntry => match DestFileEntryView::parse(payload) {
            Err(e) => Err(SessionFault::Decode(e)),
            Ok(entry) => Ok((index.insert(entry.path, dest_state(entry)), Exchange::More)),
        },
        MessageType::DestFileEnd => Ok((index, Exchange::Complete)),
        MessageType::Fatal => match FatalView::parse(payload) {
            Err(e) => Err(SessionFault::Decode(e)),
            Ok(fatal) => Err(SessionFault::RemoteFatal(fatal)),
        },
        _ => Err(SessionFault::UnexpectedMessage(t)),
    }
}

/// Deals with one frame of the initial exchange. On failure the generator
/// is left as it was.
pub fn exchange_step(generator: &mut Generator, t: MessageType, payload: Bytes) -> (r: Result<
    Exchange,
    SessionError,
>)
    ensures
        final(generator).seen() == old(generator).seen(),
        final(generator).delete_enabled() == old(generator).delete_enabled(),
        match r {
            Ok(next) => exchange(old(generator).index(), t, contents(payload)) == Ok::<
                _,
                SessionFault,
            >((final(generator).index(), next)),
            Err(e) => exchange(old(generator).index(), t, contents(payload)) matches Err(fault)
                && fault == e@ && final(generator).index() == old(generator).index(),
        },
{
    match t {
        MessageType::DestFileEntry => match DestFileEntry::decode(payload) {
            Err(e) => Err(SessionError::Decode(e)),
            Ok(entry) => {
                generator.add_dest_entry(entry);
                Ok(Exchange::More)
            },
        },
        MessageType::DestFileEnd => Ok(Exchange::Complete),
        MessageType::Fatal => match Fatal::decode(payload) {
            Err(e) => Err(SessionError::Decode(e)),
            Ok(fatal) => Err(SessionError::RemoteFatal(fatal)),
        },
        _ => Err(SessionError::UnexpectedMessage(t)),
    }
}

/// What a frame does to a destination that is receiving.
#[derive(Debug, Clone)]
pub enum Received {
    /// The caller is to take this action and read on.
    Apply(Action),
    /// The peer is done; this is what it says of the transfer.
    Finished(Done),
}

/// A `Received` as a mathematical value.
pub ghost enum ReceivedView {
    Apply(ActionView),
    Finished(Done),
}

impl View for Received {
    type V = ReceivedView;

    open spec fn view(&self) -> ReceivedView {
        match *self {
            Received::Apply(action) => ReceivedView::Apply(action@),
            Received::Finished(done) => ReceivedView::Finished(done),
        }
    }
}

/// Deals with one frame of the transfer on the side of the destination:
/// `Done` ends the transfer; every other frame goes to the receiver.
pub fn receive_step(receiver: &mut Receiver, t: MessageType, payload: Bytes) -> (r: Result<
    Received,
    SessionError,
>)
    ensures
        final(receiver).root() == old(receiver).root(),
        final(receiver).block_size() == old(receiver).block_size(),
        t == MessageType::Done ==> final(receiver)@ == old(receiver)@ && match r {
            Ok(received) => Done::parse(contents(payload)) == Ok::<_, DecodeError>(
                received@->Finished_0,
            ) && received@ is Finished,
            Err(e) => Done::parse(contents(payload)) matches Err(fault) && e@
                == SessionFault::Decode(fault),
        },
        t != MessageType::Done ==> final(receiver)@ == on_message(
            old(receiver)@,
            old(receiver).root(),
            t,
            contents(payload),
        ).state && match r {
            Ok(received) => received@ is Apply && on_message(
                old(receiver)@,
                old(receiver).root(),
                t,
                contents(payload),
            ).result == Ok::<_, ReceiverError>(received@->Apply_0),
            Err(e) => on_message(
                old(receiver)@,
                old(receiver).root(),
                t,
                contents(payload),
            ).result matches Err(fault) && e@ == SessionFault::Receiver(fault),
        },
{
    match t {
        MessageType::Done => match Done::decode(payload) {
            Ok(done) => Ok(Received::Finished(done)),
            Err(e) => Err(SessionError::Decode(e)),
        },
        _ => match receiver.handle_message(t, payload) {
            Ok(action) => Ok(Received::Apply(action)),
            Err(e) => Err(SessionError::Receiver(e)),
        },
    }
}

/// A sync of one root with another, as the client sets it up.
pub struct StreamingSync {
    pub local_root: String,
    pub remote_root: String,
    pub delete_enabled: bool,
    pub compress: bool,
}

impl StreamingSync {
    /// A sync of `local_root` with `remote_root`.
    pub fn new(local_root: String, remote_root: String, delete_enabled: bool, compress: bool) -> (r:
        StreamingSync)
        ensures
            r.local_root == local_root,
            r.remote_root == remote_root,
            r.delete_enabled == delete_enabled,
            r.compress == compress,
    {
        StreamingSync { local_root, remote_root, delete_enabled, compress }
    }

    /// The flags that a pull asks for.
    pub open spec fn pull_flags(&self) -> HelloFlags {
        HelloFlags {
            bits: HelloFlags::PULL | if self.delete_enabled {
                HelloFlags::DELETE
            } else {
                0
            } | if self.compress {
                HelloFlags::COMPRESSION
            } else {
                0
            },
        }
    }

    /// The greeting of a push: no flags, and the remote root.
    pub fn push_hello(&self) -> (r: Hello)
        ensures
            r@ == (HelloView {
                version: PROTOCOL_VERSION,
                flags: HelloFlags { bits: 0 },
                root_path: self.remote_root@,
            }),
    {
        Hello::new(HelloFlags::empty(), self.remote_root.clone())
    }

    /// The greeting of a pull: the `pull` flag, `delete` and `compression`
    /// as the sync is set up, and the remote root.
    pub fn pull_hello(&self) -> (r: Hello)
        ensures
            r@ == (HelloView {
                version: PROTOCOL_VERSION,
                flags: self.pull_flags(),
                root_path: self.remote_root@,
            }),
            self.pull_flags().valid(),
    {
        let mut flags = HelloFlags::pull();
        if self.delete_enabled {
            flags.insert(HelloFlags::delete());
        } else {
            assert(1u32 | 0u32 == 1u32) by (bit_vector);
        }
        let ghost with_delete = flags;
        if self.compress {
            flags.insert(HelloFlags::compression());
        } else {
            proof {
                let b = with_delete.bits;
                assert(b | 0u32 == b) by (bit_vector);
            }
        }
        Hello::new(flags, self.remote_root.clone())
    }

    /// How the generator of a push is set up: over the local root, hidden
    /// files included, symbolic links not followed.
    pub fn generator_config(&self) -> (r: GeneratorConfig)
        ensures
            r.root@ == self.local_root@,
            r.include_hidden,
            !r.follow_symlinks,
            r.delete_enabled == self.delete_enabled,
    {
        GeneratorConfig {
            root: self.local_root.clone(),
            include_hidden: true,
            follow_symlinks: false,
            delete_enabled: self.delete_enabled,
        }
    }

    /// How the sender of a push is set up.
    pub fn sender_config(&self) -> (r: SenderConfig)
        ensures
            r.root@ == self.local_root@,
            r.compress == self.compress,
    {
        SenderConfig { root: self.local_root.clone(), compress: self.compress }
    }

    /// How the receiver of a pull is set up: under the local root, with
    /// blocks of `DEFAULT_BLOCK_SIZE` bytes.
    pub fn receiver_config(&self) -> (r: ReceiverConfig)
        ensures
            r.root@ == self.local_root@,
            r.block_size == DEFAULT_BLOCK_SIZE,
    {
        ReceiverConfig { root: self.local_root.clone(), block_size: DEFAULT_BLOCK_SIZE }
    }

    /// The `Done` by which the client of a push says that it has sent
    /// everything: all counts zero.
    pub fn client_done() -> (r: Done)
        ensures
            r == (Done { files_ok: 0, files_err: 0, bytes: 0, duration_ms: 0 }),
    {
        Done { files_ok: 0, files_err: 0, bytes: 0, duration_ms: 0 }
    }

    /// The counts of a push, from the last frame of the server: those of its
    /// `Done`; and where the frame is not `Done`, the number of files and
    /// bytes that the generator counted.
    pub open spec fn push_result(
        t: MessageType,
        payload: Seq<u8>,
        total_files: u64,
        total_bytes: u64,
    ) -> Result<SyncStats, DecodeError> {
        if t == MessageType::Done {
            match Done::parse(payload) {
                Err(e) => Err(e),
                Ok(done) => Ok(
                    SyncStats {
                        files_ok: done.files_ok,
                        files_err: done.files_err,
                        bytes_transferred: done.bytes,
                        ..SyncStats::zero()
                    },
                ),
            }
        } else {
            Ok(
                SyncStats {
                    files_ok: total_files,
                    bytes_transferred: total_bytes,
                    ..SyncStats::zero()
                },
            )
        }
    }

    /// The counts of a push, from the last frame of the server.
    pub fn push(t: MessageType, payload: Bytes, total_files: u64, total_bytes: u64) -> (r: Result<
        SyncStats,
        DecodeError,
    >)
        ensures
            r == Self::push_result(t, contents(payload), total_files, total_bytes),
    {
        let mut stats = SyncStats::new();
        match t {
            MessageType::Done => {
                let done = match Done::decode(payload) {
                    Ok(done) => done,
                    Err(e) => {
                        return Err(e);
                    },
                };
                stats.files_ok = done.files_ok;
                stats.files_err = done.files_err;
                stats.bytes_transferred = done.bytes;
            },
            _ => {
                stats.files_ok = total_files;
                stats.bytes_transferred = total_bytes;
            },
        }
        Ok(stats)
    }

    /// The counts of a pull: those of the receiver, with the files and the
    /// bytes that the server's `Done` reports.
    pub fn pull(stats: &SyncStats, done: Done) -> (r: SyncStats)
        ensures
            r == (SyncStats {
                files_ok: done.files_ok,
                files_err: done.files_err,
                bytes_transferred: done.bytes,
                ..*stats
            }),
    {
        let mut r = *stats;
        r.files_ok = done.files_ok;
        r.files_err = done.files_err;
        r.bytes_transferred = done.bytes;
        r
    }
}

} // verus!
