//! The streaming protocol and its three stages: generator, sender, receiver.
//!
//! A session has two phases. In the initial exchange the destination says
//! what it has, with the checksums of its larger files. In the transfer the
//! source sends what differs, in one direction and without waiting for
//! answers.

pub mod channel;
pub mod flags;
pub mod generator;
pub mod paths;
pub mod pipeline;
pub mod protocol;
pub mod receiver;
pub mod sender;

pub use channel::{
    DataChunk, DeltaInfo, DestFileState, DestIndex, FileJob, GeneratorMessage, SyncDirection,
    SyncStats, DATA_CHUNK_SIZE, DELTA_MIN_SIZE, GENERATOR_CHANNEL_SIZE, SENDER_CHANNEL_SIZE,
};
pub use generator::{Generator, GeneratorConfig};
pub use pipeline::StreamingSync;
pub use protocol::{
    is_legacy_protocol, is_streaming_protocol, negotiate_version, read_frame, write_frame,
    BlockChecksum, Data, DataEnd, DataFlags, Delete, DeleteEnd, DestFileEnd, DestFileEntry,
    DestFileFlags, Done, Error, ErrorCode, Fatal, FileEnd, FileEntry, FileFlags, Hello,
    HelloFlags, MessageType, Mkdir, Progress, Symlink, VersionNegotiationResult, Xattr,
    XattrEntry, PROTOCOL_VERSION, PROTOCOL_VERSION_MAX, PROTOCOL_VERSION_MIN,
    PROTOCOL_VERSION_V1,
};
pub use receiver::{Receiver, ReceiverConfig};
pub use sender::{Sender, SenderConfig};
