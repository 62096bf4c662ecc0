//! The course of a session, as the server sees it: it answers the client's
//! greeting, and then is the source of a pull or the destination of a push.

use crate::buffer::contents;
use crate::streaming::channel::SyncStats;
use crate::streaming::generator::{Generator, GeneratorConfig};
use crate::streaming::pipeline::{
    exchange, exchange_step, greeting, Exchange, SessionError, SessionFault, DEFAULT_BLOCK_SIZE,
};
pub use crate::streaming::protocol::FATAL_PROTOCOL;
use crate::streaming::protocol::{
    DecodeError, Done, Fatal, FatalView, Hello, HelloFlags, HelloView, MessageType,
    PROTOCOL_VERSION,
};
use crate::streaming::receiver::ReceiverConfig;
use crate::streaming::sender::SenderConfig;
use bytes::Bytes;
use vstd::prelude::*;
use vstd::string::{StrSliceExecFns, StringExecFns};

verus! {

/// A relative path joined to a base, as text: the base, a separator
/// unless the base is empty or ends with one, and the path.
pub open spec fn join_text(base: Seq<char>, relative: Seq<char>) -> Seq<char> {
    if base.len() == 0 || base.last() == '/' {
        base + relative
    } else {
        base + seq!['/'] + relative
    }
}

/// A path with a tilde in front put under `home`: `~` is the home
/// directory itself, or `.` where there is none; `~/rest` is `rest` under
/// the home directory, or stays as it is where there is none; every other
/// path stays as it is.
pub open spec fn expanded(path: Seq<char>, home: Option<Seq<char>>) -> Seq<char> {
    if path == seq!['~'] {
        match home {
            Some(home) => home,
            None => seq!['.'],
        }
    } else if path.len() >= 2 && path[0] == '~' && path[1] == '/' {
        match home {
            Some(home) => join_text(home, path.skip(2)),
            None => path,
        }
    } else {
        path
    }
}

/// The text of an optional string slice.
pub open spec fn home_text(home: Option<&str>) -> Option<Seq<char>> {
    match home {
        Some(home) => Some(home@),
        None => None,
    }
}

/// The home directory of the user, as the `dirs` crate finds it from the
/// environment: `dirs::home_dir`. Nothing is promised of it; a home
/// directory that is not UTF-8 counts as none.
#[verifier::external_body]
fn home_dir() -> (home: Option<String>) {
    match dirs::home_dir() {
        Some(path) => path.into_os_string().into_string().ok(),
        None => None,
    }
}

/// Puts a path with a tilde in front under `home`.
pub fn expand_tilde_in(path: &str, home: Option<&str>) -> (r: String)
    ensures
        r@ == expanded(path@, home_text(home)),
{
    let len = path.unicode_len();
    if len == 1 && path.get_char(0) == '~' {
        assert(path@ =~= seq!['~']);
        match home {
            Some(home) => String::from_str(home),
            None => {
                proof {
                    reveal_strlit(".");
                    assert("."@ =~= seq!['.']);
                }
                String::from_str(".")
            },
        }
    } else if len >= 2 && path.get_char(0) == '~' && path.get_char(1) == '/' {
        match home {
            Some(home) => {
                let rest = path.substring_char(2, len);
                assert(rest@ =~= path@.skip(2));
                let mut r = String::from_str(home);
                let n = home.unicode_len();
                if n > 0 && home.get_char(n - 1) != '/' {
                    proof {
                        reveal_strlit("/");
                        assert("/"@ =~= seq!['/']);
                    }
                    r.append("/");
                }
                r.append(rest);
                r
            },
            None => String::from_str(path),
        }
    } else {
        proof {
            if path@ == seq!['~'] {
                assert(path@.len() == 1 && path@[0] == '~');
            }
        }
        String::from_str(path)
    }
}

/// Puts a path with a tilde in front under the user's home directory. A
/// path without a tilde in front stays as it is.
pub fn expand_tilde(path: &str) -> (r: String)
    ensures
        exists|home: Option<Seq<char>>| r@ == #[trigger] expanded(path@, home),
{
    let home = home_dir();
    let r = match &home {
        Some(home) => expand_tilde_in(path, Some(home.as_str())),
        None => expand_tilde_in(path, None),
    };
    proof {
        let witness = match home {
            Some(home) => Some(home@),
            None => None,
        };
        assert(r@ == expanded(path@, witness));
    }
    r
}

/// What the server makes of the client's first frame.
#[derive(Debug, Clone)]
pub enum Greeting {
    /// The session is refused: this `Fatal` is sent, and the session ends.
    Refuse(Fatal),
    /// The session is served: `reply` is sent, and the server becomes the
    /// source, if the client pulls, or the destination.
    Serve { hello: Hello, reply: Hello },
}

/// A `Greeting` as a mathematical value.
pub ghost enum GreetingView {
    Refuse(FatalView),
    Serve { hello: HelloView, reply: HelloView },
}

impl View for Greeting {
    type V = GreetingView;

    open spec fn view(&self) -> GreetingView {
        match *self {
            Greeting::Refuse(fatal) => GreetingView::Refuse(fatal@),
            Greeting::Serve { hello, reply } => GreetingView::Serve {
                hello: hello@,
                reply: reply@,
            },
        }
    }
}

/// What the server makes of the client's first frame: a frame that is no
/// `Hello` and a `Hello` of another version are answered with `Fatal`; a
/// `Hello` that cannot be read ends the session unanswered; every other
/// `Hello` is answered with a `Hello` without flags and without a path.
pub open spec fn greet(t: MessageType, payload: Seq<u8>) -> Result<GreetingView, DecodeError> {
    if t != MessageType::Hello {
        Ok(
            GreetingView::Refuse(
                FatalView {
                    code: FATAL_PROTOCOL,
                    message: "Expected HELLO, got "@ + t.name(),
                },
            ),
        )
    } else {
        match HelloView::parse(payload) {
            Err(e) => Err(e),
            Ok(hello) => if hello.version != PROTOCOL_VERSION {
                Ok(
                    GreetingView::Refuse(
                        FatalView {
                            code: FATAL_PROTOCOL,
                            message: "Unsupported protocol version"@,
                        },
                    ),
                )
            } else {
                Ok(
                    GreetingView::Serve {
                        hello,
                        reply: HelloView {
                            version: PROTOCOL_VERSION,
                            flags: HelloFlags { bits: 0 },
                            root_path: Seq::empty(),
                        },
                    },
                )
            },
        }
    }
}

/// Answers the client's first frame.
pub fn run_server(t: MessageType, payload: Bytes) -> (r: Result<Greeting, DecodeError>)
    ensures
        match r {
            Ok(g) => greet(t, contents(payload)) == Ok::<_, DecodeError>(g@),
            Err(e) => greet(t, contents(payload)) == Err::<GreetingView, _>(e),
        },
{
    match t {
        MessageType::Hello => {},
        _ => {
            let mut message = String::from_str("Expected HELLO, got ");
            message.append(t.as_str());
            return Ok(Greeting::Refuse(Fatal { code: FATAL_PROTOCOL, message }));
        },
    }
    let hello = match Hello::decode(payload) {
        Ok(hello) => hello,
        Err(e) => {
            return Err(e);
        },
    };
    if hello.version != PROTOCOL_VERSION {
        let message = String::from_str("Unsupported protocol version");
        return Ok(Greeting::Refuse(Fatal { code: FATAL_PROTOCOL, message }));
    }
    let reply = Hello::new(HelloFlags::empty(), String::new());
    Ok(Greeting::Serve { hello, reply })
}

/// How the server of a pull sets up its generator: over its root, hidden
/// files included, symbolic links not followed, and with deletions if the
/// client asks for them.
pub fn pull_generator_config(hello: &Hello, root: &str) -> (r: GeneratorConfig)
    ensures
        r.root@ == root@,
        r.include_hidden,
        !r.follow_symlinks,
        r.delete_enabled == hello.flags.has(HelloFlags { bits: HelloFlags::DELETE }),
{
    GeneratorConfig {
        root: String::from_str(root),
        include_hidden: true,
        follow_symlinks: false,
        delete_enabled: hello.flags.contains(HelloFlags::delete()),
    }
}

/// How the server of a pull sets up its sender: data is marked as
/// compressed if the client asks for compression.
pub fn pull_sender_config(hello: &Hello, root: &str) -> (r: SenderConfig)
    ensures
        r.root@ == root@,
        r.compress == hello.flags.has(HelloFlags { bits: HelloFlags::COMPRESSION }),
{
    SenderConfig {
        root: String::from_str(root),
        compress: hello.flags.contains(HelloFlags::compression()),
    }
}

/// How the server of a push sets up its receiver: under its root, with
/// blocks of `DEFAULT_BLOCK_SIZE` bytes.
pub fn push_receiver_config(root: &str) -> (r: ReceiverConfig)
    ensures
        r.root@ == root@,
        r.block_size == DEFAULT_BLOCK_SIZE,
{
    ReceiverConfig { root: String::from_str(root), block_size: DEFAULT_BLOCK_SIZE }
}

/// Deals with one frame of the initial exchange of a pull, where the
/// server is the source: as the client of a push does, but that a `Fatal`
/// has no place here.
pub fn run_server_pull(generator: &mut Generator, t: MessageType, payload: Bytes) -> (r: Result<
    Exchange,
    SessionError,
>)
    ensures
        final(generator).seen() == old(generator).seen(),
        final(generator).delete_enabled() == old(generator).delete_enabled(),
        t == MessageType::Fatal ==> (r matches Err(e) && e@ == SessionFault::UnexpectedMessage(t)
            && final(generator).index() == old(generator).index()),
        t != MessageType::Fatal ==> match r {
            Ok(next) => exchange(old(generator).index(), t, contents(payload)) == Ok::<
                _,
                SessionFault,
            >((final(generator).index(), next)),
            Err(e) => exchange(old(generator).index(), t, contents(payload)) matches Err(fault)
                && fault == e@ && final(generator).index() == old(generator).index(),
        },
{
    match t {
        MessageType::Fatal => Err(SessionError::UnexpectedMessage(t)),
        _ => exchange_step(generator, t, payload),
    }
}

/// The `Done` that closes a pull: the files and the bytes that the
/// generator counted.
pub fn pull_done(total_files: u64, total_bytes: u64) -> (r: Done)
    ensures
        r == (Done { files_ok: total_files, files_err: 0, bytes: total_bytes, duration_ms: 0 }),
{
    Done { files_ok: total_files, files_err: 0, bytes: total_bytes, duration_ms: 0 }
}

/// The `Done` that closes a push: the counts of the receiver.
pub fn run_server_push(stats: &SyncStats) -> (r: Done)
    ensures
        r == (Done {
            files_ok: stats.files_ok,
            files_err: stats.files_err,
            bytes: stats.bytes_transferred,
            duration_ms: 0,
        }),
{
    Done {
        files_ok: stats.files_ok,
        files_err: stats.files_err,
        bytes: stats.bytes_transferred,
        duration_ms: 0,
    }
}

} // verus!
