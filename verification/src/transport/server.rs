//! The peer is a process whose standard input and output are the two
//! directions of the channel: `sy --server <path>`, run by `ssh` on the
//! remote host, or run here. This module says how that process is to be
//! called; starting it is left to the caller.

use vstd::prelude::*;
use vstd::string::{to_string_from_display_ensures, StringExecFns};

verus! {

/// The port that `ssh` uses unless told otherwise.
pub const DEFAULT_SSH_PORT: u16 = 22;

/// How a remote host is reached.
#[derive(Debug, Clone)]
pub struct SshConfig {
    pub hostname: String,
    /// The user to log in as; empty for the default.
    pub user: String,
    pub port: u16,
    /// The key files to offer.
    pub identity_file: Vec<String>,
}

/// The texts of a list of arguments.
pub open spec fn arg_views(args: Seq<String>) -> Seq<Seq<char>> {
    args.map_values(|a: String| a@)
}

/// The arguments that offer the key files: `-i` in front of each.
pub open spec fn identity_args(keys: Seq<String>) -> Seq<Seq<char>>
    decreases keys.len(),
{
    if keys.len() == 0 {
        Seq::empty()
    } else {
        identity_args(keys.drop_last()) + seq!["-i"@, keys.last()@]
    }
}

/// The arguments of the server itself: `--server` and the root.
pub open spec fn server_args(path: Seq<char>) -> Seq<Seq<char>> {
    seq!["--server"@, path]
}

/// The arguments of `ssh` for a server on a remote host: the host; the
/// user, unless it is empty; the port, unless it is the default; the key
/// files; and, behind `--`, the command `sy --server <path>`.
pub open spec fn ssh_args(config: SshConfig, path: Seq<char>, port: Seq<char>) -> Seq<Seq<char>> {
    seq![config.hostname@] + if config.user@.len() > 0 {
        seq!["-l"@, config.user@]
    } else {
        Seq::empty()
    } + if config.port != DEFAULT_SSH_PORT {
        seq!["-p"@, port]
    } else {
        Seq::empty()
    } + identity_args(config.identity_file@) + seq!["--"@, "sy"@] + server_args(path)
}

/// A server that is to be started: the program to run, and its arguments.
#[derive(Debug, Clone)]
pub struct ServerSession {
    /// The program; `None` stands for this very program.
    pub program: Option<String>,
    pub args: Vec<String>,
}

impl ServerSession {
    /// A server on this machine: this program, run with `--server` and the
    /// root.
    pub fn connect_local(remote_path: &str) -> (session: ServerSession)
        ensures
            session.program is None,
            arg_views(session.args@) == server_args(remote_path@),
    {
        let mut args: Vec<String> = Vec::new();
        args.push(String::from_str("--server"));
        args.push(String::from_str(remote_path));
        assert(arg_views(args@) =~= server_args(remote_path@));
        ServerSession { program: None, args }
    }

    /// A server on a remote host: `ssh`, run with the arguments of
    /// `ssh_args`. The port is written as `to_string` writes it.
    pub fn connect_ssh(config: &SshConfig, remote_path: &str) -> (session: ServerSession)
        ensures
            session.program matches Some(program) && program@ == "ssh"@,
            exists|port: String|
                to_string_from_display_ensures::<u16>(&config.port, port) && #[trigger] ssh_args(
                    *config,
                    remote_path@,
                    port@,
                ) == arg_views(session.args@),
    {
        let args = ssh_arguments(config, remote_path);
        ServerSession { program: Some(String::from_str("ssh")), args }
    }
}

/// The arguments of `ssh` for a server on a remote host.
fn ssh_arguments(config: &SshConfig, remote_path: &str) -> (args: Vec<String>)
    ensures
        exists|port: String|
            to_string_from_display_ensures::<u16>(&config.port, port) && #[trigger] ssh_args(
                *config,
                remote_path@,
                port@,
            ) == arg_views(args@),
{
    let mut args: Vec<String> = Vec::new();
    args.push(config.hostname.clone());
    if config.user.as_str().unicode_len() > 0 {
        args.push(String::from_str("-l"));
        args.push(config.user.clone());
    }
    let port = config.port.to_string();
    if config.port != DEFAULT_SSH_PORT {
        args.push(String::from_str("-p"));
        args.push(port.clone());
    }
    let ghost head = arg_views(args@);
    proof {
        assert(head =~= seq![config.hostname@] + if config.user@.len() > 0 {
            seq!["-l"@, config.user@]
        } else {
            Seq::<Seq<char>>::empty()
        } + if config.port != DEFAULT_SSH_PORT {
            seq!["-p"@, port@]
        } else {
            Seq::<Seq<char>>::empty()
        });
        assert(config.identity_file@.take(0) =~= Seq::<String>::empty());
        assert(head + identity_args(config.identity_file@.take(0)) =~= head);
    }
    let mut i: usize = 0;
    while i < config.identity_file.len()
        invariant
            i <= config.identity_file.len(),
            arg_views(args@) == head + identity_args(config.identity_file@.take(i as int)),
        decreases config.identity_file.len() - i,
    {
        let ghost before = arg_views(args@);
        args.push(String::from_str("-i"));
        args.push(config.identity_file[i].clone());
        proof {
            let keys = config.identity_file@.take(i + 1);
            assert(keys.drop_last() =~= config.identity_file@.take(i as int));
            assert(arg_views(args@) =~= before + seq!["-i"@, keys.last()@]);
            assert(arg_views(args@) =~= head + identity_args(keys));
        }
        i = i + 1;
    }
    let ghost with_keys = arg_views(args@);
    assert(config.identity_file@.take(i as int) =~= config.identity_file@);
    args.push(String::from_str("--"));
    args.push(String::from_str("sy"));
    args.push(String::from_str("--server"));
    args.push(String::from_str(remote_path));
    assert(arg_views(args@) =~= with_keys + seq!["--"@, "sy"@] + server_args(remote_path@));
    assert(ssh_args(*config, remote_path@, port@) == arg_views(args@));
    args
}

} // verus!
