//! Running tunnels: what is run for one, and how it is doing.

use vstd::prelude::*;
use crate::browser::opt_string;
use crate::number::{self, decimal};
use crate::path::opt_text;
use crate::split::{self, words};
use crate::text::{self, cat, cat3, cat5, texts};
use crate::types::{ForwardType, Tunnel};

verus! {

/// What a relay has carried.
#[derive(Debug, Clone, Copy, PartialEq, Eq, Structural)]
pub struct Counters {
    /// Bytes sent from local clients into the tunnel.
    pub tx: u64,
    /// Bytes received from the tunnel back to local clients.
    pub rx: u64,
    pub active_conns: u64,
    pub total_conns: u64,
}

impl Default for Counters {
    fn default() -> (r: Self)
        ensures
            r.tx == 0 && r.rx == 0 && r.active_conns == 0 && r.total_conns == 0,
    {
        Counters { tx: 0, rx: 0, active_conns: 0, total_conns: 0 }
    }
}

#[derive(Debug, Clone, Copy, PartialEq, Eq, Structural)]
pub enum Status {
    Connecting,
    Up,
    Failed,
}

impl Status {
    pub open spec fn label_spec(self) -> Seq<char> {
        match self {
            Status::Connecting => "connecting"@,
            Status::Up => "up"@,
            Status::Failed => "failed"@,
        }
    }

    pub fn label(self) -> (r: &'static str)
        ensures
            r@ == self.label_spec(),
    {
        match self {
            Status::Connecting => "connecting",
            Status::Up => "up",
            Status::Failed => "failed",
        }
    }
}

/// The options every tunnel is run with.
pub open spec fn fixed_args() -> Seq<Seq<char>> {
    seq![
        "ssh"@,
        "-N"@,
        "-o"@,
        "BatchMode=yes"@,
        "-o"@,
        "ExitOnForwardFailure=yes"@,
        "-o"@,
        "ConnectTimeout=10"@,
        "-o"@,
        "ServerAliveInterval=10"@,
        "-o"@,
        "ServerAliveCountMax=3"@,
    ]
}

/// The flag and the argument that say what is forwarded.
pub open spec fn forward_args(t: Tunnel, internal: Option<u16>) -> Seq<Seq<char>> {
    let port = match internal {
        Some(p) => decimal(p as nat),
        None => "<port>"@,
    };
    match t.forward {
        ForwardType::Local => seq![
            "-L"@,
            "127.0.0.1:"@ + port + ":"@ + t.remote_host@ + ":"@ + decimal(t.remote_port as nat),
        ],
        ForwardType::Dynamic => seq!["-D"@, "127.0.0.1:"@ + port],
        ForwardType::Remote => seq![
            "-R"@,
            decimal(t.remote_port as nat) + ":"@ + t.dest_host_spec() + ":"@ + decimal(
                t.local_port as nat,
            ),
        ],
    }
}

/// The whole command line of a tunnel, program first.
pub open spec fn args_of(t: Tunnel, internal: Option<u16>) -> Seq<Seq<char>> {
    (fixed_args() + forward_args(t, internal) + words(t.extra_args@)).push(t.ssh_host@)
}

/// The ssh arguments for a tunnel, in the order they are passed.
///
/// `internal` is the loopback port ssh binds for -L/-D, which is chosen when the
/// tunnel starts; `None` renders it as a placeholder, for the command line the
/// report shows for a tunnel that is not running.
pub fn build_args(tunnel: &Tunnel, internal: Option<u16>) -> (r: Vec<String>)
    ensures
        texts(r@) == args_of(*tunnel, internal),
{
    let mut args = text::no_texts();
    text::add_str(&mut args, "ssh");
    text::add_str(&mut args, "-N");
    text::add_str(&mut args, "-o");
    text::add_str(&mut args, "BatchMode=yes");
    text::add_str(&mut args, "-o");
    text::add_str(&mut args, "ExitOnForwardFailure=yes");
    text::add_str(&mut args, "-o");
    text::add_str(&mut args, "ConnectTimeout=10");
    text::add_str(&mut args, "-o");
    text::add_str(&mut args, "ServerAliveInterval=10");
    text::add_str(&mut args, "-o");
    text::add_str(&mut args, "ServerAliveCountMax=3");
    assert(texts(args@) =~= fixed_args());
    let port = match internal {
        Some(p) => number::write(p as u64),
        None => "<port>".to_owned(),
    };
    match tunnel.forward {
        ForwardType::Local => {
            let mut s = cat5("127.0.0.1:", port.as_str(), ":", tunnel.remote_host.as_str(), ":");
            s.push_str(number::write(tunnel.remote_port as u64).as_str());
            text::add_str(&mut args, "-L");
            text::add_text(&mut args, s);
        },
        ForwardType::Dynamic => {
            text::add_str(&mut args, "-D");
            text::add_text(&mut args, cat("127.0.0.1:", port.as_str()));
        },
        ForwardType::Remote => {
            text::add_str(&mut args, "-R");
            text::add_text(
                &mut args,
                cat5(
                    number::write(tunnel.remote_port as u64).as_str(),
                    ":",
                    tunnel.dest_host(),
                    ":",
                    number::write(tunnel.local_port as u64).as_str(),
                ),
            );
        },
    }
    assert(texts(args@) =~= fixed_args() + forward_args(*tunnel, internal));
    let extra = split::split_words(tunnel.extra_args.as_str());
    text::add_all(&mut args, &extra);
    text::add_text(&mut args, tunnel.ssh_host.clone());
    args
}

/// What a look at a tunnel's ssh found.
#[derive(Debug)]
pub enum Seen {
    /// It has exited; how, in words.
    Exited(String),
    /// It is running. `answers` is whether its internal port takes connections,
    /// for a tunnel that has one; `age` is how long it has been up, in
    /// milliseconds.
    Alive { answers: Option<bool>, age: u64 },
    /// It could not be looked at.
    Unknown(String),
}

/// How a tunnel is doing after a look at it, and what went wrong if something
/// did. `last_line` is the last thing its ssh said.
pub open spec fn after_look(
    status: Status,
    error: Option<Seq<char>>,
    seen: Seen,
    last_line: Option<Seq<char>>,
) -> (Status, Option<Seq<char>>) {
    if status == Status::Failed {
        (status, error)
    } else {
        match seen {
            Seen::Exited(how) => (
                Status::Failed,
                Some(
                    match last_line {
                        Some(l) => l,
                        None => "ssh exited ("@ + how@ + ")"@,
                    },
                ),
            ),
            // ssh binds the internal port only after auth succeeds. A remote
            // forward has no local socket to probe; ExitOnForwardFailure kills
            // ssh on failure, so "still alive after a grace period" means up.
            Seen::Alive { answers, age } => (
                if status == Status::Connecting && (answers == Some(true) || (answers is None && age
                    > 3000)) {
                    Status::Up
                } else {
                    status
                },
                error,
            ),
            Seen::Unknown(why) => (Status::Failed, Some("wait failed: "@ + why@)),
        }
    }
}

/// Detect ssh exit and readiness.
pub fn poll(
    status: Status,
    error: Option<String>,
    seen: &Seen,
    last_line: Option<&str>,
) -> (r: (Status, Option<String>))
    ensures
        (r.0, opt_string(r.1)) == after_look(status, opt_string(error), *seen, opt_text(last_line)),
{
    if status == Status::Failed {
        return (status, error);
    }
    match seen {
        Seen::Exited(how) => {
            let why = match last_line {
                Some(l) => l.to_owned(),
                None => cat3("ssh exited (", how.as_str(), ")"),
            };
            (Status::Failed, Some(why))
        },
        Seen::Alive { answers, age } => {
            let up = match answers {
                Some(a) => *a,
                None => *age > 3000,
            };
            if status == Status::Connecting && up {
                (Status::Up, error)
            } else {
                (status, error)
            }
        },
        Seen::Unknown(why) => (Status::Failed, Some(cat("wait failed: ", why.as_str()))),
    }
}

/// A tunnel that failed stays failed, and one that is up never goes back to
/// connecting, whatever a look at it finds.
pub proof fn law_status_never_goes_back(
    status: Status,
    error: Option<Seq<char>>,
    seen: Seen,
    last_line: Option<Seq<char>>,
)
    ensures
        status == Status::Failed ==> after_look(status, error, seen, last_line) == (status, error),
        status == Status::Up ==> after_look(status, error, seen, last_line).0
            != Status::Connecting,
{
}

}
