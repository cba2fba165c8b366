//! Talking to the daemon, and starting it if need be.
use crate::ipc;
use crate::ipc::{Request, Response};
use crate::netns;
use crate::paths;
use crate::xdg;
use crate::xdg::Dirs;
use vstd::prelude::*;
use vstd::string::*;

verus! {

/// The answer on a line that was read, or why there is none. An empty line
/// means that the connection was closed.
pub open spec fn answer(line: Seq<char>) -> Result<ipc::Resp, Seq<char>> {
    if line.len() == 0 {
        Err("nealsd closed the connection without a response"@)
    } else {
        ipc::decoded_response(line)
    }
}

/// The answer on a line that was read.
pub fn read_answer(line: &str) -> (r: Result<Response, String>)
    ensures
        match (r, answer(line@)) {
            (Ok(a), Ok(b)) => a@ == b,
            (Err(a), Err(b)) => a@ == b,
            _ => false,
        },
{
    if line.is_empty() {
        Err("nealsd closed the connection without a response".to_owned())
    } else {
        ipc::decode_response(line)
    }
}

/// Whether an answer to a ping shows that the daemon is there.
pub fn is_pong(answer: &Result<Response, String>) -> (r: bool)
    ensures
        r == (answer matches Ok(a) && a@ is Pong),
{
    match answer {
        Ok(Response::Pong) => true,
        _ => false,
    }
}

/// Makes sure that the daemon is there, given how, and asks it, given how.
/// Making sure gives the reason why it is not there, if it is not.
pub fn with_daemon<E: Fn() -> Option<String>, C: Fn(&Request) -> Result<Response, String>>(
    request: &Request,
    ensure: &E,
    call: &C,
) -> (r: Result<Response, String>)
    requires
        ensure.requires(()),
        call.requires((request,)),
    ensures
        ({
            ||| (r matches Err(m) && ensure.ensures((), Some(m)))
            ||| ensure.ensures((), None) && call.ensures((request,), r)
        }),
{
    match ensure() {
        None => call(request),
        Some(m) => Err(m),
    }
}

/// What to do about a daemon that may not be there.
#[derive(Debug, Clone, PartialEq, Eq)]
pub enum EnsureStep {
    Ready,
    /// Start it, then try again.
    Start,
    Failed(String),
}

/// The unit of the system daemon, in quotes.
pub open spec fn unit(user: Option<Seq<char>>) -> Seq<char> {
    match user {
        Some(u) => if u.len() > 0 {
            "\"nealsd@"@ + u + "\""@
        } else {
            "\"nealsd@$USER\""@
        },
        None => "\"nealsd@$USER\""@,
    }
}

/// The message on a system daemon that does not run.
pub open spec fn system_down(user: Option<Seq<char>>) -> Seq<char> {
    "system nealsd is not running (socket "@ + xdg::SYSTEM_DAEMON_SOCKET@
        + ").\nStart it with:\nsudo systemctl start "@ + unit(user)
        + "\nOr see contrib/systemd/README.md"@
}

/// What to do about the daemon behind `socket`, given whether it answered. The
/// daemon of the system is not started here.
pub fn ensure_daemon(answered: bool, socket: &str, user: Option<&String>) -> (r: EnsureStep)
    ensures
        if answered {
            r is Ready
        } else if paths::same_path(socket@, xdg::SYSTEM_DAEMON_SOCKET@) {
            r matches EnsureStep::Failed(m) && m@ == system_down(netns::seen(user))
        } else {
            r is Start
        },
{
    if answered {
        return EnsureStep::Ready;
    }
    if xdg::is_system_daemon_socket(socket) {
        let mut name = "\"nealsd@$USER\"".to_owned();
        if let Some(u) = user {
            if !u.as_str().is_empty() {
                name = "\"nealsd@".to_owned().concat(u.as_str()).concat("\"");
            }
        }
        return EnsureStep::Failed(
            "system nealsd is not running (socket ".to_owned().concat(
                xdg::SYSTEM_DAEMON_SOCKET,
            ).concat(").\nStart it with:\nsudo systemctl start ").concat(name.as_str()).concat(
                "\nOr see contrib/systemd/README.md",
            ),
        );
    }
    EnsureStep::Start
}

/// How often a daemon that was started is tried.
pub const START_TRIES: u32 = 40;

/// What to do after the `attempt`-th try, given whether the daemon answered:
/// nothing means to try again.
pub fn after_start(attempt: u32, answered: bool) -> (r: Option<Result<(), String>>)
    ensures
        if answered {
            r matches Some(Ok(_))
        } else if attempt < START_TRIES {
            r is None
        } else {
            r matches Some(Err(m)) && m@
                == "failed to start nealsd (check ~/.local/state/neals/nealsd.log and caddy.log)"@
        },
{
    if answered {
        Some(Ok(()))
    } else if attempt < START_TRIES {
        None
    } else {
        Some(
            Err(
                "failed to start nealsd (check ~/.local/state/neals/nealsd.log and caddy.log)".to_owned(),
            ),
        )
    }
}

/// The daemon's program: the file next to the running program, else whatever
/// the search path gives.
pub fn find_nealsd<F: Fn(&String) -> bool>(exe: Option<&String>, is_file: &F) -> (r: String)
    requires
        forall|p: &String| is_file.requires((p,)),
    ensures
        match exe {
            Some(e) => {
                let sibling = paths::renamed(e@, "nealsd"@);
                ||| r@ == sibling && netns::file_found(sibling, *is_file)
                ||| r@ == "nealsd"@ && netns::not_found(sibling, *is_file)
            },
            None => r@ == "nealsd"@,
        },
{
    if let Some(e) = exe {
        let sibling = paths::with_file_name(e.as_str(), "nealsd");
        if is_file(&sibling) {
            return sibling;
        }
    }
    "nealsd".to_owned()
}

/// The log of a daemon that was started here.
pub fn nealsd_log_path(dirs: &Dirs) -> (r: Result<String, String>)
    ensures
        xdg::is_dir_result(
            r,
            match dirs.state() {
                Some(s) => Some(paths::below(s, "nealsd.log"@)),
                None => None,
            },
        ),
{
    match xdg::state_dir(dirs) {
        Ok(s) => Ok(paths::join_path(s.as_str(), "nealsd.log")),
        Err(m) => Err(m),
    }
}

/// What to do about a socket before the daemon listens on it.
#[derive(Debug, Clone, PartialEq, Eq)]
pub enum SocketStep {
    /// Nothing.
    Free,
    /// Remove it: nobody answers there.
    Remove,
    /// Give up: a daemon answers there.
    Taken(String),
}

/// What to do about a socket before the daemon listens on it, given whether it
/// is there and whether somebody answers.
pub fn prepare_socket(path: &str, there: bool, answers: bool) -> (r: SocketStep)
    ensures
        if !there {
            r is Free
        } else if answers {
            r matches SocketStep::Taken(m) && m@ == "nealsd already running ("@ + path@ + ")"@
        } else {
            r is Remove
        },
{
    if !there {
        SocketStep::Free
    } else if answers {
        SocketStep::Taken("nealsd already running (".to_owned().concat(path).concat(")"))
    } else {
        SocketStep::Remove
    }
}

} // verus!
