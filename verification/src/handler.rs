//! Answering requests.
use crate::ipc;
use crate::ipc::{Request, Response};
use crate::state;
use crate::state::AppState;
use vstd::prelude::*;
use vstd::string::*;

verus! {

/// How a request is met.
#[derive(Debug, Clone, PartialEq, Eq)]
pub enum Handling {
    /// With this answer, at once.
    Reply(Response),
    /// By bringing the project up.
    Up(String),
    /// By taking the project down.
    Down(String),
}

/// How a request is met in a given state at the time `now`.
pub fn handle_request(request: Request, state: &AppState, now: u64) -> (r: Handling)
    ensures
        match request@ {
            ipc::Req::Ping => r matches Handling::Reply(a) && a@ is Pong,
            ipc::Req::Status => r matches Handling::Reply(a) && a@ == (ipc::Resp::Status {
                projects: state.running().map_values(
                    |p: state::Running| state::report(p, state.caddy.http_addr@, now),
                ),
            }),
            ipc::Req::Up { project } => r matches Handling::Up(name) && name@ == project,
            ipc::Req::Down { project } => r matches Handling::Down(name) && name@ == project,
        },
{
    match request {
        Request::Ping => Handling::Reply(Response::Pong),
        Request::Status => Handling::Reply(Response::Status { projects: state.status(now) }),
        Request::Up { project } => Handling::Up(project),
        Request::Down { project } => Handling::Down(project),
    }
}

/// The answer to a request that was carried out, or was not.
pub fn reply(outcome: Result<(), String>) -> (r: Response)
    ensures
        r@ == match outcome {
            Ok(_) => ipc::Resp::Done,
            Err(message) => ipc::Resp::Error { message: message@ },
        },
{
    match outcome {
        Ok(_) => Response::Done,
        Err(message) => Response::Error { message },
    }
}

} // verus!
