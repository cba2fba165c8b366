//! Where files are kept.
use crate::paths;
use crate::text;
use vstd::prelude::*;
use vstd::string::*;

verus! {

/// The socket of the system daemon.
pub const SYSTEM_DAEMON_SOCKET: &'static str = "/run/neals/nealsd.sock";

/// The environment variables that say where files are kept.
#[derive(Debug, Clone, PartialEq, Eq)]
pub struct Dirs {
    /// `HOME`
    pub home: Option<String>,
    /// `XDG_CONFIG_HOME`
    pub config_home: Option<String>,
    /// `XDG_STATE_HOME`
    pub state_home: Option<String>,
    /// `XDG_RUNTIME_DIR`
    pub runtime: Option<String>,
    /// `NEALS_SOCKET`
    pub socket: Option<String>,
}

/// The characters of an optional string.
pub open spec fn text_of(s: Option<String>) -> Option<Seq<char>> {
    match s {
        Some(t) => Some(t@),
        None => None,
    }
}

/// The configuration directory: below `XDG_CONFIG_HOME` if that is set, else
/// below the home directory.
pub open spec fn config_path(xdg: Option<Seq<char>>, home: Seq<char>) -> Seq<char> {
    match xdg {
        Some(x) => paths::below(x, "neals"@),
        None => paths::below(paths::below(home, ".config"@), "neals"@),
    }
}

/// The configuration directory.
pub fn config_dir_with(xdg_config_home: Option<&String>, home: &str) -> (r: String)
    ensures
        r@ == config_path(
            match xdg_config_home {
                Some(x) => Some(x@),
                None => None,
            },
            home@,
        ),
{
    match xdg_config_home {
        Some(x) => paths::join_path(x.as_str(), "neals"),
        None => paths::join_path(paths::join_path(home, ".config").as_str(), "neals"),
    }
}

/// The directory for logs: below `XDG_STATE_HOME` if that is set, else below
/// the home directory.
pub open spec fn state_path(xdg: Option<Seq<char>>, home: Seq<char>) -> Seq<char> {
    match xdg {
        Some(x) => paths::below(x, "neals"@),
        None => paths::below(
            paths::below(paths::below(home, ".local"@), "state"@),
            "neals"@,
        ),
    }
}

/// The directory for logs.
pub fn state_dir_with(xdg_state_home: Option<&String>, home: &str) -> (r: String)
    ensures
        r@ == state_path(
            match xdg_state_home {
                Some(x) => Some(x@),
                None => None,
            },
            home@,
        ),
{
    match xdg_state_home {
        Some(x) => paths::join_path(x.as_str(), "neals"),
        None => {
            let local = paths::join_path(home, ".local");
            let state = paths::join_path(local.as_str(), "state");
            paths::join_path(state.as_str(), "neals")
        },
    }
}

/// The directory for sockets: below `XDG_RUNTIME_DIR` if that is set.
pub open spec fn runtime_path(xdg: Option<Seq<char>>) -> Seq<char> {
    match xdg {
        Some(x) => paths::below(x, "neals"@),
        None => "/tmp/neals"@,
    }
}

/// The directory for sockets.
pub fn runtime_dir_with(xdg_runtime_dir: Option<&String>) -> (r: String)
    ensures
        r@ == runtime_path(
            match xdg_runtime_dir {
                Some(x) => Some(x@),
                None => None,
            },
        ),
{
    match xdg_runtime_dir {
        Some(x) => paths::join_path(x.as_str(), "neals"),
        None => "/tmp/neals".to_owned(),
    }
}

impl Dirs {
    /// The configuration directory, if the home directory is known.
    pub open spec fn config(&self) -> Option<Seq<char>> {
        match self.home {
            Some(h) => Some(config_path(text_of(self.config_home), h@)),
            None => None,
        }
    }

    /// The directory for logs, if the home directory is known.
    pub open spec fn state(&self) -> Option<Seq<char>> {
        match self.home {
            Some(h) => Some(state_path(text_of(self.state_home), h@)),
            None => None,
        }
    }

    /// The directory for sockets.
    pub open spec fn run(&self) -> Seq<char> {
        runtime_path(text_of(self.runtime))
    }

    /// The file of the registry, if the home directory is known.
    pub open spec fn registry_path(&self) -> Option<Seq<char>> {
        match self.config() {
            Some(c) => Some(paths::below(c, "projects.json"@)),
            None => None,
        }
    }
}

/// Whether `r` is the path `want`, or the complaint that there is no home
/// directory.
pub open spec fn is_dir_result(r: Result<String, String>, want: Option<Seq<char>>) -> bool {
    match (r, want) {
        (Ok(p), Some(w)) => p@ == w,
        (Err(m), None) => m@ == "$HOME is not set"@,
        _ => false,
    }
}

/// The configuration directory.
pub fn config_dir(dirs: &Dirs) -> (r: Result<String, String>)
    ensures
        is_dir_result(r, dirs.config()),
{
    match &dirs.home {
        Some(h) => Ok(config_dir_with(dirs.config_home.as_ref(), h.as_str())),
        None => Err("$HOME is not set".to_owned()),
    }
}

/// The directory for logs.
pub fn state_dir(dirs: &Dirs) -> (r: Result<String, String>)
    ensures
        is_dir_result(r, dirs.state()),
{
    match &dirs.home {
        Some(h) => Ok(state_dir_with(dirs.state_home.as_ref(), h.as_str())),
        None => Err("$HOME is not set".to_owned()),
    }
}

/// The directory for sockets.
pub fn runtime_dir(dirs: &Dirs) -> (r: String)
    ensures
        r@ == dirs.run(),
{
    runtime_dir_with(dirs.runtime.as_ref())
}

/// The file of the registry.
pub fn projects_file(dirs: &Dirs) -> (r: Result<String, String>)
    ensures
        is_dir_result(r, dirs.registry_path()),
{
    match config_dir(dirs) {
        Ok(c) => Ok(paths::join_path(c.as_str(), "projects.json")),
        Err(m) => Err(m),
    }
}

/// The socket of the daemon: the one that is asked for, else that of the
/// system daemon if it is there, else one of the user's own.
pub open spec fn socket_path(dirs: Dirs, system_exists: bool) -> Seq<char> {
    match text_of(dirs.socket) {
        Some(s) => s,
        None => if system_exists {
            SYSTEM_DAEMON_SOCKET@
        } else {
            paths::below(dirs.run(), "nealsd.sock"@)
        },
    }
}

/// The socket of the daemon.
pub fn daemon_socket(dirs: &Dirs, system_exists: bool) -> (r: String)
    ensures
        r@ == socket_path(*dirs, system_exists),
{
    match &dirs.socket {
        Some(s) => s.clone(),
        None => if system_exists {
            SYSTEM_DAEMON_SOCKET.to_owned()
        } else {
            paths::join_path(runtime_dir(dirs).as_str(), "nealsd.sock")
        },
    }
}

/// Whether a path is the socket of the system daemon.
pub fn is_system_daemon_socket(path: &str) -> (r: bool)
    ensures
        r == paths::same_path(path@, SYSTEM_DAEMON_SOCKET@),
{
    paths::is_same_path(path, SYSTEM_DAEMON_SOCKET)
}

/// The directory in which a project keeps its sockets.
pub open spec fn project_runtime(dirs: Dirs, project: Seq<char>) -> Seq<char> {
    paths::below(dirs.run(), project)
}

/// The directory in which a project keeps its sockets.
pub fn project_runtime_dir(dirs: &Dirs, project: &str) -> (r: String)
    ensures
        r@ == project_runtime(*dirs, project@),
{
    paths::join_path(runtime_dir(dirs).as_str(), project)
}

/// The log of a project, if the home directory is known.
pub open spec fn log_path(dirs: Dirs, project: Seq<char>) -> Option<Seq<char>> {
    match dirs.state() {
        Some(s) => Some(paths::below(s, project + ".log"@)),
        None => None,
    }
}

/// The log of a project.
pub fn project_log_path(dirs: &Dirs, project: &str) -> (r: Result<String, String>)
    ensures
        is_dir_result(r, log_path(*dirs, project@)),
{
    match state_dir(dirs) {
        Ok(s) => Ok(paths::join_path(s.as_str(), project.to_owned().concat(".log").as_str())),
        Err(m) => Err(m),
    }
}

} // verus!
