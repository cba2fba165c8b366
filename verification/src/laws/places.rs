//! Where files are kept.
use crate::client;
use crate::laws::texts;
use crate::paths;
use crate::xdg;
use crate::xdg::Dirs;
use vstd::prelude::*;
use vstd::string::*;

verus! {

/// Settings are kept below what is set for them, else below `.config` in the
/// home directory.
pub proof fn place_for_settings(given: Option<&String>, home: &str, r: String)
    requires
        call_ensures(xdg::config_dir_with, (given, home), r),
    ensures
        given matches Some(x) ==> r@ == paths::below(x@, "neals"@),
        given is None ==> r@ == paths::below(paths::below(home@, ".config"@), "neals"@),
{
}

/// Logs are kept below what is set for them, else below `.local/state` in the
/// home directory.
pub proof fn place_for_logs(given: Option<&String>, home: &str, r: String)
    requires
        call_ensures(xdg::state_dir_with, (given, home), r),
    ensures
        given matches Some(x) ==> r@ == paths::below(x@, "neals"@),
        given is None ==> r@ == paths::below(
            paths::below(paths::below(home@, ".local"@), "state"@),
            "neals"@,
        ),
{
}

/// Sockets are kept below what is set for them, else in a directory that is
/// always there.
pub proof fn place_for_sockets(given: Option<&String>, r: String)
    requires
        call_ensures(xdg::runtime_dir_with, (given,), r),
    ensures
        given matches Some(x) ==> r@ == paths::below(x@, "neals"@),
        given is None ==> r@ == "/tmp/neals"@,
{
}

/// Whether two settings say the same.
pub open spec fn same_setting(a: Option<String>, b: Option<&String>) -> bool {
    match (a, b) {
        (Some(x), Some(y)) => x@ == y@,
        (None, None) => true,
        _ => false,
    }
}

/// The places of a user follow from what is set. Without a home directory
/// there is neither a place for settings nor one for logs, whatever else is
/// set.
pub proof fn places_of_a_user(
    dirs: &Dirs,
    config: Result<String, String>,
    logs: Result<String, String>,
    run: String,
    file: Result<String, String>,
    home: &str,
    a: Option<&String>,
    b: Option<&String>,
    c: Option<&String>,
    x: String,
    y: String,
    z: String,
)
    requires
        call_ensures(xdg::config_dir, (dirs,), config),
        call_ensures(xdg::state_dir, (dirs,), logs),
        call_ensures(xdg::runtime_dir, (dirs,), run),
        call_ensures(xdg::projects_file, (dirs,), file),
        dirs.home matches Some(h) ==> home@ == h@,
        same_setting(dirs.config_home, a),
        same_setting(dirs.state_home, b),
        same_setting(dirs.runtime, c),
        call_ensures(xdg::config_dir_with, (a, home), x),
        call_ensures(xdg::state_dir_with, (b, home), y),
        call_ensures(xdg::runtime_dir_with, (c,), z),
    ensures
        dirs.home is None ==> config is Err && logs is Err && file is Err,
        dirs.home is Some ==> (config matches Ok(p) && p@ == x@),
        dirs.home is Some ==> (logs matches Ok(p) && p@ == y@),
        dirs.home is Some ==> (file matches Ok(p) && p@ == paths::below(x@, "projects.json"@)),
        run@ == z@,
{
}

/// The socket of the daemon is the one that is asked for, else that of the
/// system daemon where it is there, else one among the sockets of the user.
pub proof fn socket_of_the_daemon(dirs: &Dirs, system: bool, r: String, run: String)
    requires
        call_ensures(xdg::daemon_socket, (dirs, system), r),
        call_ensures(xdg::runtime_dir, (dirs,), run),
    ensures
        dirs.socket matches Some(s) ==> r@ == s@,
        dirs.socket is None && system ==> r@ == "/run/neals/nealsd.sock"@,
        dirs.socket is None && !system ==> r@ == paths::below(run@, "nealsd.sock"@),
{
}

/// A socket is that of the system daemon if its path leads there.
pub proof fn socket_of_the_system(path: &str, r: bool, same: bool)
    requires
        call_ensures(xdg::is_system_daemon_socket, (path,), r),
        call_ensures(paths::is_same_path, (path, "/run/neals/nealsd.sock"), same),
    ensures
        r == same,
        path@ == "/run/neals/nealsd.sock"@ ==> r,
{
}

/// A project has a directory of its name among the sockets, and a log of its
/// name among the logs.
pub proof fn places_of_a_project(
    dirs: &Dirs,
    project: &str,
    sockets: String,
    log: Result<String, String>,
    run: String,
    logs: Result<String, String>,
)
    requires
        call_ensures(xdg::project_runtime_dir, (dirs, project), sockets),
        call_ensures(xdg::project_log_path, (dirs, project), log),
        call_ensures(xdg::runtime_dir, (dirs,), run),
        call_ensures(xdg::state_dir, (dirs,), logs),
    ensures
        sockets@ == paths::below(run@, project@),
        log is Ok <==> logs is Ok,
        (log, logs) matches (Ok(l), Ok(d)) ==> l@ == paths::below(d@, project@ + ".log"@),
{
}

/// The daemon that is started by a user has its log among theirs.
pub proof fn log_of_the_daemon(dirs: &Dirs, r: Result<String, String>, logs: Result<String, String>)
    requires
        call_ensures(client::nealsd_log_path, (dirs,), r),
        call_ensures(xdg::state_dir, (dirs,), logs),
    ensures
        r is Ok <==> logs is Ok,
        (r, logs) matches (Ok(l), Ok(d)) ==> l@ == paths::below(d@, "nealsd.log"@),
{
}

/// A file directly in a directory has that directory as its parent, and a
/// name in its place lies beside it.
pub proof fn beside_a_file(
    dir: &str,
    name: Seq<char>,
    path: &str,
    other: &str,
    up: Option<String>,
    parent: &str,
    r: String,
    moved: &str,
    last: Option<String>,
)
    requires
        dir@.len() > 0,
        texts::is_step(name),
        texts::is_step(other@),
        path@ == dir@ + seq!['/'] + name,
        call_ensures(paths::parent, (path,), up),
        up matches Some(u) ==> parent@ == u@,
        call_ensures(paths::with_file_name, (path, other), r),
        moved@ == r@,
        call_ensures(paths::file_name, (moved,), last),
    ensures
        up is Some,
        last matches Some(n) && n@ == other@,
        r@ == paths::below(parent@, other@),
{
    texts::lemma_step(dir@, name);
    let c = paths::components(dir@);
    assert(c.push(name).drop_last() == c);
    reveal_strlit("/");
    assert(name != "/"@) by {
        if name == "/"@ {
            assert(name[0] == '/');
            assert(name.contains('/'));
        }
    }
    assert(c.push(name).last() == name);
    paths::components_below(parent@, other@);
}

} // verus!
