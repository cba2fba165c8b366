//! Rebuilding the environment of a project.
use crate::ipc;
use crate::ipc::Response;
use crate::cli;
use crate::paths;
use crate::registry;
use crate::registry::{Project, Registry};
use crate::text;
use crate::words;
use vstd::prelude::*;
use vstd::string::*;

verus! {

/// A name that is safe as part of a path: not empty, no separator in it, not
/// `.` or `..`.
pub open spec fn is_safe(name: Seq<char>) -> bool {
    &&& name.len() > 0
    &&& !name.contains('/')
    &&& !name.contains('\\')
    &&& name != "."@
    &&& name != ".."@
    &&& !name.contains('\0')
}

/// Whether a name is safe as part of a path.
pub fn is_safe_project_name(name: &str) -> (r: bool)
    ensures
        r == is_safe(name@),
{
    let cs = text::to_chars(name);
    cs.len() > 0 && !words::has_char(&cs, '/') && !words::has_char(&cs, '\\') && !text::same(
        name,
        ".",
    ) && !text::same(name, "..") && !words::has_char(&cs, '\0')
}

/// Whether `r` is the project `p` if it can be refreshed, or why it cannot.
pub open spec fn is_checked(r: Result<Project, String>, p: registry::Entry, is_dir: bool) -> bool {
    if !is_dir {
        r matches Err(m) && m@ == "project `"@ + p.name + "` path is missing: "@ + p.path
    } else if !is_safe(p.name) {
        r matches Err(m) && m@ == "refusing unsafe project name `"@ + p.name + "`"@
    } else {
        r matches Ok(q) && q@ == p
    }
}

/// The registered project of that name, given how to find out whether a path
/// is a directory.
pub fn resolve_registered<F: Fn(&String) -> bool>(list: &Registry, name: &str, is_dir: &F) -> (r:
    Result<Project, String>)
    requires
        forall|p: &String| is_dir.requires((p,)),
    ensures
        if registry::has_name(list@, name@) {
            exists|i: int, dir: bool| #[trigger]
                registry::is_first(list@, name@, i) && #[trigger] is_checked(r, list@[i], dir) && (
                exists|p: String| p@ == list@[i].path && #[trigger] is_dir.ensures((&p,), dir))
        } else {
            r matches Err(m) && m@ == registry::not_registered(name@)
        },
{
    match list.get(name) {
        None => Err(registry::not_registered_text(name)),
        Some(p) => {
            let ghost i = choose|i: int| #[trigger]
                registry::is_first(list@, name@, i) && p@ == list@[i];
            let dir = is_dir(&p.path);
            assert(is_dir.ensures((&p.path,), dir));
            let r = if !dir {
                Err(
                    "project `".to_owned().concat(name).concat("` path is missing: ").concat(
                        p.path.as_str(),
                    ),
                )
            } else if !is_safe_project_name(p.name.as_str()) {
                Err(
                    "refusing unsafe project name `".to_owned().concat(p.name.as_str()).concat("`"),
                )
            } else {
                Ok(p.copied())
            };
            assert(registry::is_first(list@, name@, i));
            assert(is_checked(r, list@[i], dir));
            r
        },
    }
}

/// Whether a project has to be stopped first, given what the daemon answers
/// when asked for its status.
pub fn stop_if_running(response: &Response, project: &str) -> (r: Result<bool, String>)
    ensures
        match response@ {
            ipc::Resp::Status { projects } => r == Ok::<bool, String>(
                cli::is_among(projects, project@),
            ),
            ipc::Resp::Error { message } => r matches Err(m) && m@ == message,
            other => r matches Err(m) && m@ == "unexpected daemon response: "@
                + ipc::response_debug(other),
        },
{
    match response {
        Response::Status { projects } => match cli::find_running(projects, project) {
            Some(_) => Ok(true),
            None => Ok(false),
        },
        Response::Error { message } => Err(message.clone()),
        other => Err(
            "unexpected daemon response: ".to_owned().concat(other.debug_text().as_str()),
        ),
    }
}

/// The directory for sockets of the system daemon.
pub const SYSTEM_RUNTIME: &'static str = "/run/neals";

/// The directories in which projects have a directory for sockets: that of the
/// user, and that of the system daemon if it is there.
pub open spec fn runtime_roots(runtime: Seq<char>, system_present: bool) -> Seq<Seq<char>> {
    if system_present && !paths::same_path(runtime, SYSTEM_RUNTIME@) {
        seq![runtime, SYSTEM_RUNTIME@]
    } else {
        seq![runtime]
    }
}

/// The directories in which projects have a directory for sockets.
pub fn managed_runtime_roots(runtime: &str, system_present: bool) -> (r: Vec<String>)
    ensures
        text::views(r@) == runtime_roots(runtime@, system_present),
{
    let mut roots: Vec<String> = Vec::new();
    roots.push(runtime.to_owned());
    assert(text::views(roots@) == seq![runtime@]);
    if system_present && !paths::is_same_path(runtime, SYSTEM_RUNTIME) {
        roots.push(SYSTEM_RUNTIME.to_owned());
        assert(text::views(roots@) == seq![runtime@, SYSTEM_RUNTIME@]);
    }
    roots
}

/// What is removed when the state of a project is wiped.
pub open spec fn wipe_targets(
    name: Seq<char>,
    project_path: Seq<char>,
    roots: Seq<Seq<char>>,
) -> Seq<Seq<char>> {
    seq![paths::below(project_path, ".devenv"@), paths::below(project_path, ".neals"@)]
        + roots.map_values(|root: Seq<char>| paths::below(root, name))
}

/// What is removed when the state of a project is wiped.
pub fn managed_wipe_targets(name: &str, project_path: &str, roots: &Vec<String>) -> (r: Vec<String>)
    ensures
        text::views(r@) == wipe_targets(name@, project_path@, text::views(roots@)),
{
    let ghost want = wipe_targets(name@, project_path@, text::views(roots@));
    let mut r: Vec<String> = Vec::new();
    r.push(paths::join_path(project_path, ".devenv"));
    r.push(paths::join_path(project_path, ".neals"));
    assert(text::views(r@) == want.take(2));
    for i in 0..roots.len()
        invariant
            want == wipe_targets(name@, project_path@, text::views(roots@)),
            text::views(r@) == want.take(i + 2),
    {
        let ghost before = text::views(r@);
        r.push(paths::join_path(roots[i].as_str(), name));
        assert(want[i + 2] == paths::below(roots@[i as int]@, name@));
        assert(text::views(r@) == before.push(want[i + 2]));
        assert(want.take(i + 3) == want.take(i + 2).push(want[i + 2]));
    }
    assert(want.take(want.len() as int) == want);
    r
}

/// Whether a path is one of the two that a project keeps its state in.
pub open spec fn is_project_state(path: Seq<char>, project_root: Seq<char>) -> bool {
    ||| paths::same_path(path, paths::below(project_root, ".devenv"@))
    ||| paths::same_path(path, paths::below(project_root, ".neals"@))
}

/// Whether some directory of a list is the one with the given components.
pub open spec fn is_one_of(roots: Seq<Seq<char>>, parts: Seq<Seq<char>>) -> bool {
    exists|i: int| 0 <= i < roots.len() && paths::components(#[trigger] roots[i]) == parts
}

/// Whether a path may be removed: it is state of the project, and the
/// directory that holds it, if there is one, really is the project's; or it is
/// the directory of that name in one of the directories for sockets.
pub open spec fn may_wipe(
    path: Seq<char>,
    project: Seq<char>,
    project_root: Seq<char>,
    canon_root: Seq<char>,
    canon_parent: Option<Seq<char>>,
    roots: Seq<Seq<char>>,
) -> bool {
    if is_project_state(path, project_root) {
        paths::parent_parts(path) is Some && canon_parent is Some ==> paths::same_path(
            canon_parent->0,
            canon_root,
        )
    } else {
        &&& paths::last_name(path) == Some(project)
        &&& paths::parent_parts(path) matches Some(parts) && is_one_of(roots, parts)
    }
}

/// Whether a path may be removed, given where the project and the directory
/// that holds the path really lie. The latter is none if that directory does
/// not exist.
pub fn is_allowed_wipe_path(
    path: &str,
    project: &str,
    project_root: &str,
    canon_root: &str,
    canon_parent: Option<&String>,
    roots: &Vec<String>,
) -> (r: bool)
    ensures
        r == may_wipe(
            path@,
            project@,
            project_root@,
            canon_root@,
            match canon_parent {
                Some(p) => Some(p@),
                None => None,
            },
            text::views(roots@),
        ),
{
    let devenv = paths::join_path(project_root, ".devenv");
    let neals = paths::join_path(project_root, ".neals");
    let mut parts = paths::split_path(path);
    let ghost all = text::views(parts@);
    let last = parts.pop();
    assert(last is Some ==> all.drop_last() == text::views(parts@) && last->0@ == all.last());
    let has_parent = match &last {
        Some(l) => !text::same(l.as_str(), "/"),
        None => false,
    };
    assert(has_parent == (paths::parent_parts(path@) is Some));
    if paths::is_same_path(path, devenv.as_str()) || paths::is_same_path(path, neals.as_str()) {
        if has_parent {
            if let Some(p) = canon_parent {
                return paths::is_same_path(p.as_str(), canon_root);
            }
        }
        return true;
    }
    match paths::file_name(path) {
        Some(name) => if !text::same(name.as_str(), project) {
            return false;
        },
        None => {
            return false;
        },
    }
    if !has_parent {
        return false;
    }
    let ghost rs = text::views(roots@);
    for i in 0..roots.len()
        invariant
            rs == text::views(roots@),
            forall|j: int| 0 <= j < i ==> paths::components(#[trigger] rs[j]) != text::views(
                parts@,
            ),
            !is_project_state(path@, project_root@),
            paths::last_name(path@) == Some(project@),
            paths::parent_parts(path@) == Some(text::views(parts@)),
    {
        if text::same_list(&paths::split_path(roots[i].as_str()), &parts) {
            assert(paths::components(rs[i as int]) == text::views(parts@));
            return true;
        }
    }
    false
}

/// What is removed when the state of a project is wiped may be removed: the
/// state in the project, where the project is not reached through a link, and
/// the directories of its name among those for sockets.
pub proof fn wipe_targets_allowed(
    name: Seq<char>,
    project_path: Seq<char>,
    canon_root: Seq<char>,
    roots: Seq<Seq<char>>,
    k: int,
)
    requires
        is_safe(name),
        0 <= k < wipe_targets(name, project_path, roots).len(),
    ensures
        may_wipe(
            wipe_targets(name, project_path, roots)[k],
            name,
            project_path,
            canon_root,
            Some(canon_root),
            roots,
        ),
{
    let path = wipe_targets(name, project_path, roots)[k];
    if k >= 2 {
        let root = roots[k - 2];
        assert(path == paths::below(root, name));
        paths::components_below(root, name);
        assert(is_one_of(roots, paths::components(root)));
    }
}

/// What may be removed lies directly in the project or directly in one of the
/// directories for sockets.
pub proof fn wipe_stays_inside(
    path: Seq<char>,
    project: Seq<char>,
    project_root: Seq<char>,
    canon_root: Seq<char>,
    canon_parent: Option<Seq<char>>,
    roots: Seq<Seq<char>>,
)
    requires
        may_wipe(path, project, project_root, canon_root, canon_parent, roots),
    ensures
        paths::parent_parts(path) matches Some(parts) && (parts == paths::components(project_root)
            || is_one_of(roots, parts)),
        paths::last_name(path) == Some(".devenv"@) || paths::last_name(path) == Some(".neals"@)
            || paths::last_name(path) == Some(project),
{
    if is_project_state(path, project_root) {
        reveal_strlit(".devenv");
        reveal_strlit(".neals");
        reveal_strlit(".");
        reveal_strlit("..");
        assert(".devenv"@.len() == 7);
        assert(".neals"@.len() == 6);
        assert("."@.len() == 1);
        assert(".."@.len() == 2);
        assert(!".devenv"@.contains('/'));
        assert(!".neals"@.contains('/'));
        paths::components_below(project_root, ".devenv"@);
        paths::components_below(project_root, ".neals"@);
    }
}

/// The message on an environment that could not be evaluated, with what the
/// tool had to say.
pub fn evaluation_failed(stderr: &str) -> (r: String)
    ensures
        r@ == if words::trim(stderr@).len() == 0 {
            "environment evaluation failed"@
        } else {
            "environment evaluation failed: "@ + words::trim(stderr@)
        },
{
    let err = words::trimmed(&text::to_chars(stderr));
    if err.as_str().is_empty() {
        "environment evaluation failed".to_owned()
    } else {
        "environment evaluation failed: ".to_owned().concat(err.as_str())
    }
}

} // verus!
