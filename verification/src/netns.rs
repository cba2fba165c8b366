//! The network namespace of a project.
use crate::paths;
use crate::quote;
use crate::state;
use crate::state::{BoundRoute, BoundTarget};
use crate::text;
use crate::words;
use vstd::prelude::*;
use vstd::string::*;

verus! {

/// The argument that makes the daemon's program forward one port.
pub const PROXY_MODE_ARG: &'static str = "--netns-proxy";

/// The name server inside a namespace.
pub const SLIRP_RESOLV_CONF: &'static str = "nameserver 10.0.2.3\n";

// ---------------------------------------------------------------------------
// Tools
// ---------------------------------------------------------------------------
/// The message on a tool that is not there.
pub open spec fn tool_missing(tool: Seq<char>) -> Seq<char> {
    "nealsd requires `"@ + tool + "` on PATH (install bubblewrap / slirp4netns)"@
}

/// Whether what a project needs is there, given which tools were found and
/// whether a user namespace could be made.
pub fn require_tools(has_bwrap: bool, has_slirp: bool, userns_works: bool) -> (r: Result<
    (),
    String,
>)
    ensures
        match r {
            Ok(_) => has_bwrap && has_slirp && userns_works,
            Err(m) => m@ == if !has_bwrap {
                tool_missing("bwrap"@)
            } else if !has_slirp {
                tool_missing("slirp4netns"@)
            } else {
                "nealsd cannot create a user namespace (bwrap failed); check kernel.userns and that the unit is not blocking it"@
            } && !(has_bwrap && has_slirp && userns_works),
        },
{
    if !has_bwrap || !has_slirp {
        let tool = if !has_bwrap {
            "bwrap"
        } else {
            "slirp4netns"
        };
        return Err(
            "nealsd requires `".to_owned().concat(tool).concat(
                "` on PATH (install bubblewrap / slirp4netns)",
            ),
        );
    }
    if !userns_works {
        return Err(
            "nealsd cannot create a user namespace (bwrap failed); check kernel.userns and that the unit is not blocking it".to_owned(),
        );
    }
    Ok(())
}

/// Where a program may lie: in each directory of the search path, in order.
pub open spec fn candidates(search_path: Seq<char>, bin: Seq<char>) -> Seq<Seq<char>> {
    words::pieces(search_path, ':').map_values(|dir: Seq<char>| paths::below(dir, bin))
}

/// Whether `r` is the first candidate that is a file.
pub open spec fn is_first_file<F: Fn(&String) -> bool>(
    r: Option<String>,
    list: Seq<Seq<char>>,
    is_file: F,
) -> bool {
    match r {
        Some(p) => exists|i: int|
            0 <= i < list.len() && p@ == #[trigger] list[i] && file_found(list[i], is_file)
                && none_found(list.take(i), is_file),
        None => none_found(list, is_file),
    }
}

/// Whether asking for a path can have found a file.
pub open spec fn file_found<F: Fn(&String) -> bool>(path: Seq<char>, is_file: F) -> bool {
    exists|p: String| p@ == path && #[trigger] is_file.ensures((&p,), true)
}

/// Whether asking for each path can have found no file.
pub open spec fn none_found<F: Fn(&String) -> bool>(list: Seq<Seq<char>>, is_file: F) -> bool {
    forall|i: int| 0 <= i < list.len() ==> #[trigger] not_found(list[i], is_file)
}

/// Whether asking for a path can have found no file.
pub open spec fn not_found<F: Fn(&String) -> bool>(path: Seq<char>, is_file: F) -> bool {
    exists|p: String| p@ == path && #[trigger] is_file.ensures((&p,), false)
}

/// The first directory of the search path in which a program lies.
pub fn which<F: Fn(&String) -> bool>(search_path: Option<&String>, bin: &str, is_file: &F) -> (r:
    Option<String>)
    requires
        forall|p: &String| is_file.requires((p,)),
    ensures
        match search_path {
            Some(s) => is_first_file(r, candidates(s@, bin@), *is_file),
            None => r is None,
        },
{
    let all = search_path?;
    let ghost list = candidates(all@, bin@);
    let dirs = words::split_on(&text::to_chars(all.as_str()), ':');
    for i in 0..dirs.len()
        invariant
            forall|p: &String| is_file.requires((p,)),
            search_path == Some(all),
            list == candidates(all@, bin@),
            text::views(dirs@) == words::pieces(all@, ':'),
            none_found(list.take(i as int), *is_file),
    {
        let p = paths::join_path(dirs[i].as_str(), bin);
        assert(p@ == list[i as int]);
        if is_file(&p) {
            assert(file_found(list[i as int], *is_file));
            return Some(p);
        }
        assert(not_found(list[i as int], *is_file));
        assert forall|j: int| 0 <= j < i + 1 implies #[trigger] not_found(
            list.take(i + 1)[j],
            *is_file,
        ) by {
            if j < i {
                assert(not_found(list.take(i as int)[j], *is_file));
            }
        }
    }
    assert(list.take(list.len() as int) == list);
    None
}

// ---------------------------------------------------------------------------
// The daemon's own program
// ---------------------------------------------------------------------------
/// Whether `r` is what the search path gives for the daemon's program.
pub open spec fn is_on_path<F: Fn(&String) -> bool>(
    r: Result<String, String>,
    search_path: Option<Seq<char>>,
    is_file: F,
) -> bool {
    match r {
        Ok(p) => search_path matches Some(s) && is_first_file(
            Some(p),
            candidates(s, "nealsd"@),
            is_file,
        ),
        Err(m) => {
            &&& m@ == "failed to locate the nealsd binary"@
            &&& search_path matches Some(s) ==> none_found(candidates(s, "nealsd"@), is_file)
        },
    }
}

/// Whether `r` is the file at `path`.
pub open spec fn is_file_at<F: Fn(&String) -> bool>(
    r: Result<String, String>,
    path: Seq<char>,
    is_file: F,
) -> bool {
    r matches Ok(p) && p@ == path && file_found(path, is_file)
}

/// Whether `r` is the daemon's program one directory above the running one,
/// or else what the search path gives.
pub open spec fn is_above_or_on_path<F: Fn(&String) -> bool>(
    r: Result<String, String>,
    above: Option<Seq<char>>,
    search_path: Option<Seq<char>>,
    is_file: F,
) -> bool {
    match above {
        Some(dir) => {
            ||| is_file_at(r, paths::below(dir, "nealsd"@), is_file)
            ||| not_found(paths::below(dir, "nealsd"@), is_file) && is_on_path(
                r,
                search_path,
                is_file,
            )
        },
        None => is_on_path(r, search_path, is_file),
    }
}

/// The directory that holds the directory of a file.
pub open spec fn grandparent(path: Seq<char>) -> Option<Seq<char>> {
    match paths::parent_path(path) {
        Some(p) => paths::parent_path(p),
        None => None,
    }
}

/// Whether `r` is the daemon's program as it is found from the running one:
/// itself, next to it, one directory above, or on the search path.
pub open spec fn is_near<F: Fn(&String) -> bool>(
    r: Result<String, String>,
    exe: Option<Seq<char>>,
    search_path: Option<Seq<char>>,
    is_file: F,
) -> bool {
    match exe {
        None => is_on_path(r, search_path, is_file),
        Some(e) => if paths::last_name(e) == Some("nealsd"@) {
            r matches Ok(p) && p@ == e
        } else {
            ||| is_file_at(r, paths::renamed(e, "nealsd"@), is_file)
            ||| not_found(paths::renamed(e, "nealsd"@), is_file) && is_above_or_on_path(
                r,
                grandparent(e),
                search_path,
                is_file,
            )
        },
    }
}

/// Whether `r` is the daemon's program: the one that is named, if it is a
/// file, else as it is found from the running program.
pub open spec fn is_daemon_exe<F: Fn(&String) -> bool>(
    r: Result<String, String>,
    named: Option<Seq<char>>,
    exe: Option<Seq<char>>,
    search_path: Option<Seq<char>>,
    is_file: F,
) -> bool {
    match named {
        None => is_near(r, exe, search_path, is_file),
        Some(n) => {
            ||| is_file_at(r, words::trim(n), is_file)
            ||| not_found(words::trim(n), is_file) && is_near(r, exe, search_path, is_file)
        },
    }
}

/// The characters of an optional string.
pub open spec fn seen(s: Option<&String>) -> Option<Seq<char>> {
    match s {
        Some(t) => Some(t@),
        None => None,
    }
}

/// The path, if it is a file.
fn check_file<F: Fn(&String) -> bool>(path: String, is_file: &F) -> (r: Option<String>)
    requires
        forall|p: &String| is_file.requires((p,)),
    ensures
        match r {
            Some(p) => p@ == path@ && file_found(path@, *is_file),
            None => not_found(path@, *is_file),
        },
{
    if is_file(&path) {
        Some(path)
    } else {
        None
    }
}

/// The daemon's program, given `NEALSD_BIN`, the running program and the
/// search path.
pub fn find_nealsd_exe<F: Fn(&String) -> bool>(
    named: Option<&String>,
    exe: Option<&String>,
    search_path: Option<&String>,
    is_file: &F,
) -> (r: Result<String, String>)
    requires
        forall|p: &String| is_file.requires((p,)),
    ensures
        is_daemon_exe(r, seen(named), seen(exe), seen(search_path), *is_file),
{
    if let Some(n) = named {
        let path = words::trimmed(&text::to_chars(n.as_str()));
        if let Some(p) = check_file(path, is_file) {
            return Ok(p);
        }
    }
    if let Some(e) = exe {
        if let Some(name) = paths::file_name(e.as_str()) {
            if text::same(name.as_str(), "nealsd") {
                return Ok(e.clone());
            }
        }
        if let Some(p) = check_file(paths::with_file_name(e.as_str(), "nealsd"), is_file) {
            return Ok(p);
        }
        if let Some(dir) = paths::parent(e.as_str()) {
            if let Some(above) = paths::parent(dir.as_str()) {
                if let Some(p) = check_file(paths::join_path(above.as_str(), "nealsd"), is_file) {
                    return Ok(p);
                }
            }
        }
    }
    match which(search_path, "nealsd", is_file) {
        Some(p) => Ok(p),
        None => Err("failed to locate the nealsd binary".to_owned()),
    }
}

// ---------------------------------------------------------------------------
// The sandbox
// ---------------------------------------------------------------------------
/// Adds an argument.
fn arg(out: &mut Vec<String>, s: &str)
    ensures
        text::views(final(out)@) == text::views(old(out)@).push(s@),
{
    let ghost before = text::views(out@);
    out.push(s.to_owned());
    assert(text::views(out@) == before.push(s@));
}

/// The path below `/run` through the given components.
pub open spec fn run_path(rel: Seq<Seq<char>>) -> Seq<char>
    decreases rel.len(),
{
    if rel.len() == 0 {
        "/run"@
    } else {
        paths::below(run_path(rel.drop_last()), rel.last())
    }
}

/// The arguments that make the directories between `/run` and a path below
/// it, the outermost first.
pub open spec fn dirs_between(rel: Seq<Seq<char>>) -> Seq<Seq<char>>
    decreases rel.len(),
{
    if rel.len() <= 1 {
        Seq::empty()
    } else {
        dirs_between(rel.drop_last()).push("--dir"@).push(run_path(rel.drop_last()))
    }
}

fn push_dirs(out: &mut Vec<String>, rel: &Vec<String>)
    ensures
        text::views(final(out)@) == text::views(old(out)@) + dirs_between(text::views(rel@)),
{
    let ghost before = text::views(out@);
    let ghost all = text::views(rel@);
    let mut acc = "/run".to_owned();
    assert(before + dirs_between(all.take(0)) == before);
    for i in 0..rel.len()
        invariant
            all == text::views(rel@),
            before == text::views(old(out)@),
            acc@ == run_path(all.take(i as int)),
            text::views(out@) == before + dirs_between(all.take(i as int)),
    {
        assert(all.take(i + 1).drop_last() == all.take(i as int));
        if i > 0 {
            arg(out, "--dir");
            arg(out, acc.as_str());
            assert(text::views(out@) == before + dirs_between(all.take(i + 1)));
        }
        acc = paths::join_path(acc.as_str(), rel[i].as_str());
    }
    assert(all.take(all.len() as int) == all);
}

/// The arguments that give the sandbox an empty `/run` with nothing in it but
/// the directory for sockets, if that lies there.
pub open spec fn run_mount(runtime: Seq<char>) -> Seq<Seq<char>> {
    let tmpfs = seq!["--tmpfs"@, "/run"@];
    match paths::inside(runtime, "/run"@) {
        Some(rel) => tmpfs + dirs_between(rel) + seq!["--bind"@, runtime, runtime],
        None => tmpfs,
    }
}

fn mount_writable_run(out: &mut Vec<String>, runtime: &str)
    ensures
        text::views(final(out)@) == text::views(old(out)@) + run_mount(runtime@),
{
    let ghost before = text::views(out@);
    arg(out, "--tmpfs");
    arg(out, "/run");
    assert(text::views(out@) == before + seq!["--tmpfs"@, "/run"@]);
    if let Some(rel) = paths::strip_prefix(runtime, "/run") {
        push_dirs(out, &rel);
        arg(out, "--bind");
        arg(out, runtime);
        arg(out, runtime);
        assert(text::views(out@) == before + run_mount(runtime@));
    }
}

/// The directory of a user's session.
pub open spec fn session_dir(uid: u32) -> Seq<char> {
    "/run/user/"@ + text::decimal(uid as nat)
}

/// The directory of a user's session.
pub fn session_dir_text(uid: u32) -> (r: String)
    ensures
        r@ == session_dir(uid),
{
    "/run/user/".to_owned().concat(text::decimal_text(uid as u64).as_str())
}

/// The arguments that show the directory of the user's session in the
/// sandbox, if there is one.
pub open spec fn session_mount(uid: u32, session_is_dir: bool) -> Seq<Seq<char>> {
    if session_is_dir {
        seq!["--dir"@, "/run/user"@, "--bind"@, session_dir(uid), session_dir(uid)]
    } else {
        Seq::empty()
    }
}

fn mount_session_runtime(out: &mut Vec<String>, uid: u32, session_is_dir: bool)
    ensures
        text::views(final(out)@) == text::views(old(out)@) + session_mount(uid, session_is_dir),
{
    let ghost before = text::views(out@);
    if session_is_dir {
        let session = session_dir_text(uid);
        arg(out, "--dir");
        arg(out, "/run/user");
        arg(out, "--bind");
        arg(out, session.as_str());
        arg(out, session.as_str());
    }
    assert(text::views(out@) == before + session_mount(uid, session_is_dir));
}

/// The arguments that put the name server of the namespace where the host has
/// its own.
pub open spec fn resolv_mount(resolv_conf: Seq<char>, dest: Option<Seq<char>>) -> Seq<Seq<char>> {
    match dest {
        None => Seq::empty(),
        Some(d) => {
            let dirs = match paths::inside(d, "/run"@) {
                Some(rel) => dirs_between(rel),
                None => Seq::empty(),
            };
            dirs + seq!["--ro-bind"@, resolv_conf, d]
        },
    }
}

fn mount_resolv_conf(out: &mut Vec<String>, resolv_conf: &str, dest: Option<&String>)
    ensures
        text::views(final(out)@) == text::views(old(out)@) + resolv_mount(resolv_conf@, seen(dest)),
{
    let ghost before = text::views(out@);
    if let Some(d) = dest {
        if let Some(rel) = paths::strip_prefix(d.as_str(), "/run") {
            push_dirs(out, &rel);
        }
        arg(out, "--ro-bind");
        arg(out, resolv_conf);
        arg(out, d.as_str());
    }
    assert(text::views(out@) == before + resolv_mount(resolv_conf@, seen(dest)));
}

/// What the sandbox is made of.
#[derive(Debug, Clone, PartialEq, Eq)]
pub struct Sandbox {
    pub uid: u32,
    pub gid: u32,
    pub project_dir: String,
    /// The directory for sockets.
    pub runtime: String,
    /// The file with the name server of the namespace.
    pub resolv_conf: String,
    /// Whether the directory of the user's session exists.
    pub session_is_dir: bool,
    /// Where `/etc/resolv.conf` leads, if anywhere.
    pub resolv_dest: Option<String>,
}

/// What the shell in the sandbox runs: the loopback device is brought up,
/// then the program takes the place of the shell.
pub open spec fn sandbox_script(program: Seq<char>, args: Seq<Seq<char>>) -> Seq<char> {
    "ip link set lo up 2>/dev/null || true; exec "@ + quote::quoted_words(seq![program] + args)
}

/// The first arguments of the sandbox: namespaces for users and the network,
/// and the whole file system.
pub open spec fn sandbox_start(uid: u32, gid: u32) -> Seq<Seq<char>> {
    seq![
        "--die-with-parent"@,
        "--unshare-user"@,
        "--uid"@,
        text::decimal(uid as nat),
        "--gid"@,
        text::decimal(gid as nat),
        "--unshare-net"@,
        "--cap-add"@,
        "CAP_NET_ADMIN"@,
        "--dev-bind"@,
        "/"@,
        "/"@,
    ]
}

/// The mounts of the sandbox, in order.
pub open spec fn sandbox_mounts(s: Sandbox) -> Seq<Seq<char>> {
    run_mount(s.runtime@) + session_mount(s.uid, s.session_is_dir) + resolv_mount(
        s.resolv_conf@,
        seen(
            match s.resolv_dest {
                Some(d) => Some(&d),
                None => None,
            },
        ),
    )
}

/// The arguments of `bwrap` for a program in the sandbox.
pub open spec fn sandbox_args(s: Sandbox, program: Seq<char>, args: Seq<Seq<char>>) -> Seq<
    Seq<char>,
> {
    sandbox_start(s.uid, s.gid) + sandbox_mounts(s) + seq![
        "--chdir"@,
        s.project_dir@,
        "--"@,
        "/bin/sh"@,
        "-c"@,
        sandbox_script(program, args),
    ]
}

/// The arguments of `bwrap` for a program in the sandbox.
pub fn bwrap_command(sandbox: &Sandbox, program: &str, args: &Vec<String>) -> (r: Vec<String>)
    ensures
        text::views(r@) == sandbox_args(*sandbox, program@, text::views(args@)),
{
    let mut words: Vec<String> = Vec::new();
    words.push(program.to_owned());
    let mut rest = text::copy_all(args);
    words.append(&mut rest);
    assert(text::views(words@) == seq![program@] + text::views(args@));
    let script = "ip link set lo up 2>/dev/null || true; exec ".to_owned().concat(
        quote::quote_words(&words).as_str(),
    );
    let uid = text::decimal_text(sandbox.uid as u64);
    let gid = text::decimal_text(sandbox.gid as u64);
    let mut out: Vec<String> = Vec::new();
    arg(&mut out, "--die-with-parent");
    arg(&mut out, "--unshare-user");
    arg(&mut out, "--uid");
    arg(&mut out, uid.as_str());
    arg(&mut out, "--gid");
    arg(&mut out, gid.as_str());
    arg(&mut out, "--unshare-net");
    arg(&mut out, "--cap-add");
    arg(&mut out, "CAP_NET_ADMIN");
    arg(&mut out, "--dev-bind");
    arg(&mut out, "/");
    arg(&mut out, "/");
    let ghost start = sandbox_start(sandbox.uid, sandbox.gid);
    assert(text::views(out@) == start);
    mount_writable_run(&mut out, sandbox.runtime.as_str());
    mount_session_runtime(&mut out, sandbox.uid, sandbox.session_is_dir);
    mount_resolv_conf(&mut out, sandbox.resolv_conf.as_str(), sandbox.resolv_dest.as_ref());
    assert(text::views(out@) == start + sandbox_mounts(*sandbox));
    arg(&mut out, "--chdir");
    arg(&mut out, sandbox.project_dir.as_str());
    arg(&mut out, "--");
    arg(&mut out, "/bin/sh");
    arg(&mut out, "-c");
    arg(&mut out, script.as_str());
    assert(text::views(out@) == sandbox_args(*sandbox, program@, text::views(args@)));
    out
}

/// The arguments of `bwrap` that try out whether a user namespace can be made.
pub open spec fn trial_args(uid: u32, gid: u32) -> Seq<Seq<char>> {
    seq![
        "--unshare-user"@,
        "--uid"@,
        text::decimal(uid as nat),
        "--gid"@,
        text::decimal(gid as nat),
        "--unshare-net"@,
        "--dev-bind"@,
        "/"@,
        "/"@,
        "--"@,
        "true"@,
    ]
}

/// The arguments of `bwrap` that try out whether a user namespace can be made.
pub fn userns_trial(uid: u32, gid: u32) -> (r: Vec<String>)
    ensures
        text::views(r@) == trial_args(uid, gid),
{
    let u = text::decimal_text(uid as u64);
    let g = text::decimal_text(gid as u64);
    let mut out: Vec<String> = Vec::new();
    arg(&mut out, "--unshare-user");
    arg(&mut out, "--uid");
    arg(&mut out, u.as_str());
    arg(&mut out, "--gid");
    arg(&mut out, g.as_str());
    arg(&mut out, "--unshare-net");
    arg(&mut out, "--dev-bind");
    arg(&mut out, "/");
    arg(&mut out, "/");
    arg(&mut out, "--");
    arg(&mut out, "true");
    assert(text::views(out@) == trial_args(uid, gid));
    out
}

/// Whether an empty `/run` is mounted at position `t` and a file is put in
/// place at position `b` behind it.
pub open spec fn is_bound_behind_run(
    args: Seq<Seq<char>>,
    t: int,
    file: Seq<char>,
    dest: Seq<char>,
    b: int,
) -> bool {
    &&& 0 <= t
    &&& t + 1 < b
    &&& b + 2 < args.len()
    &&& args[t] == "--tmpfs"@
    &&& args[t + 1] == "/run"@
    &&& args[b] == "--ro-bind"@
    &&& args[b + 1] == file
    &&& args[b + 2] == dest
}

/// The name server of the namespace is put in place behind the empty `/run`,
/// which would hide it otherwise.
pub proof fn resolv_conf_after_run(s: Sandbox, program: Seq<char>, args: Seq<Seq<char>>, dest: String)
    requires
        s.resolv_dest == Some(dest),
    ensures
        exists|t: int, b: int| #[trigger]
            is_bound_behind_run(
                sandbox_args(s, program, args),
                t,
                s.resolv_conf@,
                dest@,
                b,
            ),
{
    let all = sandbox_args(s, program, args);
    let start = sandbox_start(s.uid, s.gid);
    let run = run_mount(s.runtime@);
    let session = session_mount(s.uid, s.session_is_dir);
    let resolv = resolv_mount(s.resolv_conf@, Some(dest@));
    let mounts = sandbox_mounts(s);
    assert(mounts == run + session + resolv);
    assert(run[0] == "--tmpfs"@ && run[1] == "/run"@);
    let t = start.len() as int;
    let b = start.len() + run.len() + session.len() + resolv.len() - 3;
    assert(resolv[resolv.len() - 3] == "--ro-bind"@);
    assert(resolv[resolv.len() - 2] == s.resolv_conf@);
    assert(resolv[resolv.len() - 1] == dest@);
    assert(mounts[0] == run[0]);
    assert(mounts[1] == run[1]);
    assert(mounts[b - t] == resolv[resolv.len() - 3]);
    assert(mounts[b - t + 1] == resolv[resolv.len() - 2]);
    assert(mounts[b - t + 2] == resolv[resolv.len() - 1]);
    assert(all[t] == mounts[0]);
    assert(all[t + 1] == mounts[1]);
    assert(all[b] == mounts[b - t]);
    assert(all[b + 1] == mounts[b - t + 1]);
    assert(all[b + 2] == mounts[b - t + 2]);
    assert(is_bound_behind_run(all, t, s.resolv_conf@, dest@, b));
}

// ---------------------------------------------------------------------------
// Inside the namespace
// ---------------------------------------------------------------------------
/// The file with the name server of the namespace.
pub fn resolv_conf_path(dir: &str) -> (r: String)
    ensures
        r@ == paths::below(dir@, "resolv.conf"@),
{
    paths::join_path(dir, "resolv.conf")
}

/// The arguments of `slirp4netns` for the namespace of a process.
pub open spec fn slirp_args(netns_pid: u32) -> Seq<Seq<char>> {
    seq![
        "--configure"@,
        "--mtu=65520"@,
        "--disable-host-loopback"@,
        text::decimal(netns_pid as nat),
        "tap0"@,
    ]
}

/// The arguments of `slirp4netns` for the namespace of a process.
pub fn slirp_command(netns_pid: u32) -> (r: Vec<String>)
    ensures
        text::views(r@) == slirp_args(netns_pid),
{
    let pid = text::decimal_text(netns_pid as u64);
    let mut out: Vec<String> = Vec::new();
    arg(&mut out, "--configure");
    arg(&mut out, "--mtu=65520");
    arg(&mut out, "--disable-host-loopback");
    arg(&mut out, pid.as_str());
    arg(&mut out, "tap0");
    assert(text::views(out@) == slirp_args(netns_pid));
    out
}

/// Whether `slirp4netns` is up, given how it ended within the first moment if
/// it did.
pub fn slirp_settled(exited: Option<String>) -> (r: Result<(), String>)
    ensures
        match exited {
            None => r is Ok,
            Some(status) => r matches Err(m) && m@ == "slirp4netns exited early ("@ + status@
                + ")"@,
        },
{
    match exited {
        None => Ok(()),
        Some(status) => Err(
            "slirp4netns exited early (".to_owned().concat(status.as_str()).concat(")"),
        ),
    }
}

/// A port to forward: the one to listen on, and the arguments of the helper
/// that takes the connections over.
#[derive(Debug, Clone, PartialEq, Eq)]
pub struct Forward {
    pub host_port: u16,
    pub args: Vec<String>,
}

/// The arguments of a helper.
pub open spec fn helper_args(netns_pid: u32, guest_port: u16) -> Seq<Seq<char>> {
    seq![PROXY_MODE_ARG@, text::decimal(netns_pid as nat), text::decimal(guest_port as nat)]
}

fn helper_command(netns_pid: u32, guest_port: u16) -> (r: Vec<String>)
    ensures
        text::views(r@) == helper_args(netns_pid, guest_port),
{
    let pid = text::decimal_text(netns_pid as u64);
    let port = text::decimal_text(guest_port as u64);
    let mut out: Vec<String> = Vec::new();
    arg(&mut out, PROXY_MODE_ARG);
    arg(&mut out, pid.as_str());
    arg(&mut out, port.as_str());
    assert(text::views(out@) == helper_args(netns_pid, guest_port));
    out
}

/// The host port of each TCP route with the arguments of its helper, in order.
pub open spec fn forwards(bound: Seq<state::Route>, netns_pid: u32) -> Seq<(u16, Seq<Seq<char>>)>
    decreases bound.len(),
{
    if bound.len() == 0 {
        Seq::empty()
    } else {
        let rest = forwards(bound.drop_last(), netns_pid);
        match bound.last().target {
            state::Target::Tcp { host_port, guest_port } => rest.push(
                (host_port, helper_args(netns_pid, guest_port)),
            ),
            state::Target::Unix { .. } => rest,
        }
    }
}

/// What a list of ports to forward says.
pub open spec fn forwards_of(list: Seq<Forward>) -> Seq<(u16, Seq<Seq<char>>)> {
    list.map_values(|f: Forward| (f.host_port, text::views(f.args@)))
}

/// The ports to forward into the namespace of a process.
pub fn start_proxies(bound: &Vec<BoundRoute>, netns_pid: u32) -> (r: Vec<Forward>)
    ensures
        forwards_of(r@) == forwards(state::routes(bound@), netns_pid),
{
    let ghost all = state::routes(bound@);
    let mut r: Vec<Forward> = Vec::new();
    for i in 0..bound.len()
        invariant
            all == state::routes(bound@),
            forwards_of(r@) == forwards(all.take(i as int), netns_pid),
    {
        assert(all.take(i + 1).drop_last() == all.take(i as int));
        let ghost before = forwards_of(r@);
        if let BoundTarget::Tcp { host_port, guest_port } = &bound[i].target {
            r.push(Forward { host_port: *host_port, args: helper_command(netns_pid, *guest_port) });
            assert(forwards_of(r@) == before.push((*host_port, helper_args(netns_pid, *guest_port))));
        }
    }
    assert(all.take(all.len() as int) == all);
    r
}

/// What arguments tell the daemon's program to forward: the process whose
/// namespace to enter and the port there. Nothing if they are not those of a
/// helper; an error if a number is not readable.
pub open spec fn helper_mode(args: Seq<Seq<char>>) -> Option<Option<(u32, u16)>> {
    if args.len() == 3 && args[0] == PROXY_MODE_ARG@ {
        match (text::number(args[1], 0xffff_ffff), text::number(args[2], 65535)) {
            (Some(pid), Some(port)) => Some(Some((pid as u32, port as u16))),
            _ => Some(None),
        }
    } else {
        None
    }
}

/// What arguments tell the daemon's program to forward.
pub fn parse_helper_mode(args: &Vec<String>) -> (r: Option<Option<(u32, u16)>>)
    ensures
        r == helper_mode(text::views(args@)),
{
    if args.len() == 3 && text::same(args[0].as_str(), PROXY_MODE_ARG) {
        let pid = text::parse_number(&text::to_chars(args[1].as_str()), 0xffff_ffff);
        let port = text::parse_number(&text::to_chars(args[2].as_str()), 65535);
        match (pid, port) {
            (Some(pid), Some(port)) => Some(Some((pid as u32, port as u16))),
            _ => Some(None),
        }
    } else {
        None
    }
}

/// The daemon's program understands the arguments of its helpers.
pub proof fn helper_understands_its_arguments(netns_pid: u32, guest_port: u16)
    ensures
        helper_mode(helper_args(netns_pid, guest_port)) == Some(Some((netns_pid, guest_port))),
{
    text::decimal_reads_back(netns_pid as nat, 0xffff_ffff);
    text::decimal_reads_back(guest_port as nat, 65535);
}

/// The first process that a list of children names.
pub open spec fn first_child(children: Seq<char>) -> Option<u32> {
    let names = words::words(children);
    if names.len() == 0 {
        None
    } else {
        match text::number(names[0], 0xffff_ffff) {
            Some(pid) => Some(pid as u32),
            None => None,
        }
    }
}

fn first_child_of(children: &str) -> (r: Option<u32>)
    ensures
        r == first_child(children@),
{
    let names = words::split_words(&text::to_chars(children));
    let ghost all = words::words(children@);
    if names.len() == 0 {
        return None;
    }
    assert(names@[0]@ == all[0]);
    match text::parse_number(&text::to_chars(names[0].as_str()), 0xffff_ffff) {
        Some(pid) => Some(pid as u32),
        None => None,
    }
}

/// The first process that one of several lists of children names.
pub open spec fn first_named_child(lists: Seq<Seq<char>>) -> Option<u32>
    decreases lists.len(),
{
    if lists.len() == 0 {
        None
    } else {
        match first_named_child(lists.drop_last()) {
            Some(pid) => Some(pid),
            None => first_child(lists.last()),
        }
    }
}

/// A process inside the sandbox: the first child of `bwrap`, given the lists
/// of children of its main thread and of all its threads, as far as they can
/// be read.
pub fn netns_pid_for_bwrap(lists: &Vec<String>) -> (r: Option<u32>)
    ensures
        r == first_named_child(text::views(lists@)),
{
    let ghost all = text::views(lists@);
    let mut found: Option<u32> = None;
    for i in 0..lists.len()
        invariant
            all == text::views(lists@),
            found == first_named_child(all.take(i as int)),
    {
        assert(all.take(i + 1).drop_last() == all.take(i as int));
        if found.is_none() {
            found = first_child_of(lists[i].as_str());
        }
    }
    assert(all.take(all.len() as int) == all);
    found
}

/// How often a process inside the sandbox is looked for.
pub const NETNS_TRIES: u32 = 50;

/// What to do after the `attempt`-th look for a process inside the sandbox:
/// nothing means to look again.
pub fn wait_netns_pid(bwrap_pid: u32, attempt: u32, found: Option<u32>) -> (r: Option<
    Result<u32, String>,
>)
    ensures
        match found {
            Some(pid) => r == Some(Ok::<u32, String>(pid)),
            None => if attempt < NETNS_TRIES {
                r is None
            } else {
                r matches Some(Err(m)) && m@
                    == "timed out waiting for process inside bwrap netns (pid "@ + text::decimal(
                    bwrap_pid as nat,
                ) + ")"@
            },
        },
{
    match found {
        Some(pid) => Some(Ok(pid)),
        None => if attempt < NETNS_TRIES {
            None
        } else {
            Some(
                Err(
                    "timed out waiting for process inside bwrap netns (pid ".to_owned().concat(
                        text::decimal_text(bwrap_pid as u64).as_str(),
                    ).concat(")"),
                ),
            )
        },
    }
}

} // verus!
