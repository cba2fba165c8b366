//! The network namespace of a project: how it is made, found and connected.
use crate::netns;
use crate::netns::Sandbox;
use crate::paths;
use crate::quote;
use crate::text;
use crate::words;
use vstd::prelude::*;
use vstd::string::*;

verus! {

/// What a project needs is there only if both tools are and a user namespace
/// can be made.
pub proof fn needed_tools(bwrap: bool, slirp: bool, userns: bool, r: Result<(), String>)
    requires
        call_ensures(netns::require_tools, (bwrap, slirp, userns), r),
    ensures
        r is Ok <==> bwrap && slirp && userns,
        !bwrap ==> (r matches Err(m) && m@
            == "nealsd requires `bwrap` on PATH (install bubblewrap / slirp4netns)"@),
        bwrap && !slirp ==> (r matches Err(m) && m@
            == "nealsd requires `slirp4netns` on PATH (install bubblewrap / slirp4netns)"@),
{
    reveal_strlit("nealsd requires `");
    reveal_strlit("bwrap");
    reveal_strlit("slirp4netns");
    reveal_strlit("` on PATH (install bubblewrap / slirp4netns)");
    reveal_strlit("nealsd requires `bwrap` on PATH (install bubblewrap / slirp4netns)");
    reveal_strlit("nealsd requires `slirp4netns` on PATH (install bubblewrap / slirp4netns)");
    if let Err(m) = r {
        if !bwrap {
            assert(m@ =~= "nealsd requires `bwrap` on PATH (install bubblewrap / slirp4netns)"@);
        } else if !slirp {
            assert(m@
                =~= "nealsd requires `slirp4netns` on PATH (install bubblewrap / slirp4netns)"@);
        }
    }
}

/// Whether asking for a file is answered by what is there.
pub open spec fn answers_by<F: Fn(&String) -> bool>(is_file: F, there: Set<Seq<char>>) -> bool {
    forall|p: &String, b: bool| #[trigger] is_file.ensures((p,), b) ==> b == there.contains(p@)
}

proof fn lemma_found<F: Fn(&String) -> bool>(path: Seq<char>, is_file: F, there: Set<Seq<char>>)
    requires
        answers_by(is_file, there),
    ensures
        netns::file_found(path, is_file) ==> there.contains(path),
        netns::not_found(path, is_file) ==> !there.contains(path),
{
}

/// A program is found in the first directory of the search path that holds
/// it, and only if one does.
pub proof fn found_on_the_path<F: Fn(&String) -> bool>(
    search: Option<&String>,
    bin: &str,
    is_file: &F,
    r: Option<String>,
    chars: &Vec<char>,
    dirs: Vec<String>,
    there: Set<Seq<char>>,
    j: int,
)
    requires
        call_ensures(netns::which::<F>, (search, bin, is_file), r),
        search matches Some(s) ==> chars@ == s@ && call_ensures(words::split_on, (chars, ':'), dirs),
        search is None ==> dirs@.len() == 0,
        answers_by(*is_file, there),
        0 <= j < dirs@.len(),
        there.contains(paths::below(dirs@[j]@, bin@)),
        forall|i: int| 0 <= i < j ==> !there.contains(paths::below((#[trigger] dirs@[i])@, bin@)),
    ensures
        r matches Some(p) && p@ == paths::below(dirs@[j]@, bin@),
{
    let list = netns::candidates(search->0@, bin@);
    let all = text::views(dirs@);
    assert(all.len() == dirs@.len());
    assert(list.len() == all.len());
    assert forall|i: int| 0 <= i < list.len() implies #[trigger] list[i] == paths::below(
        dirs@[i]@,
        bin@,
    ) by {
        assert(all[i] == dirs@[i]@);
    }
    assert(list[j] == paths::below(dirs@[j]@, bin@));
    match r {
        None => {
            assert(netns::not_found(list[j], *is_file));
            lemma_found(list[j], *is_file, there);
        },
        Some(p) => {
            let i = choose|i: int|
                0 <= i < list.len() && p@ == #[trigger] list[i] && netns::file_found(
                    list[i],
                    *is_file,
                ) && netns::none_found(list.take(i), *is_file);
            lemma_found(list[i], *is_file, there);
            if j < i {
                assert(list.take(i)[j] == list[j]);
                assert(netns::not_found(list.take(i)[j], *is_file));
                lemma_found(list[j], *is_file, there);
            } else if i < j {
                assert(dirs@[i]@ == all[i]);
            }
        },
    }
}

/// A program that lies in no directory of the search path is not found.
pub proof fn not_found_on_the_path<F: Fn(&String) -> bool>(
    search: Option<&String>,
    bin: &str,
    is_file: &F,
    r: Option<String>,
    chars: &Vec<char>,
    dirs: Vec<String>,
    there: Set<Seq<char>>,
)
    requires
        call_ensures(netns::which::<F>, (search, bin, is_file), r),
        search matches Some(s) ==> chars@ == s@ && call_ensures(words::split_on, (chars, ':'), dirs),
        search is None ==> dirs@.len() == 0,
        answers_by(*is_file, there),
        forall|i: int|
            0 <= i < dirs@.len() ==> !there.contains(
                paths::below((#[trigger] dirs@[i])@, bin@),
            ),
    ensures
        r is None,
{
    if let Some(p) = r {
        let list = netns::candidates(search->0@, bin@);
        let all = text::views(dirs@);
        let i = choose|i: int|
            0 <= i < list.len() && p@ == #[trigger] list[i] && netns::file_found(list[i], *is_file)
                && netns::none_found(list.take(i), *is_file);
        lemma_found(list[i], *is_file, there);
        assert(all[i] == dirs@[i]@);
    }
}

/// The program of the daemon: the one that is named, if it is a file; else the
/// running program, if that is it; else the one next to it; else the one in
/// the directory above; else the one on the search path.
pub proof fn program_of_the_daemon<F: Fn(&String) -> bool>(
    named: Option<&String>,
    exe: Option<&String>,
    search: Option<&String>,
    is_file: &F,
    r: Result<String, String>,
    chars: &Vec<char>,
    trimmed: String,
    path: &str,
    last: Option<String>,
    beside: String,
    dir: Option<String>,
    d: &str,
    above: Option<String>,
    there: Set<Seq<char>>,
    on_path: Option<String>,
)
    requires
        call_ensures(netns::find_nealsd_exe::<F>, (named, exe, search, is_file), r),
        call_ensures(netns::which::<F>, (search, "nealsd", is_file), on_path),
        named matches Some(n) ==> chars@ == n@ && call_ensures(words::trimmed, (chars,), trimmed),
        exe matches Some(e) ==> path@ == e@,
        call_ensures(paths::file_name, (path,), last),
        call_ensures(paths::with_file_name, (path, "nealsd"), beside),
        call_ensures(paths::parent, (path,), dir),
        dir matches Some(x) ==> d@ == x@ && call_ensures(paths::parent, (d,), above),
        dir is None ==> above is None,
        answers_by(*is_file, there),
    ensures
        named is Some && there.contains(trimmed@) ==> (r matches Ok(p) && p@ == trimmed@),
        named is None || !there.contains(trimmed@) ==> {
            let itself = exe is Some && (last matches Some(l) && l@ == "nealsd"@);
            &&& itself ==> (r matches Ok(p) && p@ == path@)
            &&& exe is Some && !itself && there.contains(beside@) ==> (r matches Ok(p) && p@
                == beside@)
            &&& exe is Some && !itself && !there.contains(beside@) ==> (above matches Some(a)
                ==> (there.contains(paths::below(a@, "nealsd"@)) ==> (r matches Ok(p) && p@
                == paths::below(a@, "nealsd"@))))
            &&& (exe is None || (!itself && !there.contains(beside@) && (above matches Some(a)
                ==> !there.contains(paths::below(a@, "nealsd"@))))) ==> match on_path {
                None => r matches Err(m) && m@ == "failed to locate the nealsd binary"@,
                Some(q) => r matches Ok(p) && p@ == q@,
            }
        },
{
    if named is Some {
        lemma_found(trimmed@, *is_file, there);
    }
    if exe is Some {
        lemma_found(beside@, *is_file, there);
        if let Some(a) = above {
            lemma_found(paths::below(a@, "nealsd"@), *is_file, there);
        }
    }
    if let Some(s) = search {
        let list = netns::candidates(s@, "nealsd"@);
        if let Ok(p) = r {
            lemma_one_first(Some(p), on_path, list, *is_file, there);
        } else {
            lemma_one_first(None, on_path, list, *is_file, there);
        }
    }
}

proof fn lemma_one_first<F: Fn(&String) -> bool>(
    a: Option<String>,
    b: Option<String>,
    list: Seq<Seq<char>>,
    is_file: F,
    there: Set<Seq<char>>,
)
    requires
        answers_by(is_file, there),
    ensures
        netns::is_first_file(a, list, is_file) && netns::is_first_file(b, list, is_file) ==> (
        a is Some <==> b is Some),
        netns::is_first_file(a, list, is_file) && netns::is_first_file(b, list, is_file) ==> ((
        a,
        b,
    ) matches (Some(x), Some(y)) ==> x@ == y@),
{
    if netns::is_first_file(a, list, is_file) && netns::is_first_file(b, list, is_file) {
        assert forall|i: int| 0 <= i < list.len() implies (netns::not_found(
            #[trigger] list[i],
            is_file,
        ) ==> !there.contains(list[i])) by {
            lemma_found(list[i], is_file, there);
        }
        if let Some(x) = a {
            let i = choose|i: int|
                0 <= i < list.len() && x@ == #[trigger] list[i] && netns::file_found(
                    list[i],
                    is_file,
                ) && netns::none_found(list.take(i), is_file);
            lemma_found(list[i], is_file, there);
            if let Some(y) = b {
                let j = choose|j: int|
                    0 <= j < list.len() && y@ == #[trigger] list[j] && netns::file_found(
                        list[j],
                        is_file,
                    ) && netns::none_found(list.take(j), is_file);
                lemma_found(list[j], is_file, there);
                if i < j {
                    assert(netns::not_found(list.take(j)[i], is_file));
                } else if j < i {
                    assert(netns::not_found(list.take(i)[j], is_file));
                }
            } else {
                assert(netns::not_found(list[i], is_file));
            }
        } else if let Some(y) = b {
            let j = choose|j: int|
                0 <= j < list.len() && y@ == #[trigger] list[j] && netns::file_found(
                    list[j],
                    is_file,
                ) && netns::none_found(list.take(j), is_file);
            lemma_found(list[j], is_file, there);
            assert(netns::not_found(list[j], is_file));
        }
    }
}

/// Whether arguments stand one behind the other from a position on.
pub open spec fn run_of(args: Seq<String>, at: int, list: Seq<Seq<char>>) -> bool {
    &&& 0 <= at
    &&& at + list.len() <= args.len()
    &&& forall|k: int| 0 <= k < list.len() ==> #[trigger] list[k] == args[at + k]@
}

/// Whether arguments stand somewhere, one behind the other.
pub open spec fn holds_run(args: Seq<String>, list: Seq<Seq<char>>) -> bool {
    exists|at: int| #[trigger] run_of(args, at, list)
}

proof fn lemma_run(args: Seq<String>, front: Seq<Seq<char>>, list: Seq<Seq<char>>, back: Seq<Seq<char>>)
    requires
        text::views(args) == front + list + back,
    ensures
        run_of(args, front.len() as int, list),
{
    let all = text::views(args);
    assert(all.len() == args.len());
    assert forall|k: int| 0 <= k < list.len() implies #[trigger] list[k] == args[front.len()
        + k]@ by {
        assert(all[front.len() + k] == args[front.len() + k]@);
    }
}

/// The sandbox has a network and users of its own, with the ids of the user,
/// sees the file system, starts in the directory of the project, and runs a
/// shell that brings the loopback device up and then becomes the program.
pub proof fn sandbox_of_a_project(
    s: &Sandbox,
    program: &str,
    args: &Vec<String>,
    r: Vec<String>,
    line: &Vec<String>,
    quoted: String,
)
    requires
        call_ensures(netns::bwrap_command, (s, program, args), r),
        line@.len() == args@.len() + 1,
        line@[0]@ == program@,
        forall|i: int| 0 <= i < args@.len() ==> (#[trigger] args@[i])@ == line@[i + 1]@,
        call_ensures(quote::quote_words, (line,), quoted),
    ensures
        run_of(
            r@,
            0,
            seq![
                "--die-with-parent"@,
                "--unshare-user"@,
                "--uid"@,
                text::decimal(s.uid as nat),
                "--gid"@,
                text::decimal(s.gid as nat),
                "--unshare-net"@,
                "--cap-add"@,
                "CAP_NET_ADMIN"@,
                "--dev-bind"@,
                "/"@,
                "/"@,
                "--tmpfs"@,
                "/run"@,
            ],
        ),
        run_of(
            r@,
            r@.len() - 6,
            seq![
                "--chdir"@,
                s.project_dir@,
                "--"@,
                "/bin/sh"@,
                "-c"@,
                "ip link set lo up 2>/dev/null || true; exec "@ + quoted@,
            ],
        ),
        s.session_is_dir ==> holds_run(
            r@,
            seq![
                "--dir"@,
                "/run/user"@,
                "--bind"@,
                "/run/user/"@ + text::decimal(s.uid as nat),
                "/run/user/"@ + text::decimal(s.uid as nat),
            ],
        ),
        s.resolv_dest matches Some(d) ==> run_of(
            r@,
            r@.len() - 9,
            seq!["--ro-bind"@, s.resolv_conf@, d@],
        ),
{
    let all = text::views(r@);
    let start = netns::sandbox_start(s.uid, s.gid);
    let run = netns::run_mount(s.runtime@);
    let session = netns::session_mount(s.uid, s.session_is_dir);
    let mounts = netns::sandbox_mounts(*s);
    let resolv = netns::resolv_mount(
        s.resolv_conf@,
        match s.resolv_dest {
            Some(d) => Some(d@),
            None => None,
        },
    );
    let none = Seq::<Seq<char>>::empty();
    assert(mounts == run + session + resolv);
    assert(text::views(line@) == seq![program@] + text::views(args@)) by {
        let x = text::views(line@);
        let y = seq![program@] + text::views(args@);
        assert(x.len() == y.len());
        assert forall|i: int| 0 <= i < x.len() implies x[i] == y[i] by {
            if i > 0 {
                assert(args@[i - 1]@ == line@[i]@);
            }
        }
        assert(x == y);
    }
    let end = seq![
        "--chdir"@,
        s.project_dir@,
        "--"@,
        "/bin/sh"@,
        "-c"@,
        "ip link set lo up 2>/dev/null || true; exec "@ + quoted@,
    ];
    assert(all == start + mounts + end);
    assert(all == (start + mounts) + end + none);
    lemma_run(r@, start + mounts, end, none);
    let head = start + seq!["--tmpfs"@, "/run"@];
    let first = seq![
        "--die-with-parent"@,
        "--unshare-user"@,
        "--uid"@,
        text::decimal(s.uid as nat),
        "--gid"@,
        text::decimal(s.gid as nat),
        "--unshare-net"@,
        "--cap-add"@,
        "CAP_NET_ADMIN"@,
        "--dev-bind"@,
        "/"@,
        "/"@,
        "--tmpfs"@,
        "/run"@,
    ];
    assert(head == first);
    assert(run.take(2) == seq!["--tmpfs"@, "/run"@]);
    assert(run == run.take(2) + run.skip(2));
    assert(all == none + first + (run.skip(2) + session + resolv + end));
    lemma_run(r@, none, first, run.skip(2) + session + resolv + end);
    if s.session_is_dir {
        assert(all == (start + run) + session + (resolv + end));
        lemma_run(r@, start + run, session, resolv + end);
    }
    if let Some(d) = s.resolv_dest {
        let last = seq!["--ro-bind"@, s.resolv_conf@, d@];
        let dirs = resolv.take(resolv.len() - 3);
        assert(resolv == dirs + last);
        assert(all == (start + run + session + dirs) + last + end);
        lemma_run(r@, start + run + session + dirs, last, end);
    }
}

/// The directory for sockets stays visible in the sandbox where it lies below
/// the directory that is hidden otherwise.
pub proof fn sockets_stay_visible(
    s: &Sandbox,
    program: &str,
    args: &Vec<String>,
    r: Vec<String>,
    runtime: &str,
    rel: Option<Vec<String>>,
)
    requires
        call_ensures(netns::bwrap_command, (s, program, args), r),
        runtime@ == s.runtime@,
        call_ensures(paths::strip_prefix, (runtime, "/run"), rel),
    ensures
        rel is Some ==> holds_run(r@, seq!["--bind"@, s.runtime@, s.runtime@]),
{
    if rel is Some {
        let all = text::views(r@);
        let start = netns::sandbox_start(s.uid, s.gid);
        let run = netns::run_mount(s.runtime@);
        let session = netns::session_mount(s.uid, s.session_is_dir);
        let mounts = netns::sandbox_mounts(*s);
        let resolv = netns::resolv_mount(
            s.resolv_conf@,
            match s.resolv_dest {
                Some(d) => Some(d@),
                None => None,
            },
        );
        assert(mounts == run + session + resolv);
        let bind = seq!["--bind"@, s.runtime@, s.runtime@];
        let dirs = run.take(run.len() - 3);
        assert(run == dirs + bind);
        let end = all.skip((start + mounts).len() as int);
        assert(all == start + mounts + end);
        assert(all == (start + dirs) + bind + (session + resolv + end));
        lemma_run(r@, start + dirs, bind, session + resolv + end);
    }
}

/// Trying out a user namespace makes one with a network of its own, with the
/// ids of the user, and does nothing in it.
pub proof fn trial_of_a_namespace(uid: u32, gid: u32, r: Vec<String>)
    requires
        call_ensures(netns::userns_trial, (uid, gid), r),
    ensures
        r@.len() == 11,
        run_of(
            r@,
            0,
            seq![
                "--unshare-user"@,
                "--uid"@,
                text::decimal(uid as nat),
                "--gid"@,
                text::decimal(gid as nat),
                "--unshare-net"@,
                "--dev-bind"@,
                "/"@,
                "/"@,
                "--"@,
                "true"@,
            ],
        ),
{
    let none = Seq::<Seq<char>>::empty();
    let all = text::views(r@);
    assert(all.len() == r@.len());
    assert(all == none + netns::trial_args(uid, gid) + none);
    lemma_run(r@, none, netns::trial_args(uid, gid), none);
}

/// The network of a namespace is connected through a device of its own, kept
/// off the loopback device of the host.
pub proof fn connection_of_a_namespace(pid: u32, r: Vec<String>)
    requires
        call_ensures(netns::slirp_command, (pid,), r),
    ensures
        r@.len() == 5,
        run_of(
            r@,
            0,
            seq![
                "--configure"@,
                "--mtu=65520"@,
                "--disable-host-loopback"@,
                text::decimal(pid as nat),
                "tap0"@,
            ],
        ),
{
    let none = Seq::<Seq<char>>::empty();
    let all = text::views(r@);
    assert(all.len() == r@.len());
    assert(all == none + netns::slirp_args(pid) + none);
    lemma_run(r@, none, netns::slirp_args(pid), none);
}

/// A connection that ends at once is none.
pub proof fn connection_that_ends(exited: Option<String>, r: Result<(), String>)
    requires
        call_ensures(netns::slirp_settled, (exited,), r),
    ensures
        r is Ok <==> exited is None,
        exited matches Some(s) ==> (r matches Err(m) && m@ == "slirp4netns exited early ("@ + s@
            + ")"@),
{
}

/// The directory of the session of a user, and the file with the name server
/// of a namespace.
pub proof fn well_known_places(uid: u32, a: String, dir: &str, b: String)
    requires
        call_ensures(netns::session_dir_text, (uid,), a),
        call_ensures(netns::resolv_conf_path, (dir,), b),
    ensures
        a@ == "/run/user/"@ + text::decimal(uid as nat),
        b@ == paths::below(dir@, "resolv.conf"@),
        netns::SLIRP_RESOLV_CONF@ == "nameserver 10.0.2.3\n"@,
{
}

/// The program of the daemon forwards a port exactly where it is given three
/// arguments, of which the first says so; whatever the other two are then, it
/// does nothing else.
pub proof fn arguments_of_a_helper(args: &Vec<String>, r: Option<Option<(u32, u16)>>)
    requires
        call_ensures(netns::parse_helper_mode, (args,), r),
    ensures
        r is Some <==> args@.len() == 3 && args@[0]@ == "--netns-proxy"@,
{
    let all = text::views(args@);
    assert(all.len() == args@.len());
    if args@.len() == 3 {
        assert(all[0] == args@[0]@);
    }
}

/// Whether a text is blank.
pub open spec fn is_blank(s: Seq<char>) -> bool {
    forall|i: int| 0 <= i < s.len() ==> text::is_space(#[trigger] s[i])
}

proof fn lemma_blank(s: Seq<char>)
    requires
        is_blank(s),
    ensures
        words::words(s).len() == 0,
    decreases s.len(),
{
    if s.len() > 0 {
        assert(text::is_space(s[0]));
        assert forall|i: int| 0 <= i < s.skip(1).len() implies text::is_space(
            #[trigger] s.skip(1)[i],
        ) by {
            assert(s.skip(1)[i] == s[i + 1]);
        }
        lemma_blank(s.skip(1));
    }
}

proof fn lemma_first_word(a: Seq<char>, w: Seq<char>, b: Seq<char>)
    requires
        is_blank(a),
        w.len() > 0,
        words::no_space(w),
        b.len() == 0 || text::is_space(b[0]),
    ensures
        words::words(a + w + b).len() > 0,
        words::words(a + w + b)[0] == w,
    decreases a.len(),
{
    let s = a + w + b;
    if a.len() == 0 {
        assert(s == w + b);
        words::lemma_word_len(w, b);
        assert(s[0] == w[0]);
        assert(s.take(w.len() as int) == w);
    } else {
        assert(s[0] == a[0]);
        assert(s.skip(1) == a.skip(1) + w + b);
        assert forall|i: int| 0 <= i < a.skip(1).len() implies text::is_space(
            #[trigger] a.skip(1)[i],
        ) by {
            assert(a.skip(1)[i] == a[i + 1]);
        }
        lemma_first_word(a.skip(1), w, b);
    }
}

proof fn lemma_digits_are_words(n: nat)
    ensures
        words::no_space(text::decimal(n)),
        text::decimal(n).len() > 0,
{
    text::decimal_reads_back(n, n);
    let s = text::decimal(n);
    assert forall|i: int| 0 <= i < s.len() implies !text::is_space(#[trigger] s[i]) by {
        assert(text::is_digit(s[i]));
    }
}

proof fn lemma_named_child(lists: Seq<Seq<char>>, i: int, pid: u32)
    requires
        0 <= i < lists.len(),
        forall|j: int| 0 <= j < i ==> is_blank(#[trigger] lists[j]),
        netns::first_child(lists[i]) == Some(pid),
    ensures
        netns::first_named_child(lists) == Some(pid),
    decreases lists.len(),
{
    let n = lists.len() - 1;
    let front = lists.drop_last();
    if i < n {
        assert(front[i] == lists[i]);
        assert forall|j: int| 0 <= j < i implies is_blank(#[trigger] front[j]) by {
            assert(front[j] == lists[j]);
        }
        lemma_named_child(front, i, pid);
    } else {
        assert forall|j: int| 0 <= j < front.len() implies is_blank(#[trigger] front[j]) by {
            assert(front[j] == lists[j]);
        }
        lemma_no_child(front);
    }
}

proof fn lemma_no_child(lists: Seq<Seq<char>>)
    requires
        forall|j: int| 0 <= j < lists.len() ==> is_blank(#[trigger] lists[j]),
    ensures
        netns::first_named_child(lists) is None,
    decreases lists.len(),
{
    if lists.len() > 0 {
        let front = lists.drop_last();
        assert forall|j: int| 0 <= j < front.len() implies is_blank(#[trigger] front[j]) by {
            assert(front[j] == lists[j]);
        }
        lemma_no_child(front);
        assert(is_blank(lists[lists.len() - 1]));
        lemma_blank(lists.last());
    }
}

/// The process inside the sandbox is the first one that is named in the first
/// list that names any.
pub proof fn process_inside(
    lists: &Vec<String>,
    i: int,
    a: Seq<char>,
    pid: u32,
    b: Seq<char>,
    r: Option<u32>,
)
    requires
        call_ensures(netns::netns_pid_for_bwrap, (lists,), r),
        forall|j: int| 0 <= j < i && j < lists@.len() ==> is_blank((#[trigger] lists@[j])@),
        0 <= i < lists@.len() ==> lists@[i]@ == a + text::decimal(pid as nat) + b,
        is_blank(a),
        b.len() == 0 || text::is_space(b[0]),
        0 <= i <= lists@.len(),
    ensures
        i < lists@.len() ==> r == Some(pid),
        i == lists@.len() ==> r is None,
{
    let all = text::views(lists@);
    assert(all.len() == lists@.len());
    assert forall|j: int| 0 <= j < i implies is_blank(#[trigger] all[j]) by {
        assert(all[j] == lists@[j]@);
        assert(is_blank(lists@[j]@));
    }
    if i < lists@.len() {
        lemma_digits_are_words(pid as nat);
        lemma_first_word(a, text::decimal(pid as nat), b);
        text::decimal_reads_back(pid as nat, 0xffff_ffff);
        assert(all[i] == lists@[i]@);
        lemma_named_child(all, i, pid);
    } else {
        lemma_no_child(all);
    }
}

/// A process inside the sandbox is waited for up to fifty looks.
pub proof fn process_waited_for(
    bwrap: u32,
    attempt: u32,
    found: Option<u32>,
    r: Option<Result<u32, String>>,
)
    requires
        call_ensures(netns::wait_netns_pid, (bwrap, attempt, found), r),
    ensures
        found matches Some(p) ==> r == Some(Ok::<u32, String>(p)),
        found is None && attempt < 50 ==> r is None,
        found is None && attempt >= 50 ==> r matches Some(Err(_)),
{
}

/// The path below `/run` through the first of the given steps.
pub open spec fn run_below(rel: Seq<String>, n: int) -> Seq<char>
    decreases n,
{
    if n <= 0 {
        "/run"@
    } else {
        paths::below(run_below(rel, n - 1), rel[n - 1]@)
    }
}

proof fn lemma_dirs(rel: Seq<String>, n: int, k: int)
    requires
        0 <= n <= rel.len(),
    ensures
        netns::run_path(text::views(rel).take(n)) == run_below(rel, n),
        netns::dirs_between(text::views(rel).take(n)).len() == if n <= 1 {
            0
        } else {
            2 * (n - 1)
        },
        0 < k < n ==> netns::dirs_between(text::views(rel).take(n))[2 * (k - 1)] == "--dir"@,
        0 < k < n ==> netns::dirs_between(text::views(rel).take(n))[2 * (k - 1) + 1] == run_below(
            rel,
            k,
        ),
    decreases n,
{
    let all = text::views(rel);
    if n > 0 {
        lemma_dirs(rel, n - 1, k);
        assert(all.take(n).drop_last() == all.take(n - 1));
        assert(all.take(n).last() == rel[n - 1]@);
        if k == n - 1 {
            lemma_dirs(rel, n - 1, n - 1);
        }
    }
}

/// The directories above the one for sockets are made first, the outermost
/// before the others, and then it is shown itself.
pub proof fn directories_for_sockets(
    s: &Sandbox,
    program: &str,
    args: &Vec<String>,
    r: Vec<String>,
    runtime: &str,
    rel: Vec<String>,
    k: int,
)
    requires
        call_ensures(netns::bwrap_command, (s, program, args), r),
        runtime@ == s.runtime@,
        call_ensures(paths::strip_prefix, (runtime, "/run"), Some(rel)),
        rel@.len() > 0,
    ensures
        0 < k < rel@.len() ==> run_of(r@, 14 + 2 * (k - 1), seq!["--dir"@, run_below(rel@, k)]),
        run_of(r@, 14 + 2 * (rel@.len() - 1), seq!["--bind"@, s.runtime@, s.runtime@]),
{
    let all = text::views(r@);
    let start = netns::sandbox_start(s.uid, s.gid);
    let run = netns::run_mount(s.runtime@);
    let session = netns::session_mount(s.uid, s.session_is_dir);
    let mounts = netns::sandbox_mounts(*s);
    let resolv = netns::resolv_mount(
        s.resolv_conf@,
        match s.resolv_dest {
            Some(d) => Some(d@),
            None => None,
        },
    );
    assert(mounts == run + session + resolv);
    let n = rel@.len() as int;
    lemma_dirs(rel@, n, k);
    assert(text::views(rel@).take(n) == text::views(rel@));
    let dirs = netns::dirs_between(text::views(rel@));
    let bind = seq!["--bind"@, s.runtime@, s.runtime@];
    let tmpfs = seq!["--tmpfs"@, "/run"@];
    assert(run == tmpfs + dirs + bind);
    let end = all.skip((start + mounts).len() as int);
    assert(all == start + mounts + end);
    let back = session + resolv + end;
    assert(all == (start + tmpfs + dirs) + bind + back);
    assert((start + tmpfs).len() == 14);
    lemma_run(r@, start + tmpfs + dirs, bind, back);
    if 0 < k < n {
        let at = 2 * (k - 1);
        let one = seq!["--dir"@, run_below(rel@, k)];
        assert(dirs == dirs.take(at) + one + dirs.skip(at + 2)) by {
            assert(dirs[at] == one[0]);
            assert(dirs[at + 1] == one[1]);
        }
        assert(all == (start + tmpfs + dirs.take(at)) + one + (dirs.skip(at + 2) + bind + back));
        lemma_run(r@, start + tmpfs + dirs.take(at), one, dirs.skip(at + 2) + bind + back);
    }
}

/// Where the name server of the host is looked up below `/run`, the
/// directories above it are made before it is replaced.
pub proof fn directories_for_the_name_server(
    s: &Sandbox,
    program: &str,
    args: &Vec<String>,
    r: Vec<String>,
    d: String,
    dest: &str,
    rel: Vec<String>,
    k: int,
)
    requires
        call_ensures(netns::bwrap_command, (s, program, args), r),
        s.resolv_dest == Some(d),
        dest@ == d@,
        call_ensures(paths::strip_prefix, (dest, "/run"), Some(rel)),
        0 < k < rel@.len(),
    ensures
        run_of(
            r@,
            r@.len() - 9 - 2 * (rel@.len() - k),
            seq!["--dir"@, run_below(rel@, k)],
        ),
{
    let all = text::views(r@);
    assert(all.len() == r@.len());
    let start = netns::sandbox_start(s.uid, s.gid);
    let run = netns::run_mount(s.runtime@);
    let session = netns::session_mount(s.uid, s.session_is_dir);
    let mounts = netns::sandbox_mounts(*s);
    let resolv = netns::resolv_mount(s.resolv_conf@, Some(d@));
    assert(mounts == run + session + resolv);
    let n = rel@.len() as int;
    lemma_dirs(rel@, n, k);
    assert(text::views(rel@).take(n) == text::views(rel@));
    let dirs = netns::dirs_between(text::views(rel@));
    let last = seq!["--ro-bind"@, s.resolv_conf@, d@];
    assert(resolv == dirs + last);
    let end = all.skip((start + mounts).len() as int);
    assert(all == start + mounts + end);
    let at = 2 * (k - 1);
    let one = seq!["--dir"@, run_below(rel@, k)];
    assert(dirs == dirs.take(at) + one + dirs.skip(at + 2)) by {
        assert(dirs[at] == one[0]);
        assert(dirs[at + 1] == one[1]);
    }
    let front = start + run + session + dirs.take(at);
    assert(all == front + one + (dirs.skip(at + 2) + last + end));
    lemma_run(r@, front, one, dirs.skip(at + 2) + last + end);
}

} // verus!
