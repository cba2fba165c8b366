//! What the user types, sees and enters: shells, keys, commands and logs.
use crate::cli;
use crate::client;
use crate::client::{EnsureStep, SocketStep};
use crate::handler;
use crate::handler::Handling;
use crate::ipc;
use crate::ipc::{ProjectRuntime, Request, Response};
use crate::live;
use crate::live::{Attach, Key, LiveNext, LiveOutcome, LiveView};
use crate::logs;
use crate::netns;
use crate::paths;
use crate::quote;
use crate::repl;
use crate::repl::ReplCommand;
use crate::shell;
use crate::shell::{ShellKind, ShellPlan, WatchStep};
use crate::state::AppState;
use crate::style;
use crate::text;
use crate::words;
use crate::xdg;
use crate::xdg::Dirs;
use vstd::prelude::*;
use vstd::string::*;

verus! {

// ---------------------------------------------------------------------------
// Shells
// ---------------------------------------------------------------------------
/// The shell of the user, and what kind it is by the name of its program,
/// wherever that lies.
pub proof fn shell_of_the_user(
    given: Option<&String>,
    program: String,
    path: &str,
    last: Option<String>,
    kind: ShellKind,
)
    requires
        call_ensures(shell::shell_executable, (given,), program),
        path@ == program@,
        call_ensures(paths::file_name, (path,), last),
        call_ensures(shell::detect_shell, (path,), kind),
    ensures
        given matches Some(s) ==> program@ == s@,
        given is None ==> program@ == "bash"@,
        last matches Some(n) ==> (kind is Bash <==> n@ == "bash"@),
        last matches Some(n) ==> (kind is Zsh <==> n@ == "zsh"@),
        last is None ==> kind is Bash,
{
    reveal_strlit("bash");
    reveal_strlit("zsh");
    assert("bash"@.len() == 4);
    assert("zsh"@.len() == 3);
}

/// The start file of `bash` reads that of the user, then says which project
/// the shell is in, and shows it in the prompt.
pub proof fn start_file_of_bash(project: &str, home: &str, r: String)
    requires
        call_ensures(shell::bash_rc_text, (project, home), r),
    ensures
        r@ == "if [ -f \""@ + home@ + "/.bashrc\" ]; then\n  . \""@ + home@
            + "/.bashrc\"\nfi\nexport NEALS_PROJECT=\""@ + project@
            + "\"\nif [ -t 1 ] && [ -z \"${NO_COLOR:-}\" ]; then\n  PS1='\\[\\e[35m\\]neals:"@
            + project@ + "\\[\\e[0m\\] \\w \\$ '\nelse\n  PS1='neals:"@ + project@
            + " \\w \\$ '\nfi\nif [ -t 1 ]; then\n  clear 2>/dev/null || printf '\\033[H\\033[2J'\nfi\n"@,
{
}

/// The start file of `zsh` reads that of the user, then says which project
/// the shell is in, and shows it in the prompt.
pub proof fn start_file_of_zsh(project: &str, home: &str, r: String)
    requires
        call_ensures(shell::zsh_rc_text, (project, home), r),
    ensures
        r@ == "if [ -f \""@ + home@ + "/.zshrc\" ]; then\n  source \""@ + home@
            + "/.zshrc\"\nfi\nexport NEALS_PROJECT=\""@ + project@
            + "\"\nif [[ -o interactive ]] && [[ -z \"${NO_COLOR:-}\" ]]; then\n  PROMPT=\"%F{magenta}neals:"@
            + project@ + "%f %~ %# \"\nelse\n  PROMPT=\"neals:"@ + project@
            + " %~ %# \"\nfi\nif [[ -t 1 ]]; then\n  clear 2>/dev/null || printf '\\033[H\\033[2J'\nfi\n"@,
{
}

/// A shell in a project is opened through `devenv`. Where it is one that gets
/// a prompt of its own, that comes from a start file which is kept apart for
/// each project, and the shell is told where the file is.
pub proof fn shell_in_a_project(
    project: &str,
    program: &str,
    dirs: &Dirs,
    home: &str,
    r: Result<ShellPlan, String>,
    kind: ShellKind,
    logs_dir: Result<String, String>,
    bash: String,
    zsh: String,
)
    requires
        call_ensures(shell::enter_project_shell, (project, program, dirs, home), r),
        call_ensures(shell::detect_shell, (program,), kind),
        call_ensures(xdg::state_dir, (dirs,), logs_dir),
        call_ensures(shell::bash_rc_text, (project, home), bash),
        call_ensures(shell::zsh_rc_text, (project, home), zsh),
    ensures
        r is Err <==> logs_dir is Err && !(kind is Other),
        r matches Ok(p) ==> p.args@.len() >= 4 && p.args@[0]@ == "--quiet"@ && p.args@[1]@
            == "shell"@ && p.args@[2]@ == program@ && p.args@[3]@ == "-i"@,
        r matches Ok(p) ==> (p.warning is Some <==> kind is Other),
        kind is Other ==> (r matches Ok(p) ==> (p.warning matches Some(w) && w@
            == "branded prompt not configured for `"@ + program@ + "`"@)),
        kind is Other ==> (r matches Ok(p) ==> p.args@.len() == 4 && p.dir is None && p.file is None
            && p.zdotdir is None),
        kind is Bash ==> ((r, logs_dir) matches (Ok(p), Ok(d)) ==> p.args@.len() == 6
            && p.args@[4]@ == "--rcfile"@ && p.args@[5]@ == paths::below(d@, "bashrc-"@ + project@)
            && (p.dir matches Some(x) && x@ == d@) && (p.file matches Some(f) && f.0@
            == p.args@[5]@ && f.1@ == bash@) && p.zdotdir is None),
        kind is Zsh ==> ((r, logs_dir) matches (Ok(p), Ok(d)) ==> p.args@.len() == 4 && (
        p.zdotdir matches Some(z) && z@ == paths::below(d@, "zsh-"@ + project@) && (
        p.dir matches Some(x) && x@ == z@) && (p.file matches Some(f) && f.0@ == paths::below(
            z@,
            ".zshrc"@,
        ) && f.1@ == zsh@))),
{
    if let Ok(p) = r {
        let args = text::views(p.args@);
        assert(args.len() == p.args@.len());
        assert(args[0] == p.args@[0]@);
        assert(args[1] == p.args@[1]@);
        assert(args[2] == p.args@[2]@);
        assert(args[3] == p.args@[3]@);
        if kind is Bash {
            assert(args[4] == p.args@[4]@);
            assert(args[5] == p.args@[5]@);
        }
    }
}

/// A command for a project is handed to the shell as one line, each word of
/// it quoted. Without a command there is nothing to run.
pub proof fn command_in_a_project(
    command: &Vec<String>,
    r: Result<String, String>,
    quoted: String,
)
    requires
        call_ensures(shell::run_project_exec, (command,), r),
        call_ensures(quote::quote_words, (command,), quoted),
    ensures
        r is Ok <==> command@.len() > 0,
        r matches Ok(s) ==> s@ == quoted@ + "\n"@,
{
}

/// Whether the `i`-th report is the first on a project of that name.
pub open spec fn first_report(list: Seq<ProjectRuntime>, name: Seq<char>, i: int) -> bool {
    &&& 0 <= i < list.len()
    &&& list[i].name@ == name
    &&& forall|j: int| 0 <= j < i ==> (#[trigger] list[j]).name@ != name
}

/// Whether no report is on a project of that name.
pub open spec fn no_report(list: Seq<ProjectRuntime>, name: Seq<char>) -> bool {
    forall|j: int| 0 <= j < list.len() ==> (#[trigger] list[j]).name@ != name
}

pub(crate) proof fn lemma_first_report(list: Seq<ProjectRuntime>, name: Seq<char>, i: int)
    ensures
        first_report(list, name, i) <==> cli::is_first_running(ipc::runtimes(list), name, i),
        no_report(list, name) <==> !cli::is_among(ipc::runtimes(list), name),
{
    let all = ipc::runtimes(list);
    assert(all.len() == list.len());
    assert(forall|j: int| 0 <= j < all.len() ==> #[trigger] all[j] == list[j]@);
    if cli::is_first_running(all, name, i) {
        assert forall|j: int| 0 <= j < i implies (#[trigger] list[j]).name@ != name by {
            assert(all[j].name != name);
        }
    }
    if first_report(list, name, i) {
        assert forall|j: int| 0 <= j < i implies (#[trigger] all[j]).name != name by {
            assert(list[j].name@ != name);
        }
    }
    if !cli::is_among(all, name) {
        assert forall|j: int| 0 <= j < list.len() implies (#[trigger] list[j]).name@ != name by {
            assert(all[j].name == list[j].name@);
        }
    }
    if no_report(list, name) && cli::is_among(all, name) {
        let j = choose|j: int| 0 <= j < all.len() && (#[trigger] all[j]).name == name;
        assert(list[j].name@ == name);
    }
}

/// A shell enters the namespace that the daemon reports for the project, and
/// none where the project does not run, has no such namespace, or the daemon
/// says something else.
pub proof fn namespace_to_enter(
    response: &Response,
    project: &str,
    r: Result<u32, String>,
    i: int,
)
    requires
        call_ensures(shell::require_netns_pid, (response, project), r),
    ensures
        response matches Response::Status { projects } ==> (first_report(
            projects@,
            project@,
            i,
        ) ==> (r is Ok <==> projects@[i].netns_pid != 0)),
        response matches Response::Status { projects } ==> (first_report(
            projects@,
            project@,
            i,
        ) ==> (r matches Ok(p) ==> p == projects@[i].netns_pid)),
        response matches Response::Status { projects } ==> (no_report(projects@, project@)
            ==> r is Err),
        response matches Response::Error { message } ==> (r matches Err(m) && m@ == message@),
        response matches Response::Pong ==> r is Err,
        response matches Response::Done ==> r is Err,
{
    if let Response::Status { projects } = response {
        lemma_first_report(projects@, project@, i);
        let all = ipc::runtimes(projects@);
        if first_report(projects@, project@, i) {
            assert(cli::is_first_running(all, project@, i));
            assert(all[i].name == project@);
            assert(cli::is_among(all, project@));
            let k = choose|k: int| #[trigger]
                cli::is_first_running(all, project@, k) && if all[k].netns_pid == 0 {
                    r matches Err(m) && m@ == "project `"@ + project@
                        + "` has no netns pid (daemon too old?)"@
                } else {
                    r == Ok::<u32, String>(all[k].netns_pid)
                };
            assert(k == i);
            assert(all[i] == projects@[i]@);
        }
    }
}

/// A shell goes on while its namespace is there and the daemon, if it can
/// say, reports its project.
pub proof fn shell_goes_on<F: Fn(&String) -> bool, S: Fn() -> Result<Response, String>>(
    project: &str,
    pid: u32,
    exists_at: &F,
    status: &S,
    r: bool,
    there: bool,
    answer: Result<Response, String>,
)
    requires
        call_ensures(
            shell::project_session_alive::<F, S>,
            (project, pid, exists_at, status),
            r,
        ),
        forall|p: &String, b: bool| #[trigger]
            exists_at.ensures((p,), b) && p@ == "/proc/"@ + text::decimal(pid as nat) ==> b
                == there,
        forall|a: Result<Response, String>| #[trigger] status.ensures((), a) ==> a == answer,
    ensures
        !there ==> !r,
        there ==> (answer matches Ok(Response::Status { projects }) ==> (r <==> !no_report(
            projects@,
            project@,
        ))),
        there && !(answer matches Ok(Response::Status { .. })) ==> r,
{
    if let Ok(Response::Status { projects }) = answer {
        lemma_first_report(projects@, project@, 0);
    }
    let dir = shell::process_dir(pid);
    if netns::not_found(dir, *exists_at) {
        let p = choose|p: String| p@ == dir && #[trigger] exists_at.ensures((&p,), false);
        assert(exists_at.ensures((&p,), false));
    }
    if netns::file_found(dir, *exists_at) {
        let p = choose|p: String| p@ == dir && #[trigger] exists_at.ensures((&p,), true);
        assert(exists_at.ensures((&p,), true));
    }
}

/// A command enters the user, network and mount namespaces of a project, in
/// the directory of the project, and runs `devenv` there.
pub proof fn entering_a_namespace(dir: &str, pid: u32, args: &Vec<String>, r: Vec<String>, i: int)
    requires
        call_ensures(shell::nsenter_command, (dir, pid, args), r),
        0 <= i < args@.len(),
    ensures
        r@.len() == 9 + args@.len(),
        r@[0]@ == "--user"@,
        r@[1]@ == "--net"@,
        r@[2]@ == "--mount"@,
        r@[3]@ == "--preserve-credentials"@,
        r@[4]@ == "-t"@,
        r@[5]@ == text::decimal(pid as nat),
        r@[6]@ == "--wdns="@ + dir@,
        r@[7]@ == "--"@,
        r@[8]@ == "devenv"@,
        r@[9 + i]@ == args@[i]@,
{
    let all = text::views(r@);
    assert(all.len() == r@.len());
    assert(text::views(args@).len() == args@.len());
    assert forall|k: int| 0 <= k < all.len() implies #[trigger] all[k] == r@[k]@ by {}
    assert(all[0] == "--user"@);
    assert(all[1] == "--net"@);
    assert(all[2] == "--mount"@);
    assert(all[3] == "--preserve-credentials"@);
    assert(all[4] == "-t"@);
    assert(all[5] == text::decimal(pid as nat));
    assert(all[6] == "--wdns="@ + dir@);
    assert(all[7] == "--"@);
    assert(all[8] == "devenv"@);
    assert(all[9 + i] == text::views(args@)[i]);
}

/// A shell leaves the code that it ends with, as far as that is one; where it
/// was ended, or the code is none, it leaves a failure. While it runs it is
/// ended only if its project is gone.
pub proof fn code_of_a_shell(
    code: Option<i32>,
    r: u8,
    exited: Option<Option<i32>>,
    alive: bool,
    project: &str,
    step: WatchStep,
)
    requires
        call_ensures(shell::exit_code_from_status, (code,), r),
        call_ensures(shell::run_watched_shell, (exited, alive, project), step),
        exited matches Some(c) ==> c == code,
    ensures
        code matches Some(c) ==> (0 <= c <= 255 ==> r == c),
        code matches Some(c) ==> (c < 0 || c > 255 ==> r == 1),
        code is None ==> r == 1,
        exited is Some ==> step == WatchStep::Leave(r),
        exited is None && alive ==> step is Again,
        exited is None && !alive ==> step is End,
{
}

// ---------------------------------------------------------------------------
// The live view
// ---------------------------------------------------------------------------
/// What a key means: with control, C and Q leave the view, X stops the
/// project and B opens a shell; Q alone leaves the view too; nothing else
/// means anything.
pub proof fn meaning_of_a_key(k: Key, r: Option<LiveOutcome>)
    requires
        call_ensures(live::key_meaning, (k,), r),
    ensures
        r == Some(LiveOutcome::Detached) <==> (k.control && k.character == Some('c')) || (k.control
            && k.character == Some('q')) || (k.plain && k.character == Some('q')),
        r == Some(LiveOutcome::Stopped) <==> k.control && k.character == Some('x'),
        r == Some(LiveOutcome::Shell) <==> k.control && k.character == Some('b'),
        r != Some(LiveOutcome::Exited),
{
}

/// Keys count only when they go down, and leave the view only if they mean
/// something. Otherwise a round goes by, and every fifth of them looks for new
/// processes.
pub proof fn round_of_the_view(
    v: &mut LiveView,
    key: Option<Key>,
    r: LiveNext,
    means: Option<LiveOutcome>,
)
    requires
        call_ensures(LiveView::on_input, (v, key), r),
        key matches Some(k) ==> call_ensures(live::key_meaning, (k,), means),
        key is None ==> means is None,
    ensures
        key matches Some(k) ==> (!k.press ==> r == LiveNext::Again && *final(v) == *old(v)),
        key matches Some(k) ==> (k.press ==> (means matches Some(o) ==> r == LiveNext::Leave(o)
            && *final(v) == *old(v))),
        key is None || (key->0.press && means is None) ==> {
            &&& r is Round
            &&& final(v).ticks == if old(v).ticks == 255 {
                0
            } else {
                old(v).ticks + 1
            }
            &&& r == (LiveNext::Round { discover: final(v).ticks as int % 5 == 0 })
            &&& final(v).has_mux == old(v).has_mux
            &&& final(v).mux_empty == old(v).mux_empty
            &&& final(v).merged == old(v).merged
            &&& final(v).width == old(v).width
        },
{
}

/// The view ends when the daemon says that the project does not run, and not
/// when it cannot say.
pub proof fn view_of_a_project_that_ended(
    v: &LiveView,
    running: Option<bool>,
    r: Option<LiveOutcome>,
)
    requires
        call_ensures(LiveView::on_running, (v, running), r),
    ensures
        r is Some <==> running == Some(false),
        r matches Some(o) ==> o == LiveOutcome::Exited,
{
}

/// The merged log is let go with the first log of a single process, and never
/// taken up again. Names take the room of the widest so far.
pub proof fn merged_log_is_let_go(v: &mut LiveView, empty: bool, width: usize)
    requires
        call_ensures(LiveView::on_refresh, (v, empty, width), ()),
    ensures
        final(v).merged <==> old(v).merged && !(old(v).mux_empty && !empty),
        final(v).mux_empty == empty,
        final(v).width >= width,
        final(v).width >= old(v).width,
        final(v).width == width || final(v).width == old(v).width,
        final(v).ticks == old(v).ticks,
        final(v).has_mux == old(v).has_mux,
{
}

/// The name in front of a line takes the room of the widest name there is.
pub proof fn room_for_names(v: &LiveView, mux: Option<usize>, r: usize)
    requires
        call_ensures(LiveView::line_width, (v, mux), r),
    ensures
        r >= v.width,
        mux matches Some(w) ==> r >= w,
        r == v.width || Some(r) == mux,
{
}

/// How the merged log is opened: behind a position that is given, else at its
/// end for a view that came with the project, else with its last hundred
/// lines.
pub proof fn opening_the_merged_log(from_start: bool, from: Option<u64>, r: Attach)
    requires
        call_ensures(live::attach_devenv_merged, (from_start, from), r),
    ensures
        from matches Some(o) ==> r == Attach::FromOffset(o),
        from is None && from_start ==> r == Attach::AtEnd,
        from is None && !from_start ==> r == Attach::WithTail(100),
{
}

/// Only stopping a project is told as a success when the view is left.
pub proof fn leaving_the_view(o: LiveOutcome, project: &str, r: (bool, String))
    requires
        call_ensures(live::leave_message, (o, project), r),
    ensures
        r.0 <==> o == LiveOutcome::Stopped,
        o == LiveOutcome::Stopped ==> r.1@ == "stopped `"@ + project@ + "`"@,
        o == LiveOutcome::Exited ==> r.1@ == "`"@ + project@ + "` is no longer running"@,
        o == LiveOutcome::Shell ==> r.1@ == "entering `"@ + project@ + "` shell"@,
        o == LiveOutcome::Detached ==> r.1@ == "detached from `"@ + project@
            + "` (still running; `neals logs "@ + project@ + " -f` to reattach)"@,
{
}

// ---------------------------------------------------------------------------
// Logs
// ---------------------------------------------------------------------------
/// The tail of a log is its last lines, as many as are asked for, in order.
pub proof fn tail_of_a_log(
    content: &str,
    n: usize,
    r: Vec<String>,
    chars: &Vec<char>,
    lines: Vec<String>,
    i: int,
)
    requires
        call_ensures(logs::tail_lines, (content, n), r),
        chars@ == content@,
        call_ensures(words::split_lines, (chars,), lines),
        0 <= i < r@.len(),
    ensures
        r@.len() <= n,
        r@.len() <= lines@.len(),
        r@.len() == n || r@.len() == lines@.len(),
        r@[i]@ == lines@[lines@.len() - r@.len() + i]@,
{
    let said = text::views(r@);
    let all = text::views(lines@);
    assert(said.len() == r@.len());
    assert(all.len() == lines@.len());
    assert(said[i] == r@[i]@);
    assert(all[lines@.len() - r@.len() + i] == lines@[lines@.len() - r@.len() + i]@);
}

/// A line of a log stands behind the name of its process, which takes at
/// least the given room.
pub proof fn line_of_a_log(name: &str, width: usize, line: &str, r: String)
    requires
        call_ensures(logs::format_process_line, (name, width, line), r),
    ensures
        ({
            let room = if name@.len() >= width {
                name@.len() as int
            } else {
                width as int
            };
            &&& r@.len() == room + 3 + line@.len()
            &&& r@.take(name@.len() as int) == name@
            &&& forall|i: int| name@.len() <= i < room ==> #[trigger] r@[i] == ' '
            &&& r@.subrange(room, room + 3) == " | "@
            &&& r@.skip(room + 3) == line@
        }),
{
    reveal_strlit(" | ");
    let p = style::padded(name@, width as nat);
    let room = p.len() as int;
    assert(r@ == p + " | "@ + line@);
    assert(p.take(name@.len() as int) == name@);
    assert(r@.take(name@.len() as int) == name@);
    assert(r@.subrange(room, room + 3) == " | "@);
    assert(r@.skip(room + 3) == line@);
}

/// A text is filled up with spaces, and never cut.
pub proof fn filled_up(s: &str, width: usize, r: String)
    requires
        call_ensures(style::pad_right, (s, width), r),
    ensures
        r@.len() >= width,
        r@.len() == width || r@ == s@,
        r@.take(s@.len() as int) == s@,
        forall|i: int| s@.len() <= i < r@.len() ==> #[trigger] r@[i] == ' ',
{
    assert(r@.take(s@.len() as int) == s@);
}

/// Colours are used on a terminal only, and not where the user does without.
pub proof fn colours_on_a_terminal(no: bool, cli: Option<&String>, out: bool, err: bool, r: bool)
    requires
        call_ensures(style::use_color, (no, cli, out, err), r),
    ensures
        no ==> !r,
        !out && !err ==> !r,
        cli matches Some(c) ==> (c@ == "0"@ ==> !r),
        !no && (out || err) && (cli matches Some(c) ==> c@ != "0"@) ==> r,
{
}

/// Without colours nothing is written but the text and what kind it is of.
pub proof fn lines_without_colours(msg: &str, a: String, b: String, c: String, d: String, e: String)
    requires
        call_ensures(style::ok_line, (msg, false), a),
        call_ensures(style::warn_line, (msg, false), b),
        call_ensures(style::err_line, (msg, false), c),
        call_ensures(style::dim_line, (msg, false), d),
        call_ensures(style::accent, (msg, false), e),
    ensures
        a@ == "ok: "@ + msg@,
        b@ == "warning: "@ + msg@,
        c@ == "error: "@ + msg@,
        d@ == msg@,
        e@ == msg@,
{
}

/// With colours a line begins with its mark in the colour of its kind.
pub proof fn lines_with_colours(msg: &str, a: String, b: String, c: String, d: String, e: String)
    requires
        call_ensures(style::ok_line, (msg, true), a),
        call_ensures(style::warn_line, (msg, true), b),
        call_ensures(style::err_line, (msg, true), c),
        call_ensures(style::dim_line, (msg, true), d),
        call_ensures(style::accent, (msg, true), e),
    ensures
        a@ == "\x1b[32m"@ + "✔"@ + "\x1b[39m"@ + " "@ + msg@,
        b@ == "\x1b[33m"@ + "⚠"@ + "\x1b[39m"@ + " "@ + msg@,
        c@ == "\x1b[31m"@ + "✖"@ + "\x1b[39m"@ + " "@ + msg@,
        d@ == "\x1b[2m"@ + msg@ + "\x1b[0m"@,
        e@ == "\x1b[36m"@ + msg@ + "\x1b[39m"@,
{
}

/// The mark of a check tells what passed, what had to pass and did not, and
/// what did not have to; colours change nothing about that.
pub proof fn mark_of_a_check(ok: bool, required: bool, plain: String, coloured: String)
    requires
        call_ensures(style::format_mark, (ok, required, false), plain),
        call_ensures(style::format_mark, (ok, required, true), coloured),
    ensures
        ok ==> plain@ == "ok"@ && coloured@ == "\x1b[32m"@ + "ok"@ + "\x1b[39m"@,
        !ok && required ==> plain@ == "FAIL"@ && coloured@ == "\x1b[1m"@ + ("\x1b[31m"@ + "FAIL"@
            + "\x1b[39m"@) + "\x1b[0m"@,
        !ok && !required ==> plain@ == "WARN"@ && coloured@ == "\x1b[33m"@ + "WARN"@
            + "\x1b[39m"@,
{
}

// ---------------------------------------------------------------------------
// The command loop
// ---------------------------------------------------------------------------
/// Whether some word of a line behind the first is `w`.
pub open spec fn has_word(list: Seq<String>, w: Seq<char>) -> bool {
    exists|i: int| 1 <= i < list.len() && (#[trigger] list[i])@ == w
}

proof fn lemma_has_word(list: Seq<String>, w: Seq<char>)
    requires
        list.len() > 0,
    ensures
        has_word(list, w) <==> text::views(list).skip(1).contains(w),
{
    let all = text::views(list);
    let rest = all.skip(1);
    if has_word(list, w) {
        let i = choose|i: int| 1 <= i < list.len() && (#[trigger] list[i])@ == w;
        assert(rest[i - 1] == all[i]);
        assert(all[i] == list[i]@);
    }
    if rest.contains(w) {
        let i = rest.index_of(w);
        assert(rest[i] == all[i + 1]);
        assert(all[i + 1] == list[i + 1]@);
    }
}

/// Whether a word is one that the command loop knows.
pub open spec fn is_known(w: Seq<char>) -> bool {
    ||| w == "help"@ || w == "?"@ || w == "quit"@ || w == "exit"@ || w == "q"@
    ||| w == "list"@ || w == "status"@ || w == "doctor"@
    ||| w == "up"@ || w == "down"@ || w == "logs"@ || w == "bash"@
    ||| w == "register"@ || w == "unregister"@ || w == "prune"@
}

proof fn lemma_words_apart()
    ensures
        "help"@ != "?"@,
        "help"@[0] == 'h',
        "?"@[0] == '?',
        "quit"@[0] == 'q' && "quit"@.len() == 4,
        "exit"@[0] == 'e',
        "q"@[0] == 'q' && "q"@.len() == 1,
        "list"@[0] == 'l' && "list"@[1] == 'i',
        "logs"@[0] == 'l' && "logs"@[1] == 'o',
        "status"@[0] == 's',
        "doctor"@[0] == 'd' && "doctor"@.len() == 6,
        "down"@[0] == 'd' && "down"@.len() == 4,
        "up"@[0] == 'u' && "up"@.len() == 2,
        "unregister"@[0] == 'u' && "unregister"@.len() == 10,
        "bash"@[0] == 'b',
        "register"@[0] == 'r',
        "prune"@[0] == 'p',
{
    reveal_strlit("help");
    reveal_strlit("?");
    reveal_strlit("quit");
    reveal_strlit("exit");
    reveal_strlit("q");
    reveal_strlit("list");
    reveal_strlit("logs");
    reveal_strlit("status");
    reveal_strlit("doctor");
    reveal_strlit("down");
    reveal_strlit("up");
    reveal_strlit("unregister");
    reveal_strlit("bash");
    reveal_strlit("register");
    reveal_strlit("prune");
    assert("help"@[0] == 'h' && "?"@[0] == '?');
}

/// What a line asks for is said by its first word. The project is the next
/// word, and flags may stand anywhere behind the first. A command that needs
/// a project and has none is refused, and so are changes to the registry.
pub proof fn line_of_a_user(
    line: &str,
    chars: &Vec<char>,
    list: Vec<String>,
    r: Result<ReplCommand, String>,
)
    requires
        call_ensures(repl::dispatch, (line,), r),
        chars@ == line@,
        call_ensures(words::split_words, (chars,), list),
    ensures
        list@.len() == 0 ==> r == Ok::<ReplCommand, String>(ReplCommand::Nothing),
        list@.len() > 0 ==> {
            let w = list@[0]@;
            &&& w == "help"@ || w == "?"@ <==> r == Ok::<ReplCommand, String>(ReplCommand::Help)
            &&& w == "quit"@ || w == "exit"@ || w == "q"@ <==> r == Ok::<ReplCommand, String>(
                ReplCommand::Quit,
            )
            &&& w == "list"@ <==> r == Ok::<ReplCommand, String>(ReplCommand::List)
            &&& w == "status"@ <==> r == Ok::<ReplCommand, String>(ReplCommand::Status)
            &&& w == "doctor"@ <==> r == Ok::<ReplCommand, String>(ReplCommand::Doctor)
            &&& w == "up"@ && list@.len() > 1 ==> (r matches Ok(ReplCommand::Up {
                project,
                detach,
            }) && project@ == list@[1]@ && (detach <==> has_word(list@, "-d"@) || has_word(
                list@,
                "--detach"@,
            )))
            &&& w == "down"@ && list@.len() > 1 ==> (r matches Ok(ReplCommand::Down { project })
                && project@ == list@[1]@)
            &&& w == "logs"@ && list@.len() > 1 ==> (r matches Ok(ReplCommand::Logs {
                project,
                follow,
            }) && project@ == list@[1]@ && (follow <==> has_word(list@, "-f"@) || has_word(
                list@,
                "--follow"@,
            )))
            &&& w == "bash"@ && list@.len() > 1 ==> (r matches Ok(ReplCommand::Bash { project })
                && project@ == list@[1]@)
            &&& (w == "up"@ || w == "down"@ || w == "logs"@ || w == "bash"@) && list@.len() == 1
                ==> r is Err
            &&& w == "register"@ || w == "unregister"@ || w == "prune"@ ==> r is Err
            &&& !is_known(w) ==> (r matches Ok(ReplCommand::Unknown(m)) && m@
                == "unknown command `"@ + w + "` — try `help`"@)
        },
{
    lemma_words_apart();
    let all = text::views(list@);
    assert(all.len() == list@.len());
    if list@.len() > 0 {
        assert(all[0] == list@[0]@);
        lemma_has_word(list@, "-d"@);
        lemma_has_word(list@, "--detach"@);
        lemma_has_word(list@, "-f"@);
        lemma_has_word(list@, "--follow"@);
        if list@.len() > 1 {
            assert(all.skip(1)[0] == list@[1]@);
        }
    }
}

// ---------------------------------------------------------------------------
// The daemon
// ---------------------------------------------------------------------------
/// How a request is met: a ping is answered, a question for the status is
/// answered with it, and a project is brought up or down under the name that
/// is asked for.
pub proof fn request_is_met(
    request: Request,
    s: &AppState,
    now: u64,
    r: Handling,
    status: Vec<ProjectRuntime>,
)
    requires
        call_ensures(handler::handle_request, (request, s, now), r),
        call_ensures(AppState::status, (s, now), status),
    ensures
        request matches Request::Ping ==> r == Handling::Reply(Response::Pong),
        request matches Request::Up { project } ==> (r matches Handling::Up(n) && n@ == project@),
        request matches Request::Down { project } ==> (r matches Handling::Down(n) && n@
            == project@),
        request matches Request::Status ==> (r matches Handling::Reply(Response::Status {
            projects,
        }) && projects@.len() == status@.len() && forall|i: int|
            0 <= i < projects@.len() ==> (#[trigger] projects@[i])@ == status@[i]@),
{
    if let Handling::Reply(Response::Status { projects }) = r {
        let a = ipc::runtimes(projects@);
        let b = ipc::runtimes(status@);
        assert(a.len() == projects@.len());
        assert(b.len() == status@.len());
        if request is Status {
            assert(a == b);
            assert forall|i: int| 0 <= i < projects@.len() implies (#[trigger] projects@[i])@
                == status@[i]@ by {
                assert(a[i] == projects@[i]@);
                assert(b[i] == status@[i]@);
            }
        }
    }
}

/// What was carried out is done; what was not is answered with the reason.
pub proof fn answer_to_a_request(outcome: Result<(), String>, r: Response)
    requires
        call_ensures(handler::reply, (outcome,), r),
    ensures
        outcome is Ok <==> r == Response::Done,
        outcome matches Err(m) ==> (r matches Response::Error { message } && message@ == m@),
{
}

/// A daemon that does not answer is started, unless it is that of the system,
/// which the user is told how to start.
pub proof fn daemon_that_may_be_absent(
    answered: bool,
    socket: &str,
    user: Option<&String>,
    r: EnsureStep,
    of_system: bool,
)
    requires
        call_ensures(client::ensure_daemon, (answered, socket, user), r),
        call_ensures(paths::is_same_path, (socket, "/run/neals/nealsd.sock"), of_system),
    ensures
        r is Ready <==> answered,
        !answered && !of_system ==> r is Start,
        !answered && of_system ==> (r matches EnsureStep::Failed(m) && m@
            == "system nealsd is not running (socket "@ + "/run/neals/nealsd.sock"@
            + ").\nStart it with:\nsudo systemctl start "@ + (match user {
            Some(u) => if u@.len() > 0 {
                "\"nealsd@"@ + u@ + "\""@
            } else {
                "\"nealsd@$USER\""@
            },
            None => "\"nealsd@$USER\""@,
        }) + "\nOr see contrib/systemd/README.md"@),
{
}

/// A daemon that was started is tried forty times.
pub proof fn daemon_that_was_started(
    attempt: u32,
    answered: bool,
    r: Option<Result<(), String>>,
)
    requires
        call_ensures(client::after_start, (attempt, answered), r),
    ensures
        answered <==> r matches Some(Ok(_)),
        !answered && attempt < 40 <==> r is None,
{
}

/// The daemon that is started is the one next to the running program, if it is
/// there.
pub proof fn daemon_next_to_the_program<F: Fn(&String) -> bool>(
    exe: Option<&String>,
    is_file: &F,
    r: String,
    path: &str,
    beside: String,
    there: bool,
)
    requires
        call_ensures(client::find_nealsd::<F>, (exe, is_file), r),
        exe matches Some(e) ==> path@ == e@,
        call_ensures(paths::with_file_name, (path, "nealsd"), beside),
        forall|p: &String, b: bool| #[trigger]
            is_file.ensures((p,), b) && p@ == beside@ ==> b == there,
    ensures
        exe is Some && there ==> r@ == beside@,
        exe is None || !there ==> r@ == "nealsd"@,
{
    if exe is Some {
        if netns::not_found(beside@, *is_file) {
            let p = choose|p: String| p@ == beside@ && #[trigger] is_file.ensures((&p,), false);
            assert(is_file.ensures((&p,), false));
        }
        if netns::file_found(beside@, *is_file) {
            let p = choose|p: String| p@ == beside@ && #[trigger] is_file.ensures((&p,), true);
            assert(is_file.ensures((&p,), true));
        }
    }
}

/// A socket is taken over only if nobody answers there.
pub proof fn socket_before_the_daemon(path: &str, there: bool, answers: bool, r: SocketStep)
    requires
        call_ensures(client::prepare_socket, (path, there, answers), r),
    ensures
        r is Free <==> !there,
        r is Remove <==> there && !answers,
        r is Taken <==> there && answers,
{
}

/// A closed connection is no answer, and only a pong shows that the daemon is
/// there.
pub proof fn answer_of_the_daemon(line: &str, r: Result<Response, String>, pong: bool)
    requires
        call_ensures(client::read_answer, (line,), r),
        call_ensures(client::is_pong, (&r,), pong),
    ensures
        line@.len() == 0 ==> (r matches Err(m) && m@
            == "nealsd closed the connection without a response"@),
        pong <==> r == Ok::<Response, String>(Response::Pong),
{
}

/// Once logs of single processes are known they stay known, and nothing else
/// changes.
pub proof fn logs_of_processes_are_known(v: &mut LiveView, found: bool)
    requires
        call_ensures(LiveView::on_mux, (v, found), ()),
    ensures
        final(v).has_mux <==> old(v).has_mux || found,
        final(v).ticks == old(v).ticks,
        final(v).mux_empty == old(v).mux_empty,
        final(v).merged == old(v).merged,
        final(v).width == old(v).width,
{
}

/// A line is written as it is, with what ends it on the terminal.
pub proof fn written_lines(raw: bool, line: &str, r: String, project: &str, path: &str, m: String)
    requires
        call_ensures(live::emit_line, (raw, line), r),
        call_ensures(logs::no_log_text, (project, path), m),
    ensures
        raw ==> r@ == line@ + "\r\n"@,
        !raw ==> r@ == line@ + "\n"@,
        m@ == "no log file for project `"@ + project@ + "` at "@ + path@
            + " (has it been started with `neals up`?)"@,
{
}

/// The daemon is asked only once it is there; the answer is what it says, or
/// why it is not there.
pub proof fn asked_once_it_is_there<
    E: Fn() -> Option<String>,
    C: Fn(&Request) -> Result<Response, String>,
>(request: &Request, ensure: &E, call: &C, r: Result<Response, String>, there: bool)
    requires
        call_ensures(client::with_daemon::<E, C>, (request, ensure, call), r),
        forall|a: Option<String>| #[trigger] ensure.ensures((), a) ==> (a is None <==> there),
    ensures
        there ==> call.ensures((request,), r),
        !there ==> (r matches Err(m) && ensure.ensures((), Some(m))),
{
}

} // verus!
