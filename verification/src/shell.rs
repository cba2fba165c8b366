//! Shells and commands inside a project.
use crate::cli;
use crate::ipc;
use crate::ipc::Response;
use crate::netns;
use crate::paths;
use crate::quote;
use crate::text;
use crate::xdg;
use crate::xdg::Dirs;
use vstd::prelude::*;
use vstd::string::*;

verus! {

/// The shells that get a prompt of their own.
#[derive(Debug, Clone, Copy, PartialEq, Eq, Structural)]
pub enum ShellKind {
    Bash,
    Zsh,
    Other,
}

/// The shell of the user: `SHELL`, else `bash`.
pub fn shell_executable(shell: Option<&String>) -> (r: String)
    ensures
        r@ == match shell {
            Some(s) => s@,
            None => "bash"@,
        },
{
    match shell {
        Some(s) => s.clone(),
        None => "bash".to_owned(),
    }
}

/// What kind of shell a program is. One without a name counts as `bash`.
pub open spec fn shell_kind(program: Seq<char>) -> ShellKind {
    let base = match paths::last_name(program) {
        Some(n) => n,
        None => "bash"@,
    };
    if base == "bash"@ {
        ShellKind::Bash
    } else if base == "zsh"@ {
        ShellKind::Zsh
    } else {
        ShellKind::Other
    }
}

/// What kind of shell a program is.
pub fn detect_shell(program: &str) -> (r: ShellKind)
    ensures
        r == shell_kind(program@),
{
    let base = match paths::file_name(program) {
        Some(n) => n,
        None => "bash".to_owned(),
    };
    if text::same(base.as_str(), "bash") {
        ShellKind::Bash
    } else if text::same(base.as_str(), "zsh") {
        ShellKind::Zsh
    } else {
        ShellKind::Other
    }
}

/// The start file of `bash` for a project.
pub open spec fn bash_rc(project: Seq<char>, home: Seq<char>) -> Seq<char> {
    "if [ -f \""@ + home + "/.bashrc\" ]; then\n  . \""@ + home
        + "/.bashrc\"\nfi\nexport NEALS_PROJECT=\""@ + project
        + "\"\nif [ -t 1 ] && [ -z \"${NO_COLOR:-}\" ]; then\n  PS1='\\[\\e[35m\\]neals:"@ + project
        + "\\[\\e[0m\\] \\w \\$ '\nelse\n  PS1='neals:"@ + project
        + " \\w \\$ '\nfi\nif [ -t 1 ]; then\n  clear 2>/dev/null || printf '\\033[H\\033[2J'\nfi\n"@
}

/// The start file of `bash` for a project.
pub fn bash_rc_text(project: &str, home: &str) -> (r: String)
    ensures
        r@ == bash_rc(project@, home@),
{
    "if [ -f \"".to_owned().concat(home).concat("/.bashrc\" ]; then\n  . \"").concat(home).concat(
        "/.bashrc\"\nfi\nexport NEALS_PROJECT=\"",
    ).concat(project).concat(
        "\"\nif [ -t 1 ] && [ -z \"${NO_COLOR:-}\" ]; then\n  PS1='\\[\\e[35m\\]neals:",
    ).concat(project).concat("\\[\\e[0m\\] \\w \\$ '\nelse\n  PS1='neals:").concat(project).concat(
        " \\w \\$ '\nfi\nif [ -t 1 ]; then\n  clear 2>/dev/null || printf '\\033[H\\033[2J'\nfi\n",
    )
}

/// The start file of `zsh` for a project.
pub open spec fn zsh_rc(project: Seq<char>, home: Seq<char>) -> Seq<char> {
    "if [ -f \""@ + home + "/.zshrc\" ]; then\n  source \""@ + home
        + "/.zshrc\"\nfi\nexport NEALS_PROJECT=\""@ + project
        + "\"\nif [[ -o interactive ]] && [[ -z \"${NO_COLOR:-}\" ]]; then\n  PROMPT=\"%F{magenta}neals:"@
        + project + "%f %~ %# \"\nelse\n  PROMPT=\"neals:"@ + project
        + " %~ %# \"\nfi\nif [[ -t 1 ]]; then\n  clear 2>/dev/null || printf '\\033[H\\033[2J'\nfi\n"@
}

/// The start file of `zsh` for a project.
pub fn zsh_rc_text(project: &str, home: &str) -> (r: String)
    ensures
        r@ == zsh_rc(project@, home@),
{
    "if [ -f \"".to_owned().concat(home).concat("/.zshrc\" ]; then\n  source \"").concat(
        home,
    ).concat("/.zshrc\"\nfi\nexport NEALS_PROJECT=\"").concat(project).concat(
        "\"\nif [[ -o interactive ]] && [[ -z \"${NO_COLOR:-}\" ]]; then\n  PROMPT=\"%F{magenta}neals:",
    ).concat(project).concat("%f %~ %# \"\nelse\n  PROMPT=\"neals:").concat(project).concat(
        " %~ %# \"\nfi\nif [[ -t 1 ]]; then\n  clear 2>/dev/null || printf '\\033[H\\033[2J'\nfi\n",
    )
}

/// How to open a shell in a project.
#[derive(Debug, Clone, PartialEq, Eq)]
pub struct ShellPlan {
    /// A warning to give first.
    pub warning: Option<String>,
    /// A directory to make, for the file.
    pub dir: Option<String>,
    /// A file to write, with its content.
    pub file: Option<(String, String)>,
    /// The arguments of `devenv`.
    pub args: Vec<String>,
    /// What to set `ZDOTDIR` to.
    pub zdotdir: Option<String>,
}

/// The arguments of `devenv` that open an interactive shell.
pub open spec fn shell_args(program: Seq<char>) -> Seq<Seq<char>> {
    seq!["--quiet"@, "shell"@, program, "-i"@]
}

fn shell_args_of(program: &str) -> (r: Vec<String>)
    ensures
        text::views(r@) == shell_args(program@),
{
    let mut r: Vec<String> = Vec::new();
    r.push("--quiet".to_owned());
    r.push("shell".to_owned());
    r.push(program.to_owned());
    r.push("-i".to_owned());
    assert(text::views(r@) == shell_args(program@));
    r
}

/// Whether `p` says how to open `program`, of the kind `bash` or `zsh`, in a
/// project, where `state` is the directory for start files.
pub open spec fn is_branded_plan(
    p: ShellPlan,
    project: Seq<char>,
    program: Seq<char>,
    state: Seq<char>,
    home: Seq<char>,
) -> bool {
    &&& p.warning is None
    &&& if shell_kind(program) is Bash {
        let rc = paths::below(state, "bashrc-"@ + project);
        &&& p.dir matches Some(d) && d@ == state
        &&& p.file matches Some(f) && f.0@ == rc && f.1@ == bash_rc(project, home)
        &&& text::views(p.args@) == shell_args(program) + seq!["--rcfile"@, rc]
        &&& p.zdotdir is None
    } else {
        let dir = paths::below(state, "zsh-"@ + project);
        &&& p.dir matches Some(d) && d@ == dir
        &&& p.file matches Some(f) && f.0@ == paths::below(dir, ".zshrc"@) && f.1@ == zsh_rc(
            project,
            home,
        )
        &&& text::views(p.args@) == shell_args(program)
        &&& p.zdotdir matches Some(z) && z@ == dir
    }
}

/// Whether `p` says how to open `program`, which gets no start file.
pub open spec fn is_bare_plan(p: ShellPlan, program: Seq<char>) -> bool {
    &&& p.warning matches Some(w) && w@ == "branded prompt not configured for `"@ + program + "`"@
    &&& p.dir is None
    &&& p.file is None
    &&& text::views(p.args@) == shell_args(program)
    &&& p.zdotdir is None
}

/// How to open the user's shell in a project. A start file takes the
/// directory for state; other shells do without it.
pub fn enter_project_shell(project: &str, program: &str, dirs: &Dirs, home: &str) -> (r: Result<
    ShellPlan,
    String,
>)
    ensures
        match (shell_kind(program@), dirs.state()) {
            (ShellKind::Other, _) => r matches Ok(p) && is_bare_plan(p, program@),
            (_, Some(state)) => r matches Ok(p) && is_branded_plan(
                p,
                project@,
                program@,
                state,
                home@,
            ),
            (_, None) => r matches Err(m) && m@ == "$HOME is not set"@,
        },
{
    let kind = detect_shell(program);
    let mut args = shell_args_of(program);
    if let ShellKind::Other = kind {
        return Ok(
            ShellPlan {
                warning: Some(
                    "branded prompt not configured for `".to_owned().concat(program).concat("`"),
                ),
                dir: None,
                file: None,
                args,
                zdotdir: None,
            },
        );
    }
    let state = match xdg::state_dir(dirs) {
        Ok(s) => s,
        Err(m) => {
            return Err(m);
        },
    };
    if let ShellKind::Bash = kind {
        let rc = paths::join_path(state.as_str(), "bashrc-".to_owned().concat(project).as_str());
        let ghost before = text::views(args@);
        args.push("--rcfile".to_owned());
        args.push(rc.clone());
        assert(text::views(args@) == before + seq!["--rcfile"@, rc@]);
        Ok(
            ShellPlan {
                warning: None,
                dir: Some(state),
                file: Some((rc, bash_rc_text(project, home))),
                args,
                zdotdir: None,
            },
        )
    } else {
        let dir = paths::join_path(state.as_str(), "zsh-".to_owned().concat(project).as_str());
        let file = paths::join_path(dir.as_str(), ".zshrc");
        Ok(
            ShellPlan {
                warning: None,
                dir: Some(dir.clone()),
                file: Some((file, zsh_rc_text(project, home))),
                args,
                zdotdir: Some(dir),
            },
        )
    }
}

/// What the shell of a project is given to run.
pub fn run_project_exec(command: &Vec<String>) -> (r: Result<String, String>)
    ensures
        match r {
            Ok(script) => command@.len() > 0 && script@ == quote::quoted_words(
                text::views(command@),
            ) + "\n"@,
            Err(m) => command@.len() == 0 && m@ == "no command provided"@,
        },
{
    if command.len() == 0 {
        Err("no command provided".to_owned())
    } else {
        Ok(quote::quote_words(command).concat("\n"))
    }
}

/// A process inside the namespace of a project, as the daemon reports it.
pub fn require_netns_pid(response: &Response, project: &str) -> (r: Result<u32, String>)
    ensures
        match response@ {
            ipc::Resp::Status { projects } => if cli::is_among(projects, project@) {
                exists|i: int| #[trigger]
                    cli::is_first_running(projects, project@, i) && if projects[i].netns_pid == 0 {
                        r matches Err(m) && m@ == "project `"@ + project@
                            + "` has no netns pid (daemon too old?)"@
                    } else {
                        r == Ok::<u32, String>(projects[i].netns_pid)
                    }
            } else {
                r matches Err(m) && m@ == "project `"@ + project@
                    + "` is not running; start it with `neals up "@ + project@ + "`"@
            },
            ipc::Resp::Error { message } => r matches Err(m) && m@ == message,
            _ => r matches Err(m) && m@ == "unexpected daemon response for Status"@,
        },
{
    match response {
        Response::Status { projects } => match cli::find_running(projects, project) {
            None => Err(
                "project `".to_owned().concat(project).concat(
                    "` is not running; start it with `neals up ",
                ).concat(project).concat("`"),
            ),
            Some(p) => if p.netns_pid == 0 {
                Err(
                    "project `".to_owned().concat(project).concat(
                        "` has no netns pid (daemon too old?)",
                    ),
                )
            } else {
                Ok(p.netns_pid)
            },
        },
        Response::Error { message } => Err(message.clone()),
        _ => Err("unexpected daemon response for Status".to_owned()),
    }
}

/// Where the system keeps what it knows of a process.
pub open spec fn process_dir(pid: u32) -> Seq<char> {
    "/proc/"@ + text::decimal(pid as nat)
}

/// Whether a shell in a project may go on: the namespace is there, and the
/// daemon, if it can say, has the project running. How to find out whether a
/// path exists and what the daemon says is given.
pub fn project_session_alive<F: Fn(&String) -> bool, S: Fn() -> Result<Response, String>>(
    project: &str,
    netns_pid: u32,
    exists_at: &F,
    status: &S,
) -> (r: bool)
    requires
        forall|p: &String| exists_at.requires((p,)),
        status.requires(()),
    ensures
        ({
            ||| !r && netns::not_found(process_dir(netns_pid), *exists_at)
            ||| netns::file_found(process_dir(netns_pid), *exists_at) && exists|a: Result<
                Response,
                String,
            >| #[trigger]
                status.ensures((), a) && r == keeps_session(a, project@)
        }),
{
    let dir = "/proc/".to_owned().concat(text::decimal_text(netns_pid as u64).as_str());
    if !exists_at(&dir) {
        assert(netns::not_found(process_dir(netns_pid), *exists_at));
        return false;
    }
    assert(netns::file_found(process_dir(netns_pid), *exists_at));
    match status() {
        Ok(Response::Status { projects }) => match cli::find_running(&projects, project) {
            Some(_) => true,
            None => false,
        },
        _ => true,
    }
}

/// Whether an answer lets a shell in a project go on.
pub open spec fn keeps_session(a: Result<Response, String>, project: Seq<char>) -> bool {
    match a {
        Ok(Response::Status { projects }) => cli::is_among(ipc::runtimes(projects@), project),
        _ => true,
    }
}

/// The arguments of `nsenter` that run `devenv` inside the namespace of a
/// project.
pub open spec fn nsenter_args(dir: Seq<char>, netns_pid: u32, devenv_args: Seq<Seq<char>>) -> Seq<
    Seq<char>,
> {
    seq![
        "--user"@,
        "--net"@,
        "--mount"@,
        "--preserve-credentials"@,
        "-t"@,
        text::decimal(netns_pid as nat),
        "--wdns="@ + dir,
        "--"@,
        "devenv"@,
    ] + devenv_args
}

/// The arguments of `nsenter` that run `devenv` inside the namespace of a
/// project.
pub fn nsenter_command(dir: &str, netns_pid: u32, devenv_args: &Vec<String>) -> (r: Vec<String>)
    ensures
        text::views(r@) == nsenter_args(dir@, netns_pid, text::views(devenv_args@)),
{
    let mut r: Vec<String> = Vec::new();
    r.push("--user".to_owned());
    r.push("--net".to_owned());
    r.push("--mount".to_owned());
    r.push("--preserve-credentials".to_owned());
    r.push("-t".to_owned());
    r.push(text::decimal_text(netns_pid as u64));
    r.push("--wdns=".to_owned().concat(dir));
    r.push("--".to_owned());
    r.push("devenv".to_owned());
    let mut rest = text::copy_all(devenv_args);
    r.append(&mut rest);
    assert(text::views(r@) == nsenter_args(dir@, netns_pid, text::views(devenv_args@)));
    r
}

/// The exit code that a process leaves, given its own if it ended by itself.
pub open spec fn exit_code(code: Option<i32>) -> u8 {
    match code {
        Some(c) => if 0 <= c <= 255 {
            c as u8
        } else {
            1
        },
        None => 1,
    }
}

/// The exit code that a process leaves, given its own if it ended by itself.
pub fn exit_code_from_status(code: Option<i32>) -> (r: u8)
    ensures
        r == exit_code(code),
{
    match code {
        Some(c) => if 0 <= c && c <= 255 {
            c as u8
        } else {
            1
        },
        None => 1,
    }
}

/// What to do about a shell in a project.
#[derive(Debug, Clone, PartialEq, Eq)]
pub enum WatchStep {
    /// Leave with this exit code.
    Leave(u8),
    /// Look again after a while.
    Again,
    /// End the shell, say this, and leave as if all went well.
    End(String),
}

/// What to do about a shell in a project, given how it ended if it did, and
/// whether it may go on.
pub fn run_watched_shell(exited: Option<Option<i32>>, alive: bool, project: &str) -> (r: WatchStep)
    ensures
        match exited {
            Some(code) => r == WatchStep::Leave(exit_code(code)),
            None => if alive {
                r is Again
            } else {
                r matches WatchStep::End(m) && m@ == "`"@ + project@
                    + "` stopped — left the project shell"@
            },
        },
{
    match exited {
        Some(code) => WatchStep::Leave(exit_code_from_status(code)),
        None => if alive {
            WatchStep::Again
        } else {
            WatchStep::End(
                "`".to_owned().concat(project).concat("` stopped — left the project shell"),
            )
        },
    }
}

} // verus!
