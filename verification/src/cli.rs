//! The commands of the user.
use crate::devenv::ProjectName;
use crate::ipc;
use crate::ipc::{ProjectRuntime, Response};
use crate::paths;
use crate::registry;
use crate::registry::{Project, Registry};
use crate::style;
use crate::text;
use crate::words;
use vstd::prelude::*;
use vstd::string::*;

verus! {

// ---------------------------------------------------------------------------
// Confirmation
// ---------------------------------------------------------------------------
/// How a question is settled.
#[derive(Debug, Clone, PartialEq, Eq)]
pub enum Confirm {
    /// With yes, without asking.
    Accepted,
    /// By asking, with this prompt.
    Ask(String),
    /// Not at all, since there is nobody to ask.
    Refused(String),
}

/// How a question is settled.
pub fn confirm(prompt: &str, yes: bool, stdin_is_terminal: bool) -> (r: Confirm)
    ensures
        if yes {
            r is Accepted
        } else if stdin_is_terminal {
            r matches Confirm::Ask(p) && p@ == prompt@ + " [y/N] "@
        } else {
            r matches Confirm::Refused(m) && m@
                == "refusing to prompt without a TTY; re-run with --yes"@
        },
{
    if yes {
        Confirm::Accepted
    } else if stdin_is_terminal {
        Confirm::Ask(prompt.to_owned().concat(" [y/N] "))
    } else {
        Confirm::Refused("refusing to prompt without a TTY; re-run with --yes".to_owned())
    }
}

/// Whether an answer means yes.
pub open spec fn means_yes(line: Seq<char>) -> bool {
    words::equal_folded(words::trim(line), "y"@) || words::equal_folded(words::trim(line), "yes"@)
}

/// Whether an answer means yes.
pub fn is_yes(line: &str) -> (r: bool)
    ensures
        r == means_yes(line@),
{
    let answer = text::to_chars(words::trimmed(&text::to_chars(line)).as_str());
    words::same_folded(&answer, &text::to_chars("y")) || words::same_folded(
        &answer,
        &text::to_chars("yes"),
    )
}

// ---------------------------------------------------------------------------
// Registering
// ---------------------------------------------------------------------------
/// What to say and ask before a project is registered under the name of its
/// folder.
#[derive(Debug, Clone, PartialEq, Eq)]
pub struct FallbackNotice {
    pub warning: String,
    pub hint: String,
}

/// What to say before a project is registered; nothing if it declares its
/// name.
pub fn fallback_notice(resolved: &ProjectName) -> (r: Option<FallbackNotice>)
    ensures
        match resolved {
            ProjectName::FromDevenv(_) => r is None,
            ProjectName::Fallback(name) => {
                &&& r matches Some(n)
                &&& n.warning@
                    == "no `neals.name` in devenv.nix; falling back to folder name `"@ + name@
                    + "`"@
                &&& n.hint@ == "services will be reachable at <service>."@ + name@ + ".localhost"@
            },
        },
{
    match resolved {
        ProjectName::FromDevenv(_) => None,
        ProjectName::Fallback(name) => Some(
            FallbackNotice {
                warning: "no `neals.name` in devenv.nix; falling back to folder name `".to_owned().concat(
                name.as_str()).concat("`"),
                hint: "services will be reachable at <service>.".to_owned().concat(
                    name.as_str(),
                ).concat(".localhost"),
            },
        ),
    }
}

/// What registering a project amounts to.
#[derive(Debug, Clone, PartialEq, Eq)]
pub enum RegisterStep {
    /// Nothing, with this message: it is registered there.
    Already(String),
    /// Replacing another registration, after this warning and hint.
    Override { warning: String, hint: String },
    /// Adding it.
    Add,
}

/// A project and where it lies.
pub open spec fn arrow(verb: Seq<char>, name: Seq<char>, path: Seq<char>) -> Seq<char> {
    verb + " `"@ + name + "` → "@ + path
}

fn arrow_text(verb: &str, name: &str, path: &str) -> (r: String)
    ensures
        r@ == arrow(verb@, name@, path@),
{
    verb.to_owned().concat(" `").concat(name).concat("` → ").concat(path)
}

/// Whether `r` is what registering a project amounts to, where another one is
/// registered under its name at `there`.
pub open spec fn is_step_beside(
    r: RegisterStep,
    there: Seq<char>,
    name: Seq<char>,
    path: Seq<char>,
) -> bool {
    if paths::same_path(there, path) {
        r matches RegisterStep::Already(m) && m@ == arrow("already registered"@, name, path)
    } else {
        &&& r matches RegisterStep::Override { warning, hint }
        &&& warning@ == "project `"@ + name + "` is already registered at "@ + there
        &&& hint@ == "override with "@ + path + "?"@
    }
}

/// What registering a project amounts to.
pub fn register_step(list: &Registry, name: &str, path: &str) -> (r: RegisterStep)
    ensures
        if registry::has_name(list@, name@) {
            exists|i: int|
                #[trigger] registry::is_first(list@, name@, i) && is_step_beside(
                    r,
                    list@[i].path,
                    name@,
                    path@,
                )
        } else {
            r is Add
        },
{
    match list.get(name) {
        None => RegisterStep::Add,
        Some(existing) => {
            let there = existing.path.as_str();
            if paths::is_same_path(there, path) {
                RegisterStep::Already(arrow_text("already registered", name, path))
            } else {
                RegisterStep::Override {
                    warning: "project `".to_owned().concat(name).concat(
                        "` is already registered at ",
                    ).concat(there),
                    hint: "override with ".to_owned().concat(path).concat("?"),
                }
            }
        },
    }
}

/// Registers a project, in the place of one of the same name if there is one.
pub fn register(list: &mut Registry, name: &str, path: &str) -> (r: String)
    ensures
        if registry::has_name(old(list)@, name@) {
            &&& r@ == arrow("overrode"@, name@, path@)
            &&& exists|i: int| #[trigger]
                registry::is_first(old(list)@, name@, i) && final(list)@ == old(list)@.update(
                    i,
                    registry::Entry { name: name@, path: path@ },
                )
        } else {
            &&& r@ == arrow("registered"@, name@, path@)
            &&& final(list)@ == old(list)@.push(registry::Entry { name: name@, path: path@ })
        },
{
    match list.upsert(Project { name: name.to_owned(), path: path.to_owned() }) {
        Some(_) => arrow_text("overrode", name, path),
        None => arrow_text("registered", name, path),
    }
}

/// Takes a project out of the registry.
pub fn unregister(list: &mut Registry, name: &str) -> (r: Result<String, String>)
    ensures
        match r {
            Ok(m) => exists|i: int| #[trigger]
                registry::is_first(old(list)@, name@, i) && final(list)@ == old(list)@.remove(i)
                    && m@ == "unregistered `"@ + name@ + "` (was "@ + old(list)@[i].path + ")"@,
            Err(m) => {
                &&& !registry::has_name(old(list)@, name@)
                &&& m@ == registry::not_registered(name@)
                &&& final(list)@ == old(list)@
            },
        },
{
    match list.remove(name) {
        Ok(p) => Ok(
            "unregistered `".to_owned().concat(p.name.as_str()).concat("` (was ").concat(
                p.path.as_str(),
            ).concat(")"),
        ),
        Err(m) => Err(m),
    }
}

/// Where a registered project lies.
pub fn project_path(list: &Registry, name: &str) -> (r: Result<String, String>)
    ensures
        match r {
            Ok(p) => exists|i: int| #[trigger]
                registry::is_first(list@, name@, i) && p@ == list@[i].path,
            Err(m) => !registry::has_name(list@, name@) && m@ == registry::not_registered(name@),
        },
{
    match list.get(name) {
        Some(p) => Ok(p.path.clone()),
        None => Err(registry::not_registered_text(name)),
    }
}

/// Every registered project is either kept or pruned.
pub proof fn pruning_splits_the_registry(list: Seq<registry::Entry>, flags: Seq<bool>)
    requires
        flags.len() == list.len(),
    ensures
        registry::select(list, flags, true).to_multiset().add(
            registry::select(list, flags, false).to_multiset(),
        ) == list.to_multiset(),
{
    lemma_select_splits(list, flags);
}

proof fn lemma_select_splits(list: Seq<registry::Entry>, flags: Seq<bool>)
    ensures
        registry::select(list, flags, true).to_multiset().add(
            registry::select(list, flags, false).to_multiset(),
        ) == list.to_multiset(),
    decreases list.len(),
{
    broadcast use vstd::seq_lib::group_to_multiset_ensures;

    let kept = registry::select(list, flags, true).to_multiset();
    let gone = registry::select(list, flags, false).to_multiset();
    if list.len() == 0 {
        assert(kept.add(gone) =~= list.to_multiset());
    } else {
        let front = list.drop_last();
        lemma_select_splits(front, flags);
        let k = registry::select(front, flags, true).to_multiset();
        let g = registry::select(front, flags, false).to_multiset();
        assert(list == front.push(list.last()));
        assert(list.to_multiset() =~= front.to_multiset().insert(list.last()));
        assert(kept.add(gone) =~= k.add(g).insert(list.last()));
    }
}

/// The lines that show the projects whose directory is gone, and the question
/// whether to remove them. Nothing if there are none.
#[derive(Debug, Clone, PartialEq, Eq)]
pub struct PrunePlan {
    pub lines: Vec<String>,
    pub question: String,
}

/// The line that shows a project in a list.
pub open spec fn prune_line(e: registry::Entry) -> Seq<char> {
    "  "@ + e.name + " → "@ + e.path
}

/// What to show and ask before those projects are removed whose directory is
/// gone, given for each whether its path is a directory.
pub fn prune_plan(list: &Registry, is_dir: &Vec<bool>) -> (r: Option<PrunePlan>)
    requires
        is_dir@.len() == list.projects@.len(),
    ensures
        ({
            let ghosts = registry::select(list@, is_dir@, false);
            match r {
                None => ghosts.len() == 0,
                Some(p) => {
                    &&& ghosts.len() > 0
                    &&& text::views(p.lines@) == ghosts.map_values(
                        |e: registry::Entry| prune_line(e),
                    )
                    &&& p.question@ == "Remove "@ + text::decimal(ghosts.len())
                        + " ghost project(s)?"@
                },
            }
        }),
{
    let ghost all = list@;
    let ghost show = |e: registry::Entry| prune_line(e);
    let mut lines: Vec<String> = Vec::new();
    assert(text::views(lines@) == registry::select(all.take(0), is_dir@, false).map_values(show));
    for i in 0..list.projects.len()
        invariant
            is_dir@.len() == list.projects@.len(),
            all == list@,
            show == (|e: registry::Entry| prune_line(e)),
            text::views(lines@) == registry::select(all.take(i as int), is_dir@, false).map_values(
                show,
            ),
    {
        assert(all.take(i + 1).drop_last() == all.take(i as int));
        let p = &list.projects[i];
        if p.is_ghost(is_dir[i]) {
            let ghost before = text::views(lines@);
            let ghost so_far = registry::select(all.take(i as int), is_dir@, false);
            lines.push(
                "  ".to_owned().concat(p.name.as_str()).concat(" → ").concat(p.path.as_str()),
            );
            assert(text::views(lines@) == before.push(prune_line(all[i as int])));
            assert(so_far.push(all[i as int]).map_values(show) == so_far.map_values(show).push(
                prune_line(all[i as int]),
            ));
        }
    }
    assert(all.take(all.len() as int) == all);
    if lines.len() == 0 {
        None
    } else {
        let question = "Remove ".to_owned().concat(
            text::decimal_text(lines.len() as u64).as_str(),
        ).concat(" ghost project(s)?");
        Some(PrunePlan { lines, question })
    }
}

/// The message after `n` projects were removed.
pub fn pruned_text(n: usize) -> (r: String)
    ensures
        r@ == "pruned "@ + text::decimal(n as nat) + " project(s)"@,
{
    "pruned ".to_owned().concat(text::decimal_text(n as u64).as_str()).concat(" project(s)")
}

// ---------------------------------------------------------------------------
// Tables
// ---------------------------------------------------------------------------
/// How a registered project is shown, given whether its path is a directory.
pub fn list_status(path_is_dir: bool) -> (r: &'static str)
    ensures
        r@ == if path_is_dir {
            "ok"@
        } else {
            "ghost"@
        },
{
    if path_is_dir {
        "ok"
    } else {
        "ghost"
    }
}

/// A time span in the two largest units that matter.
pub open spec fn uptime(secs: u64) -> Seq<char> {
    if secs < 60 {
        text::decimal(secs as nat) + "s"@
    } else if secs < 3600 {
        text::decimal((secs / 60) as nat) + "m "@ + text::decimal((secs % 60) as nat) + "s"@
    } else {
        text::decimal((secs / 3600) as nat) + "h "@ + text::decimal(((secs % 3600) / 60) as nat)
            + "m"@
    }
}

/// A time span in the two largest units that matter.
pub fn format_uptime(secs: u64) -> (r: String)
    ensures
        r@ == uptime(secs),
{
    if secs < 60 {
        text::decimal_text(secs).concat("s")
    } else if secs < 3600 {
        text::decimal_text(secs / 60).concat("m ").concat(
            text::decimal_text(secs % 60).as_str(),
        ).concat("s")
    } else {
        text::decimal_text(secs / 3600).concat("h ").concat(
            text::decimal_text((secs % 3600) / 60).as_str(),
        ).concat("m")
    }
}

/// The cells that show a running project.
#[derive(Debug, Clone, PartialEq, Eq)]
pub struct StatusRow {
    pub name: String,
    pub pid: String,
    pub uptime: String,
    pub services: String,
}

/// Whether a row shows a running project.
pub open spec fn is_status_row(row: StatusRow, p: ipc::Runtime) -> bool {
    &&& row.name@ == p.name
    &&& row.pid@ == text::decimal(p.pid as nat)
    &&& row.uptime@ == uptime(p.uptime_secs)
    &&& row.services@ == if p.routes.len() == 0 {
        "-"@
    } else {
        words::joined(p.routes, "\n"@)
    }
}

/// The rows that show the running projects, in the given order.
pub fn status_rows(projects: &Vec<ProjectRuntime>) -> (r: Vec<StatusRow>)
    ensures
        r@.len() == projects@.len(),
        forall|i: int| 0 <= i < r@.len() ==> is_status_row(#[trigger] r@[i], projects@[i]@),
{
    let mut r: Vec<StatusRow> = Vec::new();
    for i in 0..projects.len()
        invariant
            r@.len() == i,
            forall|j: int| 0 <= j < i ==> is_status_row(#[trigger] r@[j], projects@[j]@),
    {
        let p = &projects[i];
        let services = if p.routes.len() == 0 {
            "-".to_owned()
        } else {
            words::join(&p.routes, "\n")
        };
        r.push(
            StatusRow {
                name: p.name.clone(),
                pid: text::decimal_text(p.pid as u64),
                uptime: format_uptime(p.uptime_secs),
                services,
            },
        );
    }
    r
}

// ---------------------------------------------------------------------------
// Answers of the daemon
// ---------------------------------------------------------------------------
/// The message on an answer that makes no sense.
pub open spec fn unexpected(r: ipc::Resp) -> Seq<char> {
    "unexpected response from nealsd: "@ + ipc::response_debug(r)
}

/// Whether a request was carried out.
pub fn expect_done(response: &Response) -> (r: Result<(), String>)
    ensures
        match response@ {
            ipc::Resp::Done => r is Ok,
            ipc::Resp::Error { message } => r matches Err(m) && m@ == message,
            other => r matches Err(m) && m@ == unexpected(other),
        },
{
    match response {
        Response::Done => Ok(()),
        Response::Error { message } => Err(message.clone()),
        other => Err(
            "unexpected response from nealsd: ".to_owned().concat(other.debug_text().as_str()),
        ),
    }
}

/// The running projects that an answer reports.
pub fn expect_status(response: Response) -> (r: Result<Vec<ProjectRuntime>, String>)
    ensures
        match response@ {
            ipc::Resp::Status { projects } => r matches Ok(v) && ipc::runtimes(v@) == projects,
            ipc::Resp::Error { message } => r matches Err(m) && m@ == message,
            other => r matches Err(m) && m@ == unexpected(other),
        },
{
    match response {
        Response::Status { projects } => Ok(projects),
        Response::Error { message } => Err(message),
        other => Err(
            "unexpected response from nealsd: ".to_owned().concat(other.debug_text().as_str()),
        ),
    }
}

/// Whether `i` is the first position of a running project of that name.
pub open spec fn is_first_running(list: Seq<ipc::Runtime>, name: Seq<char>, i: int) -> bool {
    &&& 0 <= i < list.len()
    &&& list[i].name == name
    &&& forall|j: int| 0 <= j < i ==> (#[trigger] list[j]).name != name
}

/// Whether a project of that name is among the running ones.
pub open spec fn is_among(list: Seq<ipc::Runtime>, name: Seq<char>) -> bool {
    exists|i: int| 0 <= i < list.len() && (#[trigger] list[i]).name == name
}

/// The first running project of that name.
pub fn find_running<'a>(projects: &'a Vec<ProjectRuntime>, name: &str) -> (r: Option<
    &'a ProjectRuntime,
>)
    ensures
        match r {
            Some(p) => exists|i: int| #[trigger]
                is_first_running(ipc::runtimes(projects@), name@, i) && p@ == ipc::runtimes(
                    projects@,
                )[i],
            None => !is_among(ipc::runtimes(projects@), name@),
        },
{
    let ghost all = ipc::runtimes(projects@);
    for i in 0..projects.len()
        invariant
            all == ipc::runtimes(projects@),
            forall|j: int| 0 <= j < i ==> (#[trigger] all[j]).name != name@,
    {
        assert(all[i as int] == projects@[i as int]@);
        if text::same(projects[i].name.as_str(), name) {
            assert(is_first_running(all, name@, i as int));
            return Some(&projects[i]);
        }
    }
    None
}

/// The lines that show the routes of a project that came up.
pub fn route_lines(projects: &Vec<ProjectRuntime>, name: &str, color: bool) -> (r: Vec<String>)
    ensures
        if is_among(ipc::runtimes(projects@), name@) {
            exists|i: int| #[trigger]
                is_first_running(ipc::runtimes(projects@), name@, i) && text::views(r@)
                    == ipc::runtimes(projects@)[i].routes.map_values(
                    |s: Seq<char>| route_line(s, color),
                )
        } else {
            r@.len() == 0
        },
{
    let mut r: Vec<String> = Vec::new();
    if let Some(p) = find_running(projects, name) {
        let ghost want = p@.routes.map_values(|s: Seq<char>| route_line(s, color));
        for i in 0..p.routes.len()
            invariant
                want == p@.routes.map_values(|s: Seq<char>| route_line(s, color)),
                text::views(r@) == want.take(i as int),
        {
            let ghost before = text::views(r@);
            r.push(
                "  → ".to_owned().concat(style::accent(p.routes[i].as_str(), color).as_str()),
            );
            assert(text::views(r@) == before.push(want[i as int]));
            assert(want.take(i + 1) == want.take(i as int).push(want[i as int]));
        }
        assert(want.take(want.len() as int) == want);
    }
    r
}

/// The line that shows a route.
pub open spec fn route_line(route: Seq<char>, color: bool) -> Seq<char> {
    "  → "@ + if color {
        style::painted("\x1b[36m"@, route, "\x1b[39m"@)
    } else {
        route
    }
}

// ---------------------------------------------------------------------------
// Completion
// ---------------------------------------------------------------------------
/// The names that start with a prefix, in order.
pub open spec fn completions(list: Seq<registry::Entry>, prefix: Seq<char>) -> Seq<Seq<char>>
    decreases list.len(),
{
    if list.len() == 0 {
        Seq::empty()
    } else {
        let rest = completions(list.drop_last(), prefix);
        if words::starts_with(list.last().name, prefix) {
            rest.push(list.last().name)
        } else {
            rest
        }
    }
}

/// The names of registered projects that start with what was typed.
pub fn complete_projects(list: &Registry, current: &str) -> (r: Vec<String>)
    ensures
        text::views(r@) == completions(list@, current@),
{
    let prefix = text::to_chars(current);
    let ghost all = list@;
    let mut r: Vec<String> = Vec::new();
    for i in 0..list.projects.len()
        invariant
            all == list@,
            prefix@ == current@,
            text::views(r@) == completions(all.take(i as int), current@),
    {
        assert(all.take(i + 1).drop_last() == all.take(i as int));
        let name = &list.projects[i].name;
        if words::stands_at(&text::to_chars(name.as_str()), &prefix, 0) {
            let ghost before = text::views(r@);
            r.push(name.clone());
            assert(text::views(r@) == before.push(name@));
        }
    }
    assert(all.take(all.len() as int) == all);
    r
}

/// The shells that complete commands.
#[derive(Debug, Clone, Copy, PartialEq, Eq, Structural)]
pub enum CompletionShell {
    Bash,
    Elvish,
    Fish,
    Powershell,
    Zsh,
}

/// The line that switches completion on in a shell.
pub fn completion_setup(shell: CompletionShell) -> (r: &'static str)
    ensures
        r@ == match shell {
            CompletionShell::Bash => "source <(COMPLETE=bash neals)"@,
            CompletionShell::Zsh => "source <(COMPLETE=zsh neals)"@,
            CompletionShell::Fish => "COMPLETE=fish neals | source"@,
            CompletionShell::Elvish => "eval (E:COMPLETE=elvish neals | slurp)"@,
            CompletionShell::Powershell => "$env:COMPLETE = \"powershell\"; neals | Out-String | Invoke-Expression; Remove-Item Env:\\COMPLETE"@,
        },
{
    match shell {
        CompletionShell::Bash => "source <(COMPLETE=bash neals)",
        CompletionShell::Zsh => "source <(COMPLETE=zsh neals)",
        CompletionShell::Fish => "COMPLETE=fish neals | source",
        CompletionShell::Elvish => "eval (E:COMPLETE=elvish neals | slurp)",
        CompletionShell::Powershell => "$env:COMPLETE = \"powershell\"; neals | Out-String | Invoke-Expression; Remove-Item Env:\\COMPLETE",
    }
}

} // verus!
