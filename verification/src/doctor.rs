//! Checks of the environment.
use crate::ipc;
use crate::ipc::Response;
use crate::paths;
use crate::style;
use crate::text;
use crate::words;
use crate::xdg;
use vstd::prelude::*;
use vstd::string::*;

verus! {

/// What a check came to.
#[derive(Debug, Clone, PartialEq, Eq)]
pub struct Check {
    pub name: String,
    pub ok: bool,
    pub required: bool,
    pub detail: String,
}

/// What a check came to.
pub struct Finding {
    pub name: Seq<char>,
    pub ok: bool,
    pub required: bool,
    pub detail: Seq<char>,
}

impl View for Check {
    type V = Finding;

    open spec fn view(&self) -> Finding {
        Finding {
            name: self.name@,
            ok: self.ok,
            required: self.required,
            detail: self.detail@,
        }
    }
}

impl Check {
    /// A check that had to pass and did.
    pub fn ok(name: &str, detail: &str) -> (r: Check)
        ensures
            r@ == (Finding { name: name@, ok: true, required: true, detail: detail@ }),
    {
        Check { name: name.to_owned(), ok: true, required: true, detail: detail.to_owned() }
    }

    /// A check that had to pass and did not.
    pub fn fail(name: &str, detail: &str) -> (r: Check)
        ensures
            r@ == (Finding { name: name@, ok: false, required: true, detail: detail@ }),
    {
        Check { name: name.to_owned(), ok: false, required: true, detail: detail.to_owned() }
    }

    /// A check that did not pass and did not have to.
    pub fn warn(name: &str, detail: &str) -> (r: Check)
        ensures
            r@ == (Finding { name: name@, ok: false, required: false, detail: detail@ }),
    {
        Check { name: name.to_owned(), ok: false, required: false, detail: detail.to_owned() }
    }

    /// A check that passed and did not have to.
    pub fn info(name: &str, detail: &str) -> (r: Check)
        ensures
            r@ == (Finding { name: name@, ok: true, required: false, detail: detail@ }),
    {
        Check { name: name.to_owned(), ok: true, required: false, detail: detail.to_owned() }
    }
}

/// What running a tool for its version came to.
#[derive(Debug, Clone, PartialEq, Eq)]
pub enum ToolRun {
    Ran { stdout: String, stderr: String, success: bool, status: String },
    NotFound(String),
}

/// The version that a tool prints: the first line of what it prints, or of
/// what it complains if it prints nothing.
pub open spec fn version(stdout: Seq<char>, stderr: Seq<char>) -> Seq<char> {
    let printed = if words::trim(stdout).len() == 0 {
        stderr
    } else {
        stdout
    };
    if words::lines(printed).len() == 0 {
        words::trim("(no version)"@)
    } else {
        words::trim(words::lines(printed)[0])
    }
}

fn version_text(stdout: &str, stderr: &str) -> (r: String)
    ensures
        r@ == version(stdout@, stderr@),
{
    let out = text::to_chars(stdout);
    let silent = words::trimmed(&out).as_str().is_empty();
    let printed = if silent {
        text::to_chars(stderr)
    } else {
        out
    };
    let lines = words::split_lines(&printed);
    let ghost all = words::lines(printed@);
    if lines.len() == 0 {
        words::trimmed(&text::to_chars("(no version)"))
    } else {
        assert(lines@[0]@ == all[0]);
        words::trimmed(&text::to_chars(lines[0].as_str()))
    }
}

/// What looking for a tool amounts to.
pub open spec fn tool_finding(name: Seq<char>, run: ToolRun, required: bool) -> Finding {
    match run {
        ToolRun::Ran { stdout, stderr, success, status } => {
            let detail = version(stdout@, stderr@);
            if success || detail.len() > 0 {
                Finding { name, ok: true, required, detail }
            } else {
                Finding { name, ok: false, required, detail: "exited "@ + status@ }
            }
        },
        ToolRun::NotFound(e) => Finding {
            name,
            ok: false,
            required,
            detail: "not on PATH ("@ + e@ + ")"@,
        },
    }
}

/// What looking for a tool amounts to.
pub fn check_on_path(name: &str, run: &ToolRun, required: bool) -> (r: Check)
    ensures
        r@ == tool_finding(name@, *run, required),
{
    let mut c = match run {
        ToolRun::Ran { stdout, stderr, success, status } => {
            let detail = version_text(stdout.as_str(), stderr.as_str());
            if *success || !detail.as_str().is_empty() {
                Check::ok(name, detail.as_str())
            } else {
                Check::fail(name, "exited ".to_owned().concat(status.as_str()).as_str())
            }
        },
        ToolRun::NotFound(e) => Check::fail(
            name,
            "not on PATH (".to_owned().concat(e.as_str()).concat(")").as_str(),
        ),
    };
    c.required = required;
    c
}

/// What looking for `devenv` amounts to, given both ways to ask for its
/// version.
pub fn check_devenv(first: &ToolRun, second: &ToolRun) -> (r: Check)
    ensures
        r@ == if tool_finding("devenv"@, *first, true).ok {
            tool_finding("devenv"@, *first, true)
        } else {
            tool_finding("devenv"@, *second, true)
        },
{
    let v = check_on_path("devenv", first, true);
    if v.ok {
        v
    } else {
        check_on_path("devenv", second, true)
    }
}

/// The program that runs, or why it is not known.
pub fn check_self(exe: &Result<String, String>) -> (r: Check)
    ensures
        r@ == match exe {
            Ok(path) => Finding { name: "neals"@, ok: true, required: true, detail: path@ },
            Err(e) => Finding {
                name: "neals"@,
                ok: false,
                required: true,
                detail: "cannot resolve current exe: "@ + e@,
            },
        },
{
    match exe {
        Ok(path) => Check::ok("neals", path.as_str()),
        Err(e) => Check::fail(
            "neals",
            "cannot resolve current exe: ".to_owned().concat(e.as_str()).as_str(),
        ),
    }
}

/// The daemon's program, given whether it was found.
pub fn check_nealsd(path: &str, found: bool) -> (r: Check)
    ensures
        r@ == if found {
            Finding { name: "nealsd"@, ok: true, required: true, detail: path@ }
        } else {
            Finding {
                name: "nealsd"@,
                ok: false,
                required: true,
                detail: path@ + " not found (next to neals or on PATH)"@,
            }
        },
{
    if found {
        Check::ok("nealsd", path)
    } else {
        Check::fail(
            "nealsd",
            path.to_owned().concat(" not found (next to neals or on PATH)").as_str(),
        )
    }
}

/// The name to look for on the search path: that of a path that is nothing
/// but a name.
pub fn bare_name(path: &str) -> (r: Option<String>)
    ensures
        match r {
            Some(n) => paths::last_name(path@) == Some(n@) && paths::components(path@).len() <= 1,
            None => paths::last_name(path@) is None || paths::components(path@).len() > 1,
        },
{
    let name = paths::file_name(path)?;
    let parts = paths::split_path(path);
    assert(text::views(parts@).len() == parts@.len());
    if parts.len() > 1 {
        None
    } else {
        Some(name)
    }
}

/// Whether the system daemon is there.
pub fn check_system_daemon(socket_exists: bool) -> (r: Check)
    ensures
        r@ == if socket_exists {
            Finding {
                name: "system"@,
                ok: true,
                required: false,
                detail: xdg::SYSTEM_DAEMON_SOCKET@ + " (portless :80)"@,
            }
        } else {
            Finding {
                name: "system"@,
                ok: false,
                required: false,
                detail: "ad-hoc mode (:2015); see contrib/systemd/"@,
            }
        },
{
    if socket_exists {
        Check::info(
            "system",
            xdg::SYSTEM_DAEMON_SOCKET.to_owned().concat(" (portless :80)").as_str(),
        )
    } else {
        Check::warn("system", "ad-hoc mode (:2015); see contrib/systemd/")
    }
}

/// Whether the reverse proxy answers at the port of plain HTTP, or at the
/// other one. What answers there may be something else, or nothing.
pub fn check_http(plain: Option<bool>, other: Option<bool>) -> (r: Check)
    ensures
        r@ == if plain == Some(true) {
            Finding { name: "http"@, ok: true, required: true, detail: "portless"@ }
        } else if other == Some(true) {
            Finding { name: "http"@, ok: false, required: false, detail: "requires port in URLs"@ }
        } else {
            Finding { name: "http"@, ok: false, required: false, detail: "Caddy not listening"@ }
        },
{
    match plain {
        Some(true) => Check::ok("http", "portless"),
        _ => match other {
            Some(true) => Check::warn("http", "requires port in URLs"),
            _ => Check::warn("http", "Caddy not listening"),
        },
    }
}

/// A text in lower case.
pub open spec fn lowered(s: Seq<char>) -> Seq<char> {
    s.map_values(|c: char| text::lower(c))
}

/// Whether a line of a response names the reverse proxy as the server.
pub open spec fn names_caddy(line: Seq<char>) -> bool {
    words::starts_with(line, "server:"@) && words::contains_text(line, "caddy"@)
}

/// Whether some line of a response names the reverse proxy as the server, in
/// whatever case.
pub open spec fn is_caddy_head(head: Seq<char>) -> bool {
    exists|i: int|
        0 <= i < words::lines(lowered(head)).len() && names_caddy(
            #[trigger] words::lines(lowered(head))[i],
        )
}

/// Whether the head of a response is that of the reverse proxy.
pub fn caddy_on(head: &str) -> (r: bool)
    ensures
        r == is_caddy_head(head@),
{
    let cs = text::to_chars(head);
    let mut low: Vec<char> = Vec::new();
    for i in 0..cs.len()
        invariant
            cs@ == head@,
            low@ == lowered(head@).take(i as int),
    {
        low.push(text::to_lower(cs[i]));
        assert(lowered(head@).take(i + 1) == lowered(head@).take(i as int).push(
            lowered(head@)[i as int],
        ));
    }
    assert(lowered(head@).take(head@.len() as int) == lowered(head@));
    let lines = words::split_lines(&low);
    let ghost all = words::lines(lowered(head@));
    let server = text::to_chars("server:");
    let caddy = text::to_chars("caddy");
    for i in 0..lines.len()
        invariant
            all == words::lines(lowered(head@)),
            all == text::views(lines@),
            server@ == "server:"@,
            caddy@ == "caddy"@,
            forall|j: int| 0 <= j < i ==> !names_caddy(#[trigger] all[j]),
    {
        let line = text::to_chars(lines[i].as_str());
        assert(line@ == all[i as int]);
        if words::stands_at(&line, &server, 0) && words::has_text(&line, &caddy) {
            assert(names_caddy(all[i as int]));
            return true;
        }
    }
    false
}

/// Whether a directory can be written to, given why not if not.
pub fn check_dir_writable(label: &str, path: &str, failure: Option<&String>) -> (r: Check)
    ensures
        r@ == match failure {
            None => Finding { name: label@, ok: true, required: true, detail: path@ },
            Some(e) => Finding {
                name: label@,
                ok: false,
                required: true,
                detail: path@ + " ("@ + e@ + ")"@,
            },
        },
{
    match failure {
        None => Check::ok(label, path),
        Some(e) => Check::fail(
            label,
            path.to_owned().concat(" (").concat(e.as_str()).concat(")").as_str(),
        ),
    }
}

/// Whether the daemon answers. One that does not run is no failure, since it
/// is started when it is needed.
pub fn check_daemon_ping(answer: &Result<Response, String>, system_exists: bool) -> (r: Check)
    ensures
        r@ == match answer {
            Ok(a) => if a@ is Pong {
                Finding { name: "daemon"@, ok: true, required: true, detail: "responding"@ }
            } else {
                Finding {
                    name: "daemon"@,
                    ok: false,
                    required: true,
                    detail: "unexpected: "@ + ipc::response_debug(a@),
                }
            },
            Err(_) => Finding {
                name: "daemon"@,
                ok: true,
                required: true,
                detail: if system_exists {
                    "not running — sudo systemctl start 'nealsd@$USER'"@
                } else {
                    "not running (auto-starts on `neals up`)"@
                },
            },
        },
{
    match answer {
        Ok(Response::Pong) => Check::ok("daemon", "responding"),
        Ok(other) => Check::fail(
            "daemon",
            "unexpected: ".to_owned().concat(other.debug_text().as_str()).as_str(),
        ),
        Err(_) => if system_exists {
            Check::ok("daemon", "not running — sudo systemctl start 'nealsd@$USER'")
        } else {
            Check::ok("daemon", "not running (auto-starts on `neals up`)")
        },
    }
}

/// What a list of checks says.
pub open spec fn findings(list: Seq<Check>) -> Seq<Finding> {
    list.map_values(|c: Check| c@)
}

/// Whether a check that had to pass did not.
pub open spec fn is_failure(f: Finding) -> bool {
    !f.ok && f.required
}

/// How many checks had to pass and did not.
pub open spec fn failures(list: Seq<Finding>) -> nat
    decreases list.len(),
{
    if list.len() == 0 {
        0
    } else {
        failures(list.drop_last()) + if is_failure(list.last()) {
            1nat
        } else {
            0nat
        }
    }
}

/// The line that shows a check.
pub open spec fn check_line(f: Finding, color: bool) -> Seq<char> {
    style::padded(style::mark(f.ok, f.required, color), 18) + " "@ + style::padded(f.name, 10) + " "@
        + f.detail
}

/// The report on a list of checks.
#[derive(Debug, Clone, PartialEq, Eq)]
pub struct Report {
    pub lines: Vec<String>,
    /// The last line, and whether it is good news.
    pub passed: bool,
    pub summary: String,
}

/// The report on a list of checks.
pub fn run_doctor(checks: &Vec<Check>, color: bool) -> (r: Report)
    ensures
        text::views(r.lines@) == findings(checks@).map_values(|f: Finding| check_line(f, color)),
        r.passed == (failures(findings(checks@)) == 0),
        r.summary@ == if r.passed {
            "all required checks passed"@
        } else {
            text::decimal(failures(findings(checks@))) + " required check(s) failed"@
        },
{
    let ghost all = findings(checks@);
    let ghost want = all.map_values(|f: Finding| check_line(f, color));
    let mut lines: Vec<String> = Vec::new();
    let mut failed: usize = 0;
    for i in 0..checks.len()
        invariant
            all == findings(checks@),
            want == all.map_values(|f: Finding| check_line(f, color)),
            text::views(lines@) == want.take(i as int),
            failed == failures(all.take(i as int)),
            failed <= i,
    {
        assert(all.take(i + 1).drop_last() == all.take(i as int));
        let ghost before = text::views(lines@);
        let c = &checks[i];
        assert(c@ == all[i as int]);
        if !c.ok && c.required {
            failed = failed + 1;
        }
        let mark = style::format_mark(c.ok, c.required, color);
        lines.push(
            style::pad_right(mark.as_str(), 18).concat(" ").concat(
                style::pad_right(c.name.as_str(), 10).as_str(),
            ).concat(" ").concat(c.detail.as_str()),
        );
        assert(text::views(lines@) == before.push(want[i as int]));
        assert(want.take(i + 1) == want.take(i as int).push(want[i as int]));
    }
    assert(want.take(want.len() as int) == want);
    assert(all.take(all.len() as int) == all);
    if failed == 0 {
        Report { lines, passed: true, summary: "all required checks passed".to_owned() }
    } else {
        Report {
            lines,
            passed: false,
            summary: text::decimal_text(failed as u64).concat(" required check(s) failed"),
        }
    }
}

/// The report is good news exactly when every check that had to pass did.
pub proof fn report_is_good_news(list: Seq<Finding>)
    ensures
        failures(list) == 0 <==> forall|i: int|
            0 <= i < list.len() ==> !is_failure(#[trigger] list[i]),
    decreases list.len(),
{
    if list.len() > 0 {
        let front = list.drop_last();
        report_is_good_news(front);
        assert(forall|i: int| 0 <= i < front.len() ==> front[i] == list[i]);
        assert(list[list.len() - 1] == list.last());
    }
}

} // verus!
