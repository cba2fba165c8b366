//! The settings of the reverse proxy, how it is started, and how it is handed
//! its routes.
use crate::caddy;
use crate::caddy::{AdminWait, ApplyPlan, CaddyEnv, CaddyManager, LinkPlan, StartPlan};
use crate::devenv;
use crate::devenv::{ServiceDecl, ServiceKind};
use crate::json;
use crate::laws::routing;
use crate::paths;
use crate::state::BoundRoute;
use crate::text;
use crate::words;
use crate::xdg;
use crate::xdg::Dirs;
use vstd::prelude::*;
use vstd::string::*;
use vstd::utf8::*;

verus! {

/// The reverse proxy is switched off by an empty command or a hyphen, and by
/// nothing else.
pub proof fn switched_off(env: &CaddyEnv, r: bool)
    requires
        call_ensures(caddy::caddy_disabled, (env,), r),
    ensures
        r <==> (env.command matches Some(c) && (c@ == "-"@ || c@.len() == 0)),
{
    reveal_strlit("");
    if let Some(c) = env.command {
        if c@.len() == 0 {
            assert(c@ == ""@);
        }
    }
}

/// A command line is its first word and the rest; a blank one is none.
pub proof fn command_in_words(
    raw: Option<&String>,
    chars: &Vec<char>,
    list: Vec<String>,
    r: Option<(String, Vec<String>)>,
    i: int,
)
    requires
        call_ensures(caddy::split_command, (raw,), r),
        raw matches Some(s) ==> chars@ == s@ && call_ensures(words::split_words, (chars,), list),
        raw is None ==> list@.len() == 0,
    ensures
        r is None <==> list@.len() == 0,
        r matches Some(c) ==> c.0@ == list@[0]@ && c.1@.len() == list@.len() - 1,
        r matches Some(c) ==> (0 < i < list@.len() ==> c.1@[i - 1]@ == list@[i]@),
{
    let all = text::views(list@);
    assert(all.len() == list@.len());
    if let Some(c) = r {
        let args = text::views(c.1@);
        assert(args.len() == c.1@.len());
        assert(all[0] == list@[0]@);
        if 0 < i < list@.len() {
            assert(all[i] == list@[i]@);
            assert(args[i - 1] == c.1@[i - 1]@);
        }
    }
}

/// The reverse proxy is run by the command that is asked for. Where nothing
/// is asked for, or a lone hyphen, it is `caddy`.
pub proof fn command_of_the_proxy(
    env: &CaddyEnv,
    raw: Option<&String>,
    c: Option<(String, Vec<String>)>,
    r: (String, Vec<String>),
    i: int,
)
    requires
        call_ensures(caddy::caddy_command, (env,), r),
        match (env.command, raw) {
            (Some(a), Some(b)) => a@ == b@,
            (None, None) => true,
            _ => false,
        },
        call_ensures(caddy::split_command, (raw,), c),
    ensures
        c is None ==> r.0@ == "caddy"@ && r.1@.len() == 0,
        c matches Some(x) ==> (x.0@ == "-"@ && x.1@.len() == 0 ==> r.0@ == "caddy"@ && r.1@.len()
            == 0),
        c matches Some(x) ==> (x.0@ != "-"@ || x.1@.len() > 0 ==> r.0@ == x.0@ && r.1@.len()
            == x.1@.len() && (0 <= i < r.1@.len() ==> r.1@[i]@ == x.1@[i]@)),
{
    let args = text::views(r.1@);
    assert(args.len() == r.1@.len());
    if let Some(x) = c {
        let given = text::views(x.1@);
        assert(given.len() == x.1@.len());
        if 0 <= i < r.1@.len() {
            assert(args[i] == r.1@[i]@);
            if i < given.len() {
                assert(given[i] == x.1@[i]@);
            }
        }
    }
}

/// The daemon runs for the system where the mode says so, white space around
/// it left aside.
pub proof fn mode_of_the_daemon(env: &CaddyEnv, chars: &Vec<char>, t: String, r: bool)
    requires
        call_ensures(caddy::is_system_mode, (env,), r),
        env.mode matches Some(m) ==> chars@ == m@ && call_ensures(words::trimmed, (chars,), t),
    ensures
        r <==> env.mode is Some && t@ == "system"@,
{
}

/// The reverse proxy listens where it is told to, unless that is blank; else
/// at the port of plain HTTP for the system, and at an unprivileged port
/// otherwise.
pub proof fn address_of_the_proxy(
    env: &CaddyEnv,
    chars: &Vec<char>,
    t: String,
    system: bool,
    r: String,
)
    requires
        call_ensures(caddy::http_listen_addr, (env,), r),
        call_ensures(caddy::is_system_mode, (env,), system),
        env.http_addr matches Some(a) ==> chars@ == a@ && call_ensures(words::trimmed, (chars,), t),
    ensures
        env.http_addr matches Some(a) ==> (t@.len() > 0 ==> r@ == a@),
        env.http_addr is None || t@.len() == 0 ==> r@ == if system {
            "127.0.0.1:80"@
        } else {
            "127.0.0.1:2015"@
        },
{
}

/// Whether a text is the configuration of a reverse proxy that serves nothing
/// yet.
pub open spec fn starts_empty(
    t: Seq<char>,
    admin_sock: Seq<char>,
    http_addr: Seq<char>,
    log_path: Seq<char>,
    http: u16,
    https: u16,
) -> bool {
    t == json::json_pretty(
        routing::proxy_settings(admin_sock, http_addr, log_path, http, https, Seq::empty()),
    )
}

/// How the reverse proxy is started: it takes orders at a socket in the
/// directory for sockets, its configuration and its log lie with the other
/// logs, it listens where it is told to, and it is run on its configuration
/// unless the command says otherwise. One that is asked for by name may
/// refuse its orders; any other is waited for.
pub proof fn started(
    env: &CaddyEnv,
    dirs: &Dirs,
    r: Result<Option<StartPlan>, String>,
    off: bool,
    run: String,
    home: Result<String, String>,
    addr: String,
    command: (String, Vec<String>),
    a: &str,
    http: u16,
    https: u16,
)
    requires
        call_ensures(CaddyManager::start, (env, dirs), r),
        call_ensures(caddy::caddy_disabled, (env,), off),
        call_ensures(xdg::runtime_dir, (dirs,), run),
        call_ensures(xdg::state_dir, (dirs,), home),
        call_ensures(caddy::http_listen_addr, (env,), addr),
        call_ensures(caddy::caddy_command, (env,), command),
        a@ == addr@,
        call_ensures(caddy::http_port_from_addr, (a,), http),
        call_ensures(caddy::https_port_from_addr, (a,), https),
    ensures
        off ==> r matches Ok(None),
        !off && home is Err ==> r is Err,
        !off ==> (home matches Ok(h) ==> (r matches Ok(Some(p)) && {
            &&& p.runtime_dir@ == run@
            &&& p.state_dir@ == h@
            &&& p.manager.admin_sock@ == paths::below(run@, "caddy-admin.sock"@)
            &&& p.manager.config_path@ == paths::below(h@, "caddy.json"@)
            &&& p.log_path@ == paths::below(h@, "caddy.log"@)
            &&& p.manager.http_addr@ == addr@
            &&& p.manager.loose == env.command_set
            &&& p.wait == !env.command_set
            &&& p.program@ == command.0@
            &&& command.1@.len() > 0 || command.0@ != "caddy"@ ==> p.args@.len() == command.1@.len()
                && forall|i: int|
                0 <= i < p.args@.len() ==> (#[trigger] p.args@[i])@ == command.1@[i]@
            &&& command.1@.len() == 0 && command.0@ == "caddy"@ ==> p.args@.len() == 3
                && p.args@[0]@ == "run"@ && p.args@[1]@ == "--config"@ && p.args@[2]@
                == p.manager.config_path@
            &&& starts_empty(
                p.config_text@,
                p.manager.admin_sock@,
                addr@,
                p.log_path@,
                http,
                https,
            )
        })),
{
    if let Ok(Some(p)) = r {
        let args = text::views(p.args@);
        let given = text::views(command.1@);
        assert(args.len() == p.args@.len());
        assert(given.len() == command.1@.len());
        if command.1@.len() > 0 || command.0@ != "caddy"@ {
            assert forall|i: int| 0 <= i < p.args@.len() implies (#[trigger] p.args@[i])@
                == command.1@[i]@ by {
                assert(args[i] == p.args@[i]@);
                assert(given[i] == command.1@[i]@);
            }
        } else {
            assert(args[0] == p.args@[0]@);
            assert(args[1] == p.args@[1]@);
            assert(args[2] == p.args@[2]@);
        }
        if home is Ok {
            let tree = caddy::config_json(
                p.manager.admin_sock@,
                p.manager.http_addr@,
                p.log_path@,
                run@,
                Seq::empty(),
            );
            assert(caddy::proxy_routes(run@, Seq::empty()) == Seq::<json::Json>::empty());
            assert(tree == routing::proxy_settings(
                p.manager.admin_sock@,
                addr@,
                p.log_path@,
                http,
                https,
                Seq::empty(),
            ));
        }
    }
}

/// The reverse proxy is waited for up to fifty tries.
pub proof fn waited_for(m: &CaddyManager, attempt: u32, connected: bool, r: AdminWait)
    requires
        call_ensures(CaddyManager::wait_admin_ready, (m, attempt, connected), r),
    ensures
        connected ==> r is Ready,
        !connected && attempt < 50 ==> r is Again,
        !connected && attempt >= 50 ==> r is Failed,
{
}

/// The routes are handed over as one request with the whole configuration,
/// whose length in bytes is announced, and the same configuration is kept on
/// disk. Where there is no reverse proxy nothing is handed over.
pub proof fn handed_over(
    m: &CaddyManager,
    dirs: &Dirs,
    projects: &Vec<(String, Vec<BoundRoute>)>,
    r: Result<Option<ApplyPlan>, String>,
    run: String,
    home: Result<String, String>,
    admin_sock: &str,
    http_addr: &str,
    log_path: &str,
    runtime: &str,
    config: serde_json::Value,
)
    requires
        call_ensures(CaddyManager::apply_routes, (m, dirs, projects), r),
        call_ensures(xdg::runtime_dir, (dirs,), run),
        call_ensures(xdg::state_dir, (dirs,), home),
        admin_sock@ == m.admin_sock@,
        http_addr@ == m.http_addr@,
        home matches Ok(h) ==> log_path@ == paths::below(h@, "caddy.log"@),
        runtime@ == run@,
        call_ensures(
            caddy::build_caddy_config,
            (admin_sock, http_addr, log_path, runtime, projects),
            config,
        ),
    ensures
        m.loose && m.admin_sock@.len() == 0 ==> r matches Ok(None),
        !(m.loose && m.admin_sock@.len() == 0) && home is Err ==> r is Err,
        !(m.loose && m.admin_sock@.len() == 0) && home is Ok ==> (r matches Ok(Some(p)) && {
            let body = json::json_text(json::json_tree(config));
            &&& p.admin_sock@ == m.admin_sock@
            &&& p.config_path@ == m.config_path@
            &&& p.config_text@ == json::json_pretty(json::json_tree(config))
            &&& p.request@
                == "POST /load HTTP/1.1\r\nHost: localhost\r\nContent-Type: application/json\r\nContent-Length: "@
                + text::decimal(encode_utf8(body).len()) + "\r\nConnection: close\r\n\r\n"@ + body
        }),
{
}

/// A refusal of the routes counts unless the reverse proxy may refuse them;
/// then it is only noted.
pub proof fn refusal_of_routes(
    m: &CaddyManager,
    outcome: Result<(), String>,
    r: (Result<(), String>, Option<String>),
)
    requires
        call_ensures(CaddyManager::applied, (m, outcome), r),
    ensures
        outcome is Ok ==> r.0 is Ok && r.1 is None,
        outcome matches Err(e) ==> (!m.loose ==> (r.0 matches Err(x) && x@ == e@) && r.1 is None),
        outcome matches Err(e) ==> (m.loose ==> r.0 is Ok && (r.1 matches Some(n) && n@
            == "caddy apply skipped: "@ + e@)),
{
}

/// Whether `sub` stands somewhere in `s`.
pub open spec fn stands_in(s: Seq<char>, sub: Seq<char>) -> bool {
    exists|i: int| 0 <= i && i + sub.len() <= s.len() && #[trigger] s.subrange(i, i + sub.len()) == sub
}

/// The reverse proxy has taken its configuration if the first line of its
/// answer holds the number of success, whatever else it says. If not, the
/// complaint quotes that line.
pub proof fn answer_of_the_proxy(
    response: &str,
    line: Seq<char>,
    rest: Seq<char>,
    r: Result<(), String>,
)
    requires
        call_ensures(caddy::read_load_response, (response,), r),
        !line.contains('\n'),
        response@ == line + seq!['\r', '\n'] + rest,
    ensures
        r is Ok <==> stands_in(line, "200"@),
        r matches Err(m) ==> m@.len() > 20 + line.len() && m@.take(20) == "caddy /load failed: "@
            && m@.subrange(20, 20 + line.len() as int) == line,
{
    let head = line.push('\r');
    if head.contains('\n') {
        let i = head.index_of('\n');
        assert(line[i] == '\n');
        assert(line.contains('\n'));
    }
    let tail = seq!['\n'] + rest;
    words::lemma_until(head, tail, '\n');
    assert(response@ == head + tail);
    assert(response@.take(head.len() as int) == head);
    assert(words::lines(response@)[0] == words::without_return(head));
    assert(head.drop_last() == line);
    assert(caddy::first_line(response@) == line);
    if words::contains_text(line, "200"@) {
        let at = choose|at: int| words::occurs_at(line, "200"@, at);
        assert(line.subrange(at, at + "200"@.len()) == "200"@);
    }
    if stands_in(line, "200"@) {
        let i = choose|i: int|
            0 <= i && i + "200"@.len() <= line.len() && #[trigger] line.subrange(
                i,
                i + "200"@.len(),
            ) == "200"@;
        assert(words::occurs_at(line, "200"@, i));
    }
    if let Err(m) = r {
        reveal_strlit("caddy /load failed: ");
        reveal_strlit(" ");
        let body = choose|body: Seq<char>| #[trigger]
            caddy::second_part(response@, "\r\n\r\n"@, body) && m@ == "caddy /load failed: "@
                + caddy::first_line(response@) + " "@ + words::trim(body);
        assert(m@.subrange(20, 20 + line.len() as int) == line);
        assert(m@.take(20) == "caddy /load failed: "@);
    }
}

/// Whether links are those to the sockets of the services at the given
/// positions, and no other service has a socket.
pub open spec fn links_at(
    links: Seq<(String, String)>,
    services: Seq<ServiceDecl>,
    project_dir: Seq<char>,
    runtime: Seq<char>,
    at: Seq<int>,
) -> bool {
    &&& at.len() == links.len()
    &&& routing::goes_up(at, services.len() as int)
    &&& forall|k: int|
        0 <= k < links.len() ==> links_to(
            #[trigger] links[k],
            services[at[k]],
            project_dir,
            runtime,
        )
    &&& forall|j: int|
        0 <= j < services.len() && (#[trigger] services[j]).kind is Unix ==> at.contains(j)
}

/// Whether a link lies in the project, in the directory for links, under the
/// name of the socket of a service, and leads to that socket.
pub open spec fn links_to(
    link: (String, String),
    d: ServiceDecl,
    project_dir: Seq<char>,
    runtime: Seq<char>,
) -> bool {
    d.kind matches ServiceKind::Unix { socket_file } && link.0@ == paths::below(
        paths::below(project_dir, ".neals"@),
        socket_file@,
    ) && link.1@ == paths::below(runtime, socket_file@)
}

proof fn lemma_links(
    links: Seq<(String, String)>,
    services: Seq<ServiceDecl>,
    project_dir: Seq<char>,
    runtime: Seq<char>,
) -> (at: Seq<int>)
    requires
        caddy::links_of(links) == caddy::sockets(devenv::services(services)).map_values(
            |s: Seq<char>| caddy::link_to(project_dir, runtime, s),
        ),
    ensures
        links_at(links, services, project_dir, runtime, at),
    decreases services.len(),
{
    let model = devenv::services(services);
    let said = caddy::links_of(links);
    let to = |s: Seq<char>| caddy::link_to(project_dir, runtime, s);
    if services.len() == 0 {
        assert(said.len() == 0);
        assert(links.len() == 0);
        Seq::empty()
    } else {
        let front = services.drop_last();
        let last = services.last();
        let n = front.len() as int;
        assert(devenv::services(front) == model.drop_last());
        assert(model.last() == last@);
        assert(services[n] == last);
        assert(forall|j: int| 0 <= j < n ==> front[j] == services[j]);
        let before_sockets = caddy::sockets(model.drop_last());
        if let ServiceKind::Unix { socket_file } = last.kind {
            let rest = links.drop_last();
            assert(caddy::sockets(model) == before_sockets.push(socket_file@));
            assert(said.len() == before_sockets.len() + 1);
            assert(said.len() == links.len());
            assert(caddy::links_of(rest) == said.drop_last());
            assert(said.drop_last() == before_sockets.map_values(to));
            let before = lemma_links(rest, front, project_dir, runtime);
            let at = before.push(n);
            let f = links.last();
            assert(said.last() == (f.0@, f.1@));
            assert(said.last() == to(socket_file@));
            assert forall|k: int| 0 <= k < links.len() implies links_to(
                #[trigger] links[k],
                services[at[k]],
                project_dir,
                runtime,
            ) by {
                if k < rest.len() {
                    assert(rest[k] == links[k]);
                    assert(at[k] == before[k]);
                    assert(links_to(rest[k], front[before[k]], project_dir, runtime));
                }
            }
            assert forall|j: int|
                0 <= j < services.len() && (
                #[trigger] services[j]).kind is Unix implies at.contains(j) by {
                if j < n {
                    assert(front[j].kind is Unix);
                    let k = before.index_of(j);
                    assert(at[k] == j);
                } else {
                    assert(at[before.len() as int] == n);
                }
            }
            at
        } else {
            let at = lemma_links(links, front, project_dir, runtime);
            assert forall|k: int| 0 <= k < links.len() implies links_to(
                #[trigger] links[k],
                services[at[k]],
                project_dir,
                runtime,
            ) by {
                assert(0 <= at[k] < n);
                assert(links_to(links[k], front[at[k]], project_dir, runtime));
            }
            assert forall|j: int|
                0 <= j < services.len() && (
                #[trigger] services[j]).kind is Unix implies at.contains(j) by {
                assert(j < n);
                assert(front[j].kind is Unix);
            }
            at
        }
    }
}

/// A project gets one link for each of its sockets, in order, and the
/// directory for links only if there are any.
pub proof fn linked_sockets(
    project_dir: &str,
    runtime: &str,
    services: &Vec<ServiceDecl>,
    r: LinkPlan,
)
    requires
        call_ensures(caddy::ensure_neals_symlinks, (project_dir, runtime, services), r),
    ensures
        exists|at: Seq<int>| #[trigger]
            links_at(r.links@, services@, project_dir@, runtime@, at),
        r.dir is Some <==> r.links@.len() > 0,
        r.dir matches Some(d) ==> d@ == paths::below(project_dir@, ".neals"@),
{
    let at = lemma_links(r.links@, services@, project_dir@, runtime@);
    assert(links_at(r.links@, services@, project_dir@, runtime@, at));
    assert(caddy::links_of(r.links@).len() == r.links@.len());
}

/// Without a reverse proxy there is no address and no socket, and nothing to
/// be refused.
pub proof fn no_proxy(r: CaddyManager, m: &CaddyManager, addr: &str, dir: &str, links: String)
    requires
        call_ensures(CaddyManager::disabled, (), r),
        call_ensures(CaddyManager::http_addr, (m,), addr),
        call_ensures(caddy::neals_dir, (dir,), links),
    ensures
        r.admin_sock@.len() == 0,
        r.http_addr@.len() == 0,
        r.config_path@.len() == 0,
        r.loose,
        addr@ == m.http_addr@,
        links@ == paths::below(dir@, ".neals"@),
{
}

/// The first line of a text is the first of its lines, and empty where there
/// are none.
pub proof fn first_of_the_lines(s: &Vec<char>, r: String, lines: Vec<String>)
    requires
        call_ensures(caddy::first_line_text, (s,), r),
        call_ensures(words::split_lines, (s,), lines),
    ensures
        lines@.len() == 0 ==> r@.len() == 0,
        lines@.len() > 0 ==> r@ == lines@[0]@,
{
    assert(text::views(lines@).len() == lines@.len());
    if lines@.len() > 0 {
        assert(text::views(lines@)[0] == lines@[0]@);
    }
}

/// Whether a text stands at a position of another.
pub open spec fn stands_at(s: Seq<char>, sub: Seq<char>, at: int) -> bool {
    0 <= at && at + sub.len() <= s.len() && s.subrange(at, at + sub.len()) == sub
}

/// A complaint of the reverse proxy ends with what stands behind the blank
/// line of its answer, up to the next one, without white space around it.
pub proof fn reason_of_the_proxy(
    response: &str,
    cs: &Vec<char>,
    line: String,
    r: Result<(), String>,
    a: int,
    b: int,
    body: &Vec<char>,
    reason: String,
)
    requires
        call_ensures(caddy::read_load_response, (response,), r),
        cs@ == response@,
        call_ensures(caddy::first_line_text, (cs,), line),
        call_ensures(words::trimmed, (body,), reason),
        (exists|k: int| #[trigger] stands_at(response@, "\r\n\r\n"@, k)) ==> {
            let rest = response@.skip(a + 4);
            &&& stands_at(response@, "\r\n\r\n"@, a)
            &&& forall|k: int| 0 <= k < a ==> !#[trigger] stands_at(response@, "\r\n\r\n"@, k)
            &&& 0 <= b <= rest.len()
            &&& b == rest.len() || stands_at(rest, "\r\n\r\n"@, b)
            &&& forall|k: int| 0 <= k < b ==> !#[trigger] stands_at(rest, "\r\n\r\n"@, k)
            &&& body@ == rest.take(b)
        },
        !(exists|k: int| #[trigger] stands_at(response@, "\r\n\r\n"@, k)) ==> body@.len() == 0,
    ensures
        r matches Err(m) ==> m@ == "caddy /load failed: "@ + line@ + " "@ + reason@,
{
    reveal_strlit("\r\n\r\n");
    let sep = "\r\n\r\n"@;
    assert(sep.len() == 4);
    if let Err(m) = r {
        let part = choose|part: Seq<char>| #[trigger]
            caddy::second_part(response@, sep, part) && m@ == "caddy /load failed: "@
                + caddy::first_line(response@) + " "@ + words::trim(part);
        if words::contains_text(response@, sep) {
            let k = choose|k: int| words::occurs_at(response@, sep, k);
            assert(stands_at(response@, sep, k));
            let x = choose|x: int|
                {
                    &&& #[trigger] words::first_at(response@, sep, x)
                    &&& caddy::is_front(response@.skip(x + sep.len()), sep, part)
                };
            assert(words::occurs_at(response@, sep, a));
            assert(stands_at(response@, sep, x));
            assert(x == a) by {
                if x < a {
                    assert(!stands_at(response@, sep, x));
                }
                if a < x {
                    assert(!words::occurs_at(response@, sep, a));
                }
            }
            let rest = response@.skip(a + 4);
            lemma_front(rest, sep, part, b);
            assert(part == body@);
        } else {
            if exists|k: int| #[trigger] stands_at(response@, sep, k) {
                let k = choose|k: int| #[trigger] stands_at(response@, sep, k);
                assert(words::occurs_at(response@, sep, k));
            }
            assert(part == body@);
        }
    }
}

proof fn lemma_front(rest: Seq<char>, sep: Seq<char>, part: Seq<char>, b: int)
    requires
        sep.len() == 4,
        caddy::is_front(rest, sep, part),
        0 <= b <= rest.len(),
        b == rest.len() || stands_at(rest, sep, b),
        forall|k: int| 0 <= k < b ==> !#[trigger] stands_at(rest, sep, k),
    ensures
        part == rest.take(b),
{
    if words::contains_text(rest, sep) {
        let y = choose|y: int| #[trigger] words::first_at(rest, sep, y) && part == rest.take(y);
        assert(stands_at(rest, sep, y));
        if y < b {
            assert(!stands_at(rest, sep, y));
        }
        if b < y {
            assert(words::occurs_at(rest, sep, b));
        }
    } else {
        if b < rest.len() {
            assert(words::occurs_at(rest, sep, b));
        }
        assert(rest.take(b) == rest);
    }
}

} // verus!
