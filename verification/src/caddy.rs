//! The reverse proxy.
use crate::devenv;
use crate::devenv::{ServiceDecl, ServiceKind};
use crate::json;
use crate::paths;
use crate::state;
use crate::state::{BoundRoute, BoundTarget};
use crate::text;
use crate::words;
use crate::xdg;
use crate::xdg::Dirs;
use vstd::prelude::*;
use vstd::string::*;
use vstd::utf8::*;

verus! {

/// The port behind the last colon of an address; 2015 if there is none.
pub open spec fn http_port(addr: Seq<char>) -> u16 {
    let parts = words::pieces(addr, ':');
    if parts.len() < 2 {
        2015
    } else {
        match text::number(parts.last(), 65535) {
            Some(p) => p as u16,
            None => 2015,
        }
    }
}

/// The port behind the last colon of an address; 2015 if there is none.
pub fn http_port_from_addr(addr: &str) -> (r: u16)
    ensures
        r == http_port(addr@),
{
    let parts = words::split_on(&text::to_chars(addr), ':');
    let ghost all = words::pieces(addr@, ':');
    assert(parts@[parts@.len() - 1]@ == all.last());
    if parts.len() < 2 {
        return 2015;
    }
    let last = text::to_chars(parts[parts.len() - 1].as_str());
    match text::parse_number(&last, 65535) {
        Some(p) => p as u16,
        None => 2015,
    }
}

/// The port for HTTPS. It stays above the privileged ones, since nothing
/// listens there.
pub open spec fn https_port(addr: Seq<char>) -> u16 {
    let p = http_port(addr);
    if p < 1024 {
        2016
    } else if p == u16::MAX {
        u16::MAX
    } else {
        (p + 1) as u16
    }
}

/// The port for HTTPS next to an address for HTTP.
pub fn https_port_from_addr(addr: &str) -> (r: u16)
    ensures
        r == https_port(addr@),
{
    let p = http_port_from_addr(addr);
    if p < 1024 {
        2016
    } else {
        p.saturating_add(1)
    }
}

// ---------------------------------------------------------------------------
// Configuration
// ---------------------------------------------------------------------------
/// Where the reverse proxy reaches a service.
pub open spec fn dial(runtime: Seq<char>, project: Seq<char>, target: state::Target) -> Seq<char> {
    match target {
        state::Target::Unix { socket_file } => "unix/"@ + paths::below(
            paths::below(runtime, project),
            socket_file,
        ),
        state::Target::Tcp { host_port, .. } => "127.0.0.1:"@ + text::decimal(host_port as nat),
    }
}

fn dial_text(runtime: &str, project: &str, target: &BoundTarget) -> (r: String)
    ensures
        r@ == dial(runtime@, project@, target@),
{
    match target {
        BoundTarget::Unix { socket_file } => {
            let dir = paths::join_path(runtime, project);
            "unix/".to_owned().concat(
                paths::join_path(dir.as_str(), socket_file.as_str()).as_str(),
            )
        },
        BoundTarget::Tcp { host_port, .. } => "127.0.0.1:".to_owned().concat(
            text::decimal_text(*host_port as u64).as_str(),
        ),
    }
}

/// A list with one value.
pub open spec fn alone(j: json::Json) -> json::Json {
    json::Json::List(seq![j])
}

/// An object with two fields.
pub open spec fn pair(a: Seq<char>, x: json::Json, b: Seq<char>, y: json::Json) -> json::Json {
    json::Json::Object(seq![(a, x), (b, y)])
}

fn pair_value(a: &str, x: serde_json::Value, b: &str, y: serde_json::Value) -> (r:
    serde_json::Value)
    requires
        a@ != b@,
    ensures
        json::json_tree(r) == pair(a@, json::json_tree(x), b@, json::json_tree(y)),
{
    let mut f: Vec<(String, serde_json::Value)> = Vec::new();
    f.push((a.to_owned(), x));
    f.push((b.to_owned(), y));
    assert(json::field_trees(f@) == seq![(a@, json::json_tree(x)), (b@, json::json_tree(y))]);
    json::object_value(f)
}

/// An object with three fields.
pub open spec fn triple(
    a: Seq<char>,
    x: json::Json,
    b: Seq<char>,
    y: json::Json,
    c: Seq<char>,
    z: json::Json,
) -> json::Json {
    json::Json::Object(seq![(a, x), (b, y), (c, z)])
}

fn triple_value(
    a: &str,
    x: serde_json::Value,
    b: &str,
    y: serde_json::Value,
    c: &str,
    z: serde_json::Value,
) -> (r: serde_json::Value)
    requires
        a@ != b@,
        a@ != c@,
        b@ != c@,
    ensures
        json::json_tree(r) == triple(
            a@,
            json::json_tree(x),
            b@,
            json::json_tree(y),
            c@,
            json::json_tree(z),
        ),
{
    let mut f: Vec<(String, serde_json::Value)> = Vec::new();
    f.push((a.to_owned(), x));
    f.push((b.to_owned(), y));
    f.push((c.to_owned(), z));
    assert(json::field_trees(f@) == seq![
        (a@, json::json_tree(x)),
        (b@, json::json_tree(y)),
        (c@, json::json_tree(z)),
    ]);
    json::object_value(f)
}

/// A route of the reverse proxy: requests for the host go to the address.
pub open spec fn proxy_route(host: Seq<char>, address: Seq<char>) -> json::Json {
    pair(
        "match"@,
        alone(json::single("host"@, alone(json::Json::Text(host)))),
        "handle"@,
        alone(
            pair(
                "handler"@,
                json::Json::Text("reverse_proxy"@),
                "upstreams"@,
                alone(json::single("dial"@, json::Json::Text(address))),
            ),
        ),
    )
}

fn proxy_route_value(host: String, address: String) -> (r: serde_json::Value)
    ensures
        json::json_tree(r) == proxy_route(host@, address@),
{
    proof {
        lemma_route_names();
    }
    let hosts = json::singleton_value(json::text_value(host));
    let matcher = json::singleton_value(json::single_value("host", hosts));
    let upstream = json::single_value("dial", json::text_value(address));
    let handler = pair_value(
        "handler",
        json::text_value("reverse_proxy".to_owned()),
        "upstreams",
        json::singleton_value(upstream),
    );
    pair_value("match", matcher, "handle", json::singleton_value(handler))
}

proof fn lemma_route_names()
    ensures
        "match"@ != "handle"@,
        "handler"@ != "upstreams"@,
{
    reveal_strlit("match");
    reveal_strlit("handle");
    reveal_strlit("handler");
    reveal_strlit("upstreams");
    assert("match"@.len() == 5);
    assert("handle"@.len() == 6);
    assert("handler"@.len() == 7);
    assert("upstreams"@.len() == 9);
}

/// The routes of one project: those that are proxied, in order.
pub open spec fn project_routes(
    runtime: Seq<char>,
    project: Seq<char>,
    bound: Seq<state::Route>,
) -> Seq<json::Json> {
    state::proxied(bound).map_values(
        |r: state::Route|
            proxy_route(devenv::host_name(r.service, project), dial(runtime, project, r.target)),
    )
}

/// The routes of all projects, one project after the other.
pub open spec fn proxy_routes(
    runtime: Seq<char>,
    projects: Seq<(Seq<char>, Seq<state::Route>)>,
) -> Seq<json::Json>
    decreases projects.len(),
{
    if projects.len() == 0 {
        Seq::empty()
    } else {
        proxy_routes(runtime, projects.drop_last()) + project_routes(
            runtime,
            projects.last().0,
            projects.last().1,
        )
    }
}

fn proxy_routes_value(runtime: &str, projects: &Vec<(String, Vec<BoundRoute>)>) -> (r: Vec<
    serde_json::Value,
>)
    ensures
        json::trees(r@) == proxy_routes(runtime@, state::snapshot_of(projects@)),
{
    let ghost all = state::snapshot_of(projects@);
    let mut r: Vec<serde_json::Value> = Vec::new();
    for i in 0..projects.len()
        invariant
            all == state::snapshot_of(projects@),
            json::trees(r@) == proxy_routes(runtime@, all.take(i as int)),
    {
        assert(all.take(i + 1).drop_last() == all.take(i as int));
        let ghost before = json::trees(r@);
        let project = projects[i].0.as_str();
        let bound = state::proxied_routes(&projects[i].1);
        let ghost want = project_routes(runtime@, all[i as int].0, all[i as int].1);
        assert(before + want.take(0) == before);
        for j in 0..bound.len()
            invariant
                project@ == all[i as int].0,
                state::routes(bound@) == state::proxied(all[i as int].1),
                want == project_routes(runtime@, all[i as int].0, all[i as int].1),
                json::trees(r@) == before + want.take(j as int),
        {
            let route = &bound[j];
            let ghost so_far = json::trees(r@);
            assert(state::routes(bound@)[j as int] == route@);
            let v = proxy_route_value(
                route.public_host(project),
                dial_text(runtime, project, &route.target),
            );
            assert(json::json_tree(v) == want[j as int]);
            r.push(v);
            assert(json::trees(r@) == so_far.push(want[j as int]));
            assert(before + want.take(j + 1) == (before + want.take(j as int)).push(
                want[j as int],
            ));
        }
        assert(want.take(want.len() as int) == want);
    }
    assert(all.take(all.len() as int) == all);
    r
}

/// The configuration of the reverse proxy.
pub open spec fn config_json(
    admin_sock: Seq<char>,
    http_addr: Seq<char>,
    log_path: Seq<char>,
    runtime: Seq<char>,
    projects: Seq<(Seq<char>, Seq<state::Route>)>,
) -> json::Json {
    triple(
        "admin"@,
        json::single("listen"@, json::Json::Text("unix/"@ + admin_sock)),
        "logging"@,
        json::single(
            "logs"@,
            json::single(
                "default"@,
                json::single(
                    "writer"@,
                    pair(
                        "output"@,
                        json::Json::Text("file"@),
                        "filename"@,
                        json::Json::Text(log_path),
                    ),
                ),
            ),
        ),
        "apps"@,
        json::single(
            "http"@,
            triple(
                "http_port"@,
                json::Json::Number(http_port(http_addr) as u64),
                "https_port"@,
                json::Json::Number(https_port(http_addr) as u64),
                "servers"@,
                json::single(
                    "neals"@,
                    triple(
                        "listen"@,
                        alone(json::Json::Text(http_addr)),
                        "automatic_https"@,
                        json::single("disable"@, json::Json::Bool(true)),
                        "routes"@,
                        json::Json::List(proxy_routes(runtime, projects)),
                    ),
                ),
            ),
        ),
    )
}

/// The configuration of the reverse proxy.
pub fn build_caddy_config(
    admin_sock: &str,
    http_addr: &str,
    log_path: &str,
    runtime: &str,
    projects: &Vec<(String, Vec<BoundRoute>)>,
) -> (r: serde_json::Value)
    ensures
        json::json_tree(r) == config_json(
            admin_sock@,
            http_addr@,
            log_path@,
            runtime@,
            state::snapshot_of(projects@),
        ),
{
    proof {
        lemma_config_names();
    }
    let admin = json::single_value(
        "listen",
        json::text_value("unix/".to_owned().concat(admin_sock)),
    );
    let writer = pair_value(
        "output",
        json::text_value("file".to_owned()),
        "filename",
        json::text_value(log_path.to_owned()),
    );
    let logging = json::single_value(
        "logs",
        json::single_value("default", json::single_value("writer", writer)),
    );
    let server = triple_value(
        "listen",
        json::singleton_value(json::text_value(http_addr.to_owned())),
        "automatic_https",
        json::single_value("disable", json::bool_value(true)),
        "routes",
        json::list_value(proxy_routes_value(runtime, projects)),
    );
    let http = triple_value(
        "http_port",
        json::number_value(http_port_from_addr(http_addr) as u64),
        "https_port",
        json::number_value(https_port_from_addr(http_addr) as u64),
        "servers",
        json::single_value("neals", server),
    );
    triple_value("admin", admin, "logging", logging, "apps", json::single_value("http", http))
}

proof fn lemma_config_names()
    ensures
        "admin"@ != "logging"@,
        "admin"@ != "apps"@,
        "logging"@ != "apps"@,
        "output"@ != "filename"@,
        "http_port"@ != "https_port"@,
        "http_port"@ != "servers"@,
        "https_port"@ != "servers"@,
        "listen"@ != "automatic_https"@,
        "listen"@ != "routes"@,
        "automatic_https"@ != "routes"@,
{
    reveal_strlit("admin");
    reveal_strlit("logging");
    reveal_strlit("apps");
    reveal_strlit("output");
    reveal_strlit("filename");
    reveal_strlit("http_port");
    reveal_strlit("https_port");
    reveal_strlit("servers");
    reveal_strlit("listen");
    reveal_strlit("automatic_https");
    reveal_strlit("routes");
    assert("admin"@.len() == 5);
    assert("logging"@.len() == 7);
    assert("apps"@.len() == 4);
    assert("output"@.len() == 6);
    assert("filename"@.len() == 8);
    assert("http_port"@.len() == 9);
    assert("https_port"@.len() == 10);
    assert("servers"@.len() == 7);
    assert("listen"@[0] == 'l');
    assert("automatic_https"@.len() == 15);
    assert("routes"@[0] == 'r');
    assert("listen"@.len() == 6);
    assert("routes"@.len() == 6);
}

proof fn lemma_pair_plain(
    a: Seq<char>,
    x: json::Json,
    b: Seq<char>,
    y: json::Json,
    depth: nat,
)
    requires
        a != b,
        depth > 0,
        json::is_plain(x, (depth - 1) as nat),
        json::is_plain(y, (depth - 1) as nat),
    ensures
        json::is_plain(pair(a, x, b, y), depth),
{
    let f = seq![(a, x), (b, y)];
    assert forall|i: int| 0 <= i < f.len() implies json::is_plain(
        (#[trigger] f[i]).1,
        (depth - 1) as nat,
    ) by {
        assert(i == 0 || i == 1);
    }
}

proof fn lemma_triple_plain(
    a: Seq<char>,
    x: json::Json,
    b: Seq<char>,
    y: json::Json,
    c: Seq<char>,
    z: json::Json,
    depth: nat,
)
    requires
        a != b,
        a != c,
        b != c,
        depth > 0,
        json::is_plain(x, (depth - 1) as nat),
        json::is_plain(y, (depth - 1) as nat),
        json::is_plain(z, (depth - 1) as nat),
    ensures
        json::is_plain(triple(a, x, b, y, c, z), depth),
{
    let f = seq![(a, x), (b, y), (c, z)];
    assert forall|i: int| 0 <= i < f.len() implies json::is_plain(
        (#[trigger] f[i]).1,
        (depth - 1) as nat,
    ) by {
        assert(i == 0 || i == 1 || i == 2);
    }
}

proof fn lemma_alone_plain(j: json::Json, depth: nat)
    requires
        depth > 0,
        json::is_plain(j, (depth - 1) as nat),
    ensures
        json::is_plain(alone(j), depth),
{
    let l = seq![j];
    assert forall|i: int| 0 <= i < l.len() implies json::is_plain(
        #[trigger] l[i],
        (depth - 1) as nat,
    ) by {
        assert(l[i] == j);
    }
}

proof fn lemma_route_plain(host: Seq<char>, address: Seq<char>, depth: nat)
    requires
        depth > 5,
    ensures
        json::is_plain(proxy_route(host, address), depth),
{
    lemma_route_names();
    let hosts = alone(json::Json::Text(host));
    lemma_alone_plain(json::Json::Text(host), (depth - 3) as nat);
    json::lemma_plain_single("host"@, hosts, (depth - 2) as nat);
    lemma_alone_plain(json::single("host"@, hosts), (depth - 1) as nat);
    let upstream = json::single("dial"@, json::Json::Text(address));
    json::lemma_plain_single("dial"@, json::Json::Text(address), (depth - 4) as nat);
    lemma_alone_plain(upstream, (depth - 3) as nat);
    let handler = json::Json::Text("reverse_proxy"@);
    lemma_pair_plain("handler"@, handler, "upstreams"@, alone(upstream), (depth - 2) as nat);
    let handle = pair("handler"@, handler, "upstreams"@, alone(upstream));
    lemma_alone_plain(handle, (depth - 1) as nat);
    lemma_pair_plain(
        "match"@,
        alone(json::single("host"@, hosts)),
        "handle"@,
        alone(handle),
        depth,
    );
}

proof fn lemma_routes_plain(
    runtime: Seq<char>,
    projects: Seq<(Seq<char>, Seq<state::Route>)>,
    depth: nat,
)
    requires
        depth > 5,
    ensures
        forall|i: int|
            0 <= i < proxy_routes(runtime, projects).len() ==> json::is_plain(
                #[trigger] proxy_routes(runtime, projects)[i],
                depth,
            ),
    decreases projects.len(),
{
    if projects.len() > 0 {
        let (project, bound) = projects.last();
        let front = proxy_routes(runtime, projects.drop_last());
        let mine = project_routes(runtime, project, bound);
        let all = proxy_routes(runtime, projects);
        lemma_routes_plain(runtime, projects.drop_last(), depth);
        assert forall|i: int| 0 <= i < all.len() implies json::is_plain(
            #[trigger] all[i],
            depth,
        ) by {
            if i < front.len() {
                assert(all[i] == front[i]);
            } else {
                let r = state::proxied(bound)[i - front.len()];
                assert(all[i] == mine[i - front.len()]);
                lemma_route_plain(
                    devenv::host_name(r.service, project),
                    dial(runtime, project, r.target),
                    depth,
                );
            }
        }
    }
}

proof fn lemma_config_plain(
    admin_sock: Seq<char>,
    http_addr: Seq<char>,
    log_path: Seq<char>,
    runtime: Seq<char>,
    projects: Seq<(Seq<char>, Seq<state::Route>)>,
)
    ensures
        json::is_plain(config_json(admin_sock, http_addr, log_path, runtime, projects), 127),
{
    lemma_config_names();
    let admin = json::Json::Text("unix/"@ + admin_sock);
    json::lemma_plain_single("listen"@, admin, 126);
    let (file, path) = (json::Json::Text("file"@), json::Json::Text(log_path));
    lemma_pair_plain("output"@, file, "filename"@, path, 123);
    let writer = pair("output"@, file, "filename"@, path);
    json::lemma_plain_single("writer"@, writer, 124);
    json::lemma_plain_single("default"@, json::single("writer"@, writer), 125);
    let logs = json::single("default"@, json::single("writer"@, writer));
    json::lemma_plain_single("logs"@, logs, 126);
    let listen = alone(json::Json::Text(http_addr));
    lemma_alone_plain(json::Json::Text(http_addr), 122);
    let off = json::single("disable"@, json::Json::Bool(true));
    json::lemma_plain_single("disable"@, json::Json::Bool(true), 122);
    lemma_routes_plain(runtime, projects, 121);
    let routes = json::Json::List(proxy_routes(runtime, projects));
    json::lemma_plain_list(proxy_routes(runtime, projects), 122);
    lemma_triple_plain("listen"@, listen, "automatic_https"@, off, "routes"@, routes, 123);
    let server = triple("listen"@, listen, "automatic_https"@, off, "routes"@, routes);
    json::lemma_plain_single("neals"@, server, 124);
    let http = json::Json::Number(http_port(http_addr) as u64);
    let https = json::Json::Number(https_port(http_addr) as u64);
    let servers = json::single("neals"@, server);
    lemma_triple_plain("http_port"@, http, "https_port"@, https, "servers"@, servers, 125);
    let app = triple("http_port"@, http, "https_port"@, https, "servers"@, servers);
    json::lemma_plain_single("http"@, app, 126);
    lemma_triple_plain(
        "admin"@,
        json::single("listen"@, admin),
        "logging"@,
        json::single("logs"@, logs),
        "apps"@,
        json::single("http"@, app),
        127,
    );
}

// ---------------------------------------------------------------------------
// Settings
// ---------------------------------------------------------------------------
/// The environment variables that concern the reverse proxy.
#[derive(Debug, Clone, PartialEq, Eq)]
pub struct CaddyEnv {
    /// `NEALS_CADDY_CMD`, if it is text.
    pub command: Option<String>,
    /// Whether `NEALS_CADDY_CMD` is set.
    pub command_set: bool,
    /// `NEALS_CADDY_HTTP_ADDR`
    pub http_addr: Option<String>,
    /// `NEALS_MODE`
    pub mode: Option<String>,
}

/// Whether the reverse proxy is switched off.
pub open spec fn is_disabled(command: Option<Seq<char>>) -> bool {
    command == Some("-"@) || command == Some(""@)
}

/// Whether the reverse proxy is switched off.
pub fn caddy_disabled(env: &CaddyEnv) -> (r: bool)
    ensures
        r == is_disabled(xdg::text_of(env.command)),
{
    match &env.command {
        Some(c) => text::same(c.as_str(), "-") || text::same(c.as_str(), ""),
        None => false,
    }
}

/// The program and the arguments that a command line consists of, none if it
/// is blank.
pub open spec fn command_line(raw: Option<Seq<char>>) -> Option<(Seq<char>, Seq<Seq<char>>)> {
    match raw {
        None => None,
        Some(line) => if words::words(line).len() == 0 {
            None
        } else {
            Some((words::words(line)[0], words::words(line).skip(1)))
        },
    }
}

/// The program and the arguments that a command line consists of.
pub fn split_command(raw: Option<&String>) -> (r: Option<(String, Vec<String>)>)
    ensures
        match (
            r,
            command_line(
                match raw {
                    Some(s) => Some(s@),
                    None => None,
                },
            ),
        ) {
            (Some((p, a)), Some((program, args))) => p@ == program && text::views(a@) == args,
            (None, None) => true,
            _ => false,
        },
{
    let line = raw?;
    let mut args = words::split_words(&text::to_chars(line.as_str()));
    let ghost all = text::views(args@);
    if args.len() == 0 {
        return None;
    }
    let program = args.remove(0);
    assert(program@ == all[0]);
    assert(text::views(args@) == all.skip(1));
    Some((program, args))
}

/// The command that runs the reverse proxy.
pub open spec fn proxy_command(command: Option<Seq<char>>) -> (Seq<char>, Seq<Seq<char>>) {
    match command_line(command) {
        Some((program, args)) => if program == "-"@ && args.len() == 0 {
            ("caddy"@, Seq::empty())
        } else {
            (program, args)
        },
        None => ("caddy"@, Seq::empty()),
    }
}

/// The command that runs the reverse proxy.
pub fn caddy_command(env: &CaddyEnv) -> (r: (String, Vec<String>))
    ensures
        (r.0@, text::views(r.1@)) == proxy_command(xdg::text_of(env.command)),
{
    let none: Vec<String> = Vec::new();
    assert(text::views(none@) == Seq::<Seq<char>>::empty());
    match split_command(env.command.as_ref()) {
        Some((program, args)) => if text::same(program.as_str(), "-") && args.len() == 0 {
            ("caddy".to_owned(), none)
        } else {
            (program, args)
        },
        None => ("caddy".to_owned(), none),
    }
}

/// Whether the daemon runs for the system.
pub open spec fn in_system_mode(mode: Option<Seq<char>>) -> bool {
    mode matches Some(m) && words::trim(m) == "system"@
}

/// Whether the daemon runs for the system.
pub fn is_system_mode(env: &CaddyEnv) -> (r: bool)
    ensures
        r == in_system_mode(xdg::text_of(env.mode)),
{
    match &env.mode {
        Some(m) => text::same(words::trimmed(&text::to_chars(m.as_str())).as_str(), "system"),
        None => false,
    }
}

/// Where the reverse proxy listens: where it is told to, else at the port of
/// plain HTTP for the system and at an unprivileged one otherwise.
pub open spec fn listen_addr(http_addr: Option<Seq<char>>, mode: Option<Seq<char>>) -> Seq<char> {
    if http_addr matches Some(a) && words::trim(a).len() > 0 {
        http_addr->0
    } else if in_system_mode(mode) {
        "127.0.0.1:80"@
    } else {
        "127.0.0.1:2015"@
    }
}

/// Where the reverse proxy listens.
pub fn http_listen_addr(env: &CaddyEnv) -> (r: String)
    ensures
        r@ == listen_addr(xdg::text_of(env.http_addr), xdg::text_of(env.mode)),
{
    if let Some(addr) = &env.http_addr {
        let t = words::trimmed(&text::to_chars(addr.as_str()));
        if !t.as_str().is_empty() {
            return addr.clone();
        }
    }
    if is_system_mode(env) {
        "127.0.0.1:80".to_owned()
    } else {
        "127.0.0.1:2015".to_owned()
    }
}

// ---------------------------------------------------------------------------
// Running the reverse proxy
// ---------------------------------------------------------------------------
/// The reverse proxy as the daemon runs it.
#[derive(Debug, Clone, PartialEq, Eq)]
pub struct CaddyManager {
    /// The socket through which it takes a configuration; empty if it is off.
    pub admin_sock: String,
    pub config_path: String,
    /// Where it listens; empty if it is off.
    pub http_addr: String,
    /// Whether it may refuse a configuration without consequence.
    pub loose: bool,
}

impl Default for CaddyManager {
    fn default() -> (r: Self)
        ensures
            r.is_off(),
    {
        CaddyManager::disabled()
    }
}

/// How to start the reverse proxy.
#[derive(Debug)]
pub struct StartPlan {
    pub manager: CaddyManager,
    pub runtime_dir: String,
    pub state_dir: String,
    pub log_path: String,
    /// What to write to the configuration file.
    pub config_text: String,
    pub program: String,
    pub args: Vec<String>,
    /// Whether to wait until it takes a configuration.
    pub wait: bool,
}

/// How to hand a configuration over.
#[derive(Debug)]
pub struct ApplyPlan {
    pub config_path: String,
    /// What to write to the configuration file.
    pub config_text: String,
    pub admin_sock: String,
    /// What to send to the socket.
    pub request: String,
}

/// What waiting for the reverse proxy came to.
#[derive(Debug, Clone, PartialEq, Eq)]
pub enum AdminWait {
    Ready,
    Again,
    Failed(String),
}

/// How often a connection to the reverse proxy is tried.
pub const ADMIN_TRIES: u32 = 50;

/// The arguments of the reverse proxy: those that are given, else those that
/// make it run with the configuration file.
pub open spec fn run_args(
    program: Seq<char>,
    args: Seq<Seq<char>>,
    config_path: Seq<char>,
) -> Seq<Seq<char>> {
    if args.len() == 0 && program == "caddy"@ {
        seq!["run"@, "--config"@, config_path]
    } else {
        args
    }
}

/// Whether `p` says how to start the reverse proxy in the given environment.
pub open spec fn is_start_plan(p: StartPlan, env: CaddyEnv, run: Seq<char>, state: Seq<char>) -> bool {
    let command = proxy_command(xdg::text_of(env.command));
    &&& p.manager.admin_sock@ == paths::below(run, "caddy-admin.sock"@)
    &&& p.manager.config_path@ == paths::below(state, "caddy.json"@)
    &&& p.manager.http_addr@ == listen_addr(xdg::text_of(env.http_addr), xdg::text_of(env.mode))
    &&& p.manager.loose == env.command_set
    &&& p.runtime_dir@ == run
    &&& p.state_dir@ == state
    &&& p.log_path@ == paths::below(state, "caddy.log"@)
    &&& p.config_text@ == json::json_pretty(
        config_json(
            p.manager.admin_sock@,
            p.manager.http_addr@,
            p.log_path@,
            run,
            Seq::empty(),
        ),
    )
    &&& p.program@ == command.0
    &&& text::views(p.args@) == run_args(command.0, command.1, p.manager.config_path@)
    &&& p.wait == !p.manager.loose
}

/// The request that hands a configuration over.
pub open spec fn load_request(body: Seq<char>) -> Seq<char> {
    "POST /load HTTP/1.1\r\nHost: localhost\r\nContent-Type: application/json\r\nContent-Length: "@
        + text::decimal(encode_utf8(body).len()) + "\r\nConnection: close\r\n\r\n"@ + body
}

/// The request that hands a configuration over.
fn load_request_text(body: &str) -> (r: String)
    ensures
        r@ == load_request(body@),
{
    let len: usize = body.as_bytes().len();
    "POST /load HTTP/1.1\r\nHost: localhost\r\nContent-Type: application/json\r\nContent-Length: ".to_owned().concat(
    text::decimal_text(len as u64).as_str()).concat("\r\nConnection: close\r\n\r\n").concat(body)
}

/// What stands between the first and the second occurrence of `sep`; empty if
/// there is none.
pub open spec fn second_part(s: Seq<char>, sep: Seq<char>, part: Seq<char>) -> bool {
    if words::contains_text(s, sep) {
        exists|a: int|
            {
                &&& #[trigger] words::first_at(s, sep, a)
                &&& is_front(s.skip(a + sep.len()), sep, part)
            }
    } else {
        part.len() == 0
    }
}

/// Whether `part` is what stands in front of the first `sep`, or all of it.
pub open spec fn is_front(s: Seq<char>, sep: Seq<char>, part: Seq<char>) -> bool {
    if words::contains_text(s, sep) {
        exists|b: int| #[trigger] words::first_at(s, sep, b) && part == s.take(b)
    } else {
        part == s
    }
}

fn front_of(s: &Vec<char>, sep: &Vec<char>) -> (r: Vec<char>)
    ensures
        is_front(s@, sep@, r@),
{
    match words::find_text(s, sep) {
        Some(b) => {
            assert(words::occurs_at(s@, sep@, b as int));
            let t = text::to_chars(text::from_range(s, 0, b).as_str());
            assert(t@ == s@.take(b as int));
            assert(words::first_at(s@, sep@, b as int));
            t
        },
        None => {
            let t = text::to_chars(text::from_chars(s).as_str());
            t
        },
    }
}

fn second_of(s: &Vec<char>, sep: &Vec<char>) -> (r: Vec<char>)
    ensures
        second_part(s@, sep@, r@),
{
    match words::find_text(s, sep) {
        Some(a) => {
            assert(words::occurs_at(s@, sep@, a as int));
            let end: usize = s.len();
            let rest = text::to_chars(text::from_range(s, a + sep.len(), end).as_str());
            assert(rest@ == s@.skip(a + sep@.len()));
            assert(words::first_at(s@, sep@, a as int));
            front_of(&rest, sep)
        },
        None => Vec::new(),
    }
}

/// The first line of a text; empty if there is none.
pub open spec fn first_line(s: Seq<char>) -> Seq<char> {
    if words::lines(s).len() == 0 {
        Seq::empty()
    } else {
        words::lines(s)[0]
    }
}

/// The first line of a text; empty if there is none.
pub fn first_line_text(s: &Vec<char>) -> (r: String)
    ensures
        r@ == first_line(s@),
{
    let mut lines = words::split_lines(s);
    let ghost all = words::lines(s@);
    if lines.len() == 0 {
        String::new()
    } else {
        let l = lines.remove(0);
        assert(l@ == all[0]);
        l
    }
}

/// Whether the answer of the reverse proxy means success, or why not.
pub fn read_load_response(response: &str) -> (r: Result<(), String>)
    ensures
        match r {
            Ok(_) => words::contains_text(first_line(response@), "200"@),
            Err(m) => {
                &&& !words::contains_text(first_line(response@), "200"@)
                &&& exists|body: Seq<char>| #[trigger]
                    second_part(response@, "\r\n\r\n"@, body) && m@ == "caddy /load failed: "@
                        + first_line(response@) + " "@ + words::trim(body)
            },
        },
{
    let cs = text::to_chars(response);
    let status_line = first_line_text(&cs);
    let line = text::to_chars(status_line.as_str());
    if words::has_text(&line, &text::to_chars("200")) {
        return Ok(());
    }
    let body = second_of(&cs, &text::to_chars("\r\n\r\n"));
    let m = "caddy /load failed: ".to_owned().concat(status_line.as_str()).concat(" ").concat(
        words::trimmed(&body).as_str(),
    );
    assert(second_part(response@, "\r\n\r\n"@, body@));
    Err(m)
}

impl CaddyManager {
    /// Whether there is no reverse proxy.
    pub open spec fn is_off(&self) -> bool {
        &&& self.admin_sock@.len() == 0
        &&& self.config_path@.len() == 0
        &&& self.http_addr@.len() == 0
        &&& self.loose
    }

    /// No reverse proxy.
    pub fn disabled() -> (r: CaddyManager)
        ensures
            r.is_off(),
    {
        CaddyManager {
            admin_sock: String::new(),
            config_path: String::new(),
            http_addr: String::new(),
            loose: true,
        }
    }

    /// How to start the reverse proxy; nothing if it is switched off.
    pub fn start(env: &CaddyEnv, dirs: &Dirs) -> (r: Result<Option<StartPlan>, String>)
        ensures
            if is_disabled(xdg::text_of(env.command)) {
                r matches Ok(None)
            } else {
                match dirs.state() {
                    Some(state) => r matches Ok(Some(p)) && is_start_plan(
                        p,
                        *env,
                        dirs.run(),
                        state,
                    ),
                    None => r matches Err(m) && m@ == "$HOME is not set"@,
                }
            },
    {
        if caddy_disabled(env) {
            return Ok(None);
        }
        let runtime = xdg::runtime_dir(dirs);
        let state = match xdg::state_dir(dirs) {
            Ok(s) => s,
            Err(m) => {
                return Err(m);
            },
        };
        let manager = CaddyManager {
            admin_sock: paths::join_path(runtime.as_str(), "caddy-admin.sock"),
            config_path: paths::join_path(state.as_str(), "caddy.json"),
            http_addr: http_listen_addr(env),
            loose: env.command_set,
        };
        let log_path = paths::join_path(state.as_str(), "caddy.log");
        let nothing: Vec<(String, Vec<BoundRoute>)> = Vec::new();
        assert(state::snapshot_of(nothing@) == Seq::<(Seq<char>, Seq<state::Route>)>::empty());
        let config = build_caddy_config(
            manager.admin_sock.as_str(),
            manager.http_addr.as_str(),
            log_path.as_str(),
            runtime.as_str(),
            &nothing,
        );
        proof {
            lemma_config_plain(
                manager.admin_sock@,
                manager.http_addr@,
                log_path@,
                runtime@,
                Seq::empty(),
            );
        }
        let config_text = match json::pretty_text(&config) {
            Some(t) => t,
            None => {
                return Err("failed to serialize the caddy config".to_owned());
            },
        };
        let (program, given) = caddy_command(env);
        let mut args = given;
        if args.len() == 0 && text::same(program.as_str(), "caddy") {
            args = Vec::new();
            args.push("run".to_owned());
            args.push("--config".to_owned());
            args.push(manager.config_path.clone());
            assert(text::views(args@) == seq!["run"@, "--config"@, manager.config_path@]);
        }
        let wait = !manager.loose;
        Ok(
            Some(
                StartPlan {
                    manager,
                    runtime_dir: runtime,
                    state_dir: state,
                    log_path,
                    config_text,
                    program,
                    args,
                    wait,
                },
            ),
        )
    }

    /// What to do after the `attempt`-th try to connect.
    pub fn wait_admin_ready(&self, attempt: u32, connected: bool) -> (r: AdminWait)
        ensures
            if connected {
                r is Ready
            } else if attempt < ADMIN_TRIES {
                r is Again
            } else {
                r matches AdminWait::Failed(m) && m@ == "caddy admin socket not ready: "@
                    + self.admin_sock@ + " (listen "@ + self.http_addr@ + ")"@
            },
    {
        if connected {
            AdminWait::Ready
        } else if attempt < ADMIN_TRIES {
            AdminWait::Again
        } else {
            AdminWait::Failed(
                "caddy admin socket not ready: ".to_owned().concat(
                    self.admin_sock.as_str(),
                ).concat(" (listen ").concat(self.http_addr.as_str()).concat(")"),
            )
        }
    }

    /// Where the reverse proxy listens.
    pub fn http_addr(&self) -> (r: &str)
        ensures
            r@ == self.http_addr@,
    {
        self.http_addr.as_str()
    }

    /// Whether there is nobody to hand a configuration to.
    pub open spec fn takes_nothing(&self) -> bool {
        self.loose && self.admin_sock@.len() == 0
    }

    /// How to hand the routes of the projects over; nothing without a reverse
    /// proxy.
    pub fn apply_routes(&self, dirs: &Dirs, projects: &Vec<(String, Vec<BoundRoute>)>) -> (r:
        Result<Option<ApplyPlan>, String>)
        ensures
            if self.takes_nothing() {
                r matches Ok(None)
            } else {
                match dirs.state() {
                    Some(state) => {
                        let config = config_json(
                            self.admin_sock@,
                            self.http_addr@,
                            paths::below(state, "caddy.log"@),
                            dirs.run(),
                            state::snapshot_of(projects@),
                        );
                        &&& r matches Ok(Some(p))
                        &&& p.config_path@ == self.config_path@
                        &&& p.config_text@ == json::json_pretty(config)
                        &&& p.admin_sock@ == self.admin_sock@
                        &&& p.request@ == load_request(json::json_text(config))
                    },
                    None => r matches Err(m) && m@ == "$HOME is not set"@,
                }
            },
    {
        if self.loose && self.admin_sock.as_str().is_empty() {
            return Ok(None);
        }
        let state = match xdg::state_dir(dirs) {
            Ok(s) => s,
            Err(m) => {
                return Err(m);
            },
        };
        let log_path = paths::join_path(state.as_str(), "caddy.log");
        let config = build_caddy_config(
            self.admin_sock.as_str(),
            self.http_addr.as_str(),
            log_path.as_str(),
            xdg::runtime_dir(dirs).as_str(),
            projects,
        );
        proof {
            lemma_config_plain(
                self.admin_sock@,
                self.http_addr@,
                log_path@,
                dirs.run(),
                state::snapshot_of(projects@),
            );
        }
        match (json::pretty_text(&config), json::compact_text(&config)) {
            (Some(config_text), Some(body)) => Ok(
                Some(
                    ApplyPlan {
                        config_path: self.config_path.clone(),
                        config_text,
                        admin_sock: self.admin_sock.clone(),
                        request: load_request_text(body.as_str()),
                    },
                ),
            ),
            _ => Err("failed to serialize the caddy config".to_owned()),
        }
    }

    /// What handing a configuration over means for the caller, given what it
    /// came to: a refusal without consequence becomes a notice.
    pub fn applied(&self, outcome: Result<(), String>) -> (r: (Result<(), String>, Option<String>))
        ensures
            match outcome {
                Ok(_) => r.0 is Ok && r.1 is None,
                Err(e) => if self.loose {
                    r.0 is Ok && (r.1 matches Some(n) && n@ == "caddy apply skipped: "@ + e@)
                } else {
                    (r.0 matches Err(m) && m@ == e@) && r.1 is None
                },
            },
    {
        match outcome {
            Ok(_) => (Ok(()), None),
            Err(e) => if self.loose {
                (Ok(()), Some("caddy apply skipped: ".to_owned().concat(e.as_str())))
            } else {
                (Err(e), None)
            },
        }
    }
}

// ---------------------------------------------------------------------------
// Socket links
// ---------------------------------------------------------------------------
/// The links that a project gets to its sockets.
#[derive(Debug, Clone, PartialEq, Eq)]
pub struct LinkPlan {
    /// The directory to make for the links, if there are any.
    pub dir: Option<String>,
    /// Each link with what it points to.
    pub links: Vec<(String, String)>,
}

/// The directory for the links in a project.
pub open spec fn link_dir(project_dir: Seq<char>) -> Seq<char> {
    paths::below(project_dir, ".neals"@)
}

/// The directory for the links in a project, which goes when the project is
/// stopped.
pub fn neals_dir(project_dir: &str) -> (r: String)
    ensures
        r@ == link_dir(project_dir@),
{
    paths::join_path(project_dir, ".neals")
}

/// The sockets of the services that have one, in order.
pub open spec fn sockets(services: Seq<devenv::Service>) -> Seq<Seq<char>>
    decreases services.len(),
{
    if services.len() == 0 {
        Seq::empty()
    } else {
        let rest = sockets(services.drop_last());
        match services.last().kind {
            devenv::Kind::Unix { socket_file } => rest.push(socket_file),
            devenv::Kind::Tcp { .. } => rest,
        }
    }
}

/// The link to a socket and the socket itself.
pub open spec fn link_to(project_dir: Seq<char>, runtime_proj: Seq<char>, socket: Seq<char>) -> (
    Seq<char>,
    Seq<char>,
) {
    (paths::below(link_dir(project_dir), socket), paths::below(runtime_proj, socket))
}

/// What a list of links says.
pub open spec fn links_of(list: Seq<(String, String)>) -> Seq<(Seq<char>, Seq<char>)> {
    list.map_values(|l: (String, String)| (l.0@, l.1@))
}

/// The links that a project gets to its sockets, which lie in `runtime_proj`.
pub fn ensure_neals_symlinks(
    project_dir: &str,
    runtime_proj: &str,
    services: &Vec<ServiceDecl>,
) -> (r: LinkPlan)
    ensures
        xdg::text_of(r.dir) == if sockets(devenv::services(services@)).len() == 0 {
            None
        } else {
            Some(link_dir(project_dir@))
        },
        links_of(r.links@) == sockets(devenv::services(services@)).map_values(
            |s: Seq<char>| link_to(project_dir@, runtime_proj@, s),
        ),
{
    let ghost all = devenv::services(services@);
    let ghost to_link = |s: Seq<char>| link_to(project_dir@, runtime_proj@, s);
    let dir = neals_dir(project_dir);
    let mut links: Vec<(String, String)> = Vec::new();
    assert(links_of(links@) == sockets(all.take(0)).map_values(to_link));
    for i in 0..services.len()
        invariant
            all == devenv::services(services@),
            dir@ == link_dir(project_dir@),
            to_link == (|s: Seq<char>| link_to(project_dir@, runtime_proj@, s)),
            links_of(links@) == sockets(all.take(i as int)).map_values(to_link),
    {
        assert(all.take(i + 1).drop_last() == all.take(i as int));
        let ghost before = links_of(links@);
        if let ServiceKind::Unix { socket_file } = &services[i].kind {
            let socket = socket_file.as_str();
            links.push(
                (paths::join_path(dir.as_str(), socket), paths::join_path(runtime_proj, socket)),
            );
            assert(links_of(links@) == before.push(to_link(socket@)));
            assert(sockets(all.take(i as int)).push(socket@).map_values(to_link) == sockets(
                all.take(i as int),
            ).map_values(to_link).push(to_link(socket@)));
        }
    }
    assert(all.take(all.len() as int) == all);
    let dir = if links.len() == 0 {
        None
    } else {
        Some(dir)
    };
    LinkPlan { dir, links }
}

/// The link to a socket with a valid name lies directly in the directory for
/// links, and what it points to directly in the directory for sockets.
pub proof fn links_stay_inside(project_dir: Seq<char>, runtime_proj: Seq<char>, socket: Seq<char>)
    requires
        devenv::valid_socket(socket),
        runtime_proj.len() > 0,
    ensures
        ({
            let (link, target) = link_to(project_dir, runtime_proj, socket);
            &&& paths::last_name(link) == Some(socket)
            &&& paths::parent_parts(link) == Some(paths::components(link_dir(project_dir)))
            &&& paths::last_name(target) == Some(socket)
            &&& paths::parent_parts(target) == Some(paths::components(runtime_proj))
        }),
{
    reveal_strlit(".neals");
    assert(".neals"@.len() == 6);
    assert(link_dir(project_dir).len() > 0);
    paths::components_below(link_dir(project_dir), socket);
    paths::components_below(runtime_proj, socket);
}

} // verus!
