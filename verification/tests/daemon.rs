use neals::bind::{bind_services, release_bound_ports};
use neals::caddy::{
    build_caddy_config, caddy_command, caddy_disabled, ensure_neals_symlinks,
    http_listen_addr, http_port_from_addr, https_port_from_addr, is_system_mode, neals_dir,
    read_load_response, split_command, AdminWait, CaddyEnv, CaddyManager, ADMIN_TRIES,
};
use neals::devenv::{parse_neals_services, ServiceDecl, ServiceKind};
use neals::handler::{handle_request, reply, Handling};
use neals::ipc::{decode_response, encode_response, ProjectRuntime, Request, Response};
use neals::ports::{PortLeases, Probe};
use neals::registry::{Project, Registry};
use neals::state::{AppState, BoundRoute, BoundTarget, ChildPoll};
use neals::up::{spawn_env, up_command, UpAction, UpFlow};
use neals::xdg::Dirs;
use std::cell::Cell;

const DEMO: &str = r#"{
              neals.name = "demo";
              neals.route.backend = "backend.sock";
              neals.route.api = "tcp";
            }"#;

fn dirs() -> Dirs {
    Dirs {
        home: Some("/home/x".into()),
        config_home: None,
        state_home: None,
        runtime: Some("/run/user/1000".into()),
        socket: None,
    }
}

/// A host on which some ports are busy. Asked for any port it gives the ones
/// from 40000 on.
struct Host {
    busy: Vec<u16>,
    next: Cell<u16>,
}

impl Host {
    fn new(busy: &[u16]) -> Host {
        Host { busy: busy.to_vec(), next: Cell::new(40000) }
    }

    fn probe(&self, port: u16) -> Probe {
        if port == 0 {
            let p = self.next.get();
            self.next.set(p + 1);
            Probe::Bound(p)
        } else if self.busy.contains(&port) {
            Probe::Busy("Address already in use (os error 98)".into())
        } else {
            Probe::Bound(port)
        }
    }
}

/// What goes wrong while a project is brought up.
#[derive(Default)]
struct Trouble {
    path_missing: bool,
    tools: Option<&'static str>,
    runtime: Option<&'static str>,
    routes: Option<&'static str>,
    log: Option<&'static str>,
    spawn: Option<&'static str>,
    no_pid: bool,
    exits_early: Option<&'static str>,
    netns: Option<&'static str>,
    slirp: Option<&'static str>,
    proxies: Option<&'static str>,
    rival: bool,
}

fn outcome(trouble: Option<&'static str>) -> Result<(), String> {
    match trouble {
        Some(m) => Err(m.to_string()),
        None => Ok(()),
    }
}

/// Brings a project up as far as the trouble lets it, and returns the answer
/// with the steps that were taken.
fn bring_up(
    state: &mut AppState,
    host: &Host,
    name: &str,
    files: &[(&str, &str)],
    trouble: &Trouble,
) -> (Result<(), String>, Vec<String>) {
    let probe = |p: u16| host.probe(p);
    let (mut flow, mut action) = UpFlow::begin(name, state);
    let mut steps = Vec::new();
    loop {
        action = match action {
            UpAction::LoadRegistry => {
                let mut registry = Registry::default();
                for (n, _) in files {
                    registry.add(Project { name: n.to_string(), path: format!("/p/{n}") }).unwrap();
                }
                flow.on_registry(Ok(registry))
            }
            UpAction::CheckPath(p) => {
                assert_eq!(p, format!("/p/{name}"));
                flow.on_path(!trouble.path_missing)
            }
            UpAction::CheckTools => flow.on_tools(outcome(trouble.tools)),
            UpAction::ReadServices(p) => {
                let src = files.iter().find(|(n, _)| p == format!("/p/{n}")).unwrap().1;
                flow.on_services(parse_neals_services(src))
            }
            UpAction::PrepareRuntime => flow.on_runtime(outcome(trouble.runtime)),
            UpAction::BindServices => flow.bind(state, &probe),
            UpAction::ApplyRoutes(routes) => {
                steps.push(format!("apply {}", routes.len()));
                flow.on_routes(state, outcome(trouble.routes))
            }
            UpAction::OpenLog => flow.on_log(outcome(trouble.log)),
            UpAction::Spawn => {
                let spawned = match trouble.spawn {
                    Some(m) => Err(m.to_string()),
                    None if trouble.no_pid => Ok(None),
                    None => Ok(Some(4242)),
                };
                flow.on_spawn(state, "devenv", spawned)
            }
            UpAction::Settle => flow.on_settle(state, trouble.exits_early.map(str::to_string)),
            UpAction::FindNetns(pid) => {
                assert_eq!(pid, 4242);
                flow.on_netns(match trouble.netns {
                    Some(m) => Err(m.to_string()),
                    None => Ok(4243),
                })
            }
            UpAction::StartSlirp(pid) => {
                assert_eq!(pid, 4243);
                flow.on_slirp(outcome(trouble.slirp))
            }
            UpAction::StartProxies(pid) => {
                assert_eq!(pid, 4243);
                if trouble.rival {
                    bring_up(state, host, name, files, &Trouble::default()).0.unwrap();
                }
                flow.on_proxies(state, outcome(trouble.proxies), 5_000_000_000)
            }
            UpAction::Stop { pid, slirp, proxies } => {
                steps.push(format!("stop {pid} {slirp} {proxies}"));
                flow.on_stopped(state)
            }
            UpAction::RestoreRoutes(routes) => {
                steps.push(format!("restore {}", routes.len()));
                flow.on_restored()
            }
            UpAction::Reply(r) => return (r, steps),
        };
    }
}

fn up(state: &mut AppState, host: &Host, name: &str, files: &[(&str, &str)]) -> Response {
    reply(bring_up(state, host, name, files, &Trouble::default()).0)
}

fn down(state: &mut AppState, name: &str) -> Response {
    match state.stop(name) {
        Ok(stopped) => {
            state.finish_cleanup(&stopped);
            reply(Ok(()))
        }
        Err(m) => reply(Err(m)),
    }
}

fn status(state: &AppState) -> Vec<ProjectRuntime> {
    match handle_request(Request::Status, state, 9_999_999_999) {
        Handling::Reply(Response::Status { projects }) => projects,
        other => panic!("expected Status, got {other:?}"),
    }
}

fn port_of(projects: &[ProjectRuntime], name: &str, prefix: &str) -> u16 {
    let p = projects.iter().find(|p| p.name == name).unwrap();
    let label = p.routes.iter().find(|r| r.starts_with(prefix)).unwrap();
    label.split(' ').find_map(|w| w.strip_prefix("127.0.0.1:")).unwrap().parse().unwrap()
}

#[test]
fn ping_up_status_down() {
    let mut state = AppState::default();
    let host = Host::new(&[]);
    let files = [("demo", DEMO)];
    assert_eq!(
        handle_request(Request::Ping, &state, 0),
        Handling::Reply(Response::Pong)
    );
    assert_eq!(
        handle_request(Request::Up { project: "demo".into() }, &state, 0),
        Handling::Up("demo".into())
    );
    assert_eq!(
        handle_request(Request::Down { project: "demo".into() }, &state, 0),
        Handling::Down("demo".into())
    );
    assert_eq!(up(&mut state, &host, "demo", &files), Response::Done);

    let projects = status(&state);
    assert_eq!(projects.len(), 1);
    assert_eq!(projects[0].name, "demo");
    assert!(projects[0].pid > 0);
    assert_eq!(projects[0].netns_pid, 4243);
    assert_eq!(projects[0].uptime_secs, 4);
    assert_eq!(projects[0].routes.len(), 2);
    assert!(projects[0].routes.iter().any(|r| r == "http://backend.demo.localhost:2015/"));
    assert!(projects[0]
        .routes
        .iter()
        .any(|r| r.starts_with("http://api.demo.localhost:2015/ → 127.0.0.1:")));

    let plan = ensure_neals_symlinks(
        "/p/demo",
        "/run/user/1000/neals/demo",
        &parse_neals_services(DEMO).unwrap(),
    );
    assert_eq!(plan.dir.as_deref(), Some("/p/demo/.neals"));
    assert_eq!(
        plan.links,
        vec![(
            "/p/demo/.neals/backend.sock".to_string(),
            "/run/user/1000/neals/demo/backend.sock".to_string()
        )]
    );

    assert_eq!(
        up(&mut state, &host, "demo", &files),
        Response::Error { message: "project `demo` is already running".into() }
    );
    assert_eq!(down(&mut state, "demo"), Response::Done);
    assert!(status(&state).is_empty());
    assert_eq!(
        down(&mut state, "demo"),
        Response::Error { message: "project `demo` is not running".into() }
    );
}

#[test]
fn up_missing_project_errors() {
    let mut state = AppState::default();
    assert_eq!(
        up(&mut state, &Host::new(&[]), "missing", &[("demo", DEMO)]),
        Response::Error { message: "project `missing` is not registered".into() }
    );
}

#[test]
fn socket_ping_roundtrip() {
    let state = AppState::default();
    let line = neals::ipc::encode_request(&Request::Ping).unwrap();
    let request = neals::ipc::decode_request(&line).unwrap();
    match handle_request(request, &state, 0) {
        Handling::Reply(response) => {
            let encoded = encode_response(&response).unwrap();
            assert_eq!(decode_response(&encoded).unwrap(), Response::Pong);
        }
        other => panic!("expected Reply, got {other:?}"),
    }
}

#[test]
fn crashed_up_process_is_reaped_and_ports_released() {
    let mut state = AppState::default();
    let host = Host::new(&[]);
    let files = [("demo", DEMO)];
    assert_eq!(up(&mut state, &host, "demo", &files), Response::Done);
    assert!(state.leases.contains(40000));

    let (dead, notices) = state.reap_exited(&vec![ChildPoll::Alive]);
    assert!(dead.is_empty() && notices.is_empty());
    let (dead, notices) = state.reap_exited(&vec![ChildPoll::Exited("exit status: 0".into())]);
    assert_eq!(
        notices,
        vec!["project `demo` exited unexpectedly (exit status: 0); cleaning up"]
    );
    for p in &dead {
        state.finish_cleanup(p);
    }
    assert!(status(&state).is_empty());
    assert!(!state.leases.contains(40000));

    assert_eq!(up(&mut state, &host, "demo", &files), Response::Done);
    let (_, notices) = state.reap_exited(&vec![ChildPoll::Unknown("No child".into())]);
    assert_eq!(notices, vec!["try_wait `demo`: No child; cleaning up"]);
    assert!(status(&state).is_empty());
}

#[test]
fn multi_project_tcp_routes_have_distinct_hosts_and_ports() {
    let mut state = AppState::default();
    let host = Host::new(&[]);
    let files = [
        ("demo", r#"{ neals.name = "demo"; neals.route.be = "tcp"; }"#),
        ("other", r#"{ neals.name = "other"; neals.route.be = "tcp"; }"#),
    ];
    assert_eq!(up(&mut state, &host, "demo", &files), Response::Done);
    assert_eq!(up(&mut state, &host, "other", &files), Response::Done);
    let projects = status(&state);
    assert_eq!(projects.len(), 2);
    let demo = port_of(&projects, "demo", "http://be.demo.localhost:2015/ → 127.0.0.1:");
    let other = port_of(&projects, "other", "http://be.other.localhost:2015/ → 127.0.0.1:");
    assert_ne!(demo, other, "projects must not share TCP ports");
    assert_eq!(state.names(), vec!["demo", "other"]);
}

#[test]
fn preferred_ports_private_and_proxy_status() {
    let mut state = AppState::default();
    let files = [(
        "demo",
        r#"{
          neals.name = "demo";
          neals.services.redis.port = 45901;
          neals.services.api = { port = 45911; proxy = true; };
        }"#,
    )];
    assert_eq!(up(&mut state, &Host::new(&[]), "demo", &files), Response::Done);
    let demo = &status(&state)[0];
    assert!(demo.routes.iter().any(|r| r == "redis → 127.0.0.1:45901"));
    assert!(demo
        .routes
        .iter()
        .any(|r| r.starts_with("http://api.demo.localhost:2015/ → 127.0.0.1:45911")));
}

fn two_projects(nix: &str) -> (String, String) {
    (nix.replace("NAME", "demo"), nix.replace("NAME", "other"))
}

#[test]
fn two_projects_same_preferred_get_distinct_ports() {
    let (a, b) =
        two_projects(r#"{ neals.name = "NAME"; neals.services.redis.port = 46101; }"#);
    let files = [("demo", a.as_str()), ("other", b.as_str())];
    let mut state = AppState::default();
    let host = Host::new(&[]);
    assert_eq!(up(&mut state, &host, "demo", &files), Response::Done);
    assert_eq!(up(&mut state, &host, "other", &files), Response::Done);
    let projects = status(&state);
    let a = port_of(&projects, "demo", "redis → 127.0.0.1:");
    let b = port_of(&projects, "other", "redis → 127.0.0.1:");
    assert_ne!(a, b);
    assert!(a >= 46101);
    assert!(b >= 46101);
    assert!([a, b].contains(&46101));
    assert_eq!(projects[1].routes, vec!["redis → 127.0.0.1:46102 (guest :46101)"]);
}

#[test]
fn concurrent_up_same_preferred_no_collision() {
    let (a, b) =
        two_projects(r#"{ neals.name = "NAME"; neals.services.redis.port = 46301; }"#);
    let mut state = AppState::default();
    let host = Host::new(&[]);
    let probe = |p: u16| host.probe(p);
    let mut flows = Vec::new();
    for (name, src) in [("demo", &a), ("other", &b)] {
        let (mut flow, _) = UpFlow::begin(name, &state);
        let mut registry = Registry::default();
        registry.add(Project { name: name.into(), path: "/p".into() }).unwrap();
        flow.on_registry(Ok(registry));
        flow.on_path(true);
        flow.on_tools(Ok(()));
        flow.on_services(parse_neals_services(src));
        flow.on_runtime(Ok(()));
        flow.bind(&mut state, &probe);
        flows.push(flow);
    }
    for flow in &mut flows {
        flow.on_routes(&mut state, Ok(()));
        flow.on_log(Ok(()));
        flow.on_spawn(&mut state, "devenv", Ok(Some(7)));
        flow.on_settle(&mut state, None);
        flow.on_netns(Ok(8));
        flow.on_slirp(Ok(()));
        assert_eq!(flow.on_proxies(&mut state, Ok(()), 0), UpAction::Reply(Ok(())));
    }
    let projects = status(&state);
    assert_eq!(projects.len(), 2);
    assert_ne!(
        port_of(&projects, "demo", "redis → 127.0.0.1:"),
        port_of(&projects, "other", "redis → 127.0.0.1:")
    );
}

#[test]
fn trouble_on_the_way_up() {
    let files = [("demo", DEMO)];
    let host = Host::new(&[]);
    let cases: Vec<(Trouble, &str, Vec<&str>)> = vec![
        (
            Trouble { path_missing: true, ..Default::default() },
            "project `demo` path is missing: /p/demo",
            vec![],
        ),
        (Trouble { tools: Some("no bwrap"), ..Default::default() }, "no bwrap", vec![]),
        (Trouble { runtime: Some("no dir"), ..Default::default() }, "no dir", vec![]),
        (Trouble { routes: Some("caddy"), ..Default::default() }, "caddy", vec!["apply 1"]),
        (
            Trouble { spawn: Some("gone"), ..Default::default() },
            "failed to spawn `devenv`: gone",
            vec!["apply 1", "restore 0"],
        ),
        (
            Trouble { no_pid: true, ..Default::default() },
            "spawned `devenv` has no pid",
            vec!["apply 1", "restore 0"],
        ),
        (
            Trouble { exits_early: Some("exit status: 1"), ..Default::default() },
            "bwrap exited early (exit status: 1); need unprivileged user namespaces (bubblewrap + kernel.userns)",
            vec!["apply 1", "restore 0"],
        ),
        (
            Trouble { netns: Some("timeout"), ..Default::default() },
            "timeout",
            vec!["apply 1", "stop 4242 false false", "restore 0"],
        ),
        (
            Trouble { slirp: Some("no tap"), ..Default::default() },
            "slirp4netns: no tap",
            vec!["apply 1", "stop 4242 false false", "restore 0"],
        ),
        (
            Trouble { proxies: Some("bind"), ..Default::default() },
            "bind",
            vec!["apply 1", "stop 4242 true true", "restore 0"],
        ),
    ];
    for (trouble, message, want) in cases {
        let mut state = AppState::default();
        let (r, steps) = bring_up(&mut state, &host, "demo", &files, &trouble);
        assert_eq!(r.unwrap_err(), message);
        assert_eq!(steps, want);
        assert!(status(&state).is_empty());
        for port in 40000..host.next.get() {
            assert!(!state.leases.contains(port));
        }
    }
}

#[test]
fn without_a_log_the_ports_stay_leased() {
    let mut state = AppState::default();
    let trouble = Trouble { log: Some("denied"), ..Default::default() };
    let (r, _) = bring_up(&mut state, &Host::new(&[]), "demo", &[("demo", DEMO)], &trouble);
    assert_eq!(r.unwrap_err(), "denied");
    assert!(state.leases.contains(40000));
}

#[test]
fn the_second_of_two_gives_way() {
    let mut state = AppState::default();
    let host = Host::new(&[]);
    let trouble = Trouble { rival: true, ..Default::default() };
    let (r, steps) = bring_up(&mut state, &host, "demo", &[("demo", DEMO)], &trouble);
    assert_eq!(r.unwrap_err(), "project `demo` is already running");
    assert_eq!(steps, vec!["apply 1", "stop 4242 true true", "restore 1"]);
    assert_eq!(status(&state).len(), 1);
    assert!(!state.leases.contains(40000));
    assert!(state.leases.contains(40001));
}

#[test]
fn services_that_are_declared_wrongly() {
    let mut state = AppState::default();
    let files = [("demo", "{ neals.services.x.port = 0; }")];
    assert_eq!(
        up(&mut state, &Host::new(&[]), "demo", &files),
        Response::Error { message: "`neals.services.x.port` must be in 1..=65535, got 0".into() }
    );
    let (mut flow, _) = UpFlow::begin("demo", &state);
    assert_eq!(
        flow.on_registry(Err("failed to parse /r".into())),
        UpAction::Reply(Err("failed to parse /r".into()))
    );
}

#[test]
fn environment_of_a_project() {
    let bound = vec![
        BoundRoute {
            service: "api-backend".into(),
            target: BoundTarget::Tcp { host_port: 8001, guest_port: 8000 },
            proxy: true,
        },
        BoundRoute {
            service: "web".into(),
            target: BoundTarget::Unix { socket_file: "web.sock".into() },
            proxy: true,
        },
    ];
    assert_eq!(
        spawn_env("/run/neals/demo", &bound),
        vec![
            ("NEALS_RUNTIME".to_string(), "/run/neals/demo".to_string()),
            ("NEALS_API_BACKEND_PORT".to_string(), "8000".to_string()),
        ]
    );
    assert_eq!(up_command(None), ("devenv".into(), vec!["up".to_string()]));
    assert_eq!(up_command(Some(&"  ".to_string())), ("devenv".into(), vec!["up".to_string()]));
    assert_eq!(
        up_command(Some(&" sleep 3600 ".to_string())),
        ("sleep".into(), vec!["3600".to_string()])
    );
}

#[test]
fn allocate_unique_then_reuse_after_release() {
    let host = Host::new(&[]);
    let probe = |p: u16| host.probe(p);
    let mut leases = PortLeases::default();
    let a = leases.allocate(&probe).unwrap();
    let b = leases.allocate(&probe).unwrap();
    assert_ne!(a, b);
    assert!(leases.contains(a));
    assert!(leases.contains(b));
    leases.release(a);
    assert!(!leases.contains(a));
    let c = leases.allocate(&probe).unwrap();
    assert!(leases.contains(c));
}

#[test]
fn allocate_gives_up() {
    let mut leases = PortLeases::default();
    let same = |_: u16| Probe::Bound(7);
    assert_eq!(leases.allocate(&same).unwrap(), 7);
    assert_eq!(
        leases.allocate(&same).unwrap_err(),
        "failed to allocate a free TCP port on 127.0.0.1"
    );
    let busy = |_: u16| Probe::Busy("in use".into());
    assert_eq!(leases.allocate(&busy).unwrap_err(), "in use");
    let broken = |_: u16| Probe::Broken("no address".into());
    assert_eq!(leases.allocate(&broken).unwrap_err(), "no address");
    assert_eq!(leases.allocate_preferred(9, &broken).unwrap_err(), "no address");
    assert_eq!(
        leases.allocate_preferred(9, &busy).unwrap_err(),
        "failed to allocate a free TCP port on 127.0.0.1 starting at 9"
    );
    assert_eq!(
        leases.allocate_preferred(65535, &busy).unwrap_err(),
        "failed to allocate a free TCP port on 127.0.0.1 starting at 65535"
    );
}

#[test]
fn preferred_returns_start_when_free() {
    let host = Host::new(&[]);
    let probe = |p: u16| host.probe(p);
    let mut leases = PortLeases::default();
    assert_eq!(leases.allocate_preferred(45100, &probe).unwrap(), 45100);
    assert_eq!(leases.allocate_preferred(0, &probe).unwrap(), 40000);
}

#[test]
fn preferred_skips_leased_then_next() {
    let host = Host::new(&[]);
    let probe = |p: u16| host.probe(p);
    let mut leases = PortLeases::default();
    let start = 45300;
    let first = leases.allocate_preferred(start, &probe).unwrap();
    assert_eq!(first, start);
    let second = leases.allocate_preferred(start, &probe).unwrap();
    assert_eq!(second, start + 1);
}

#[test]
fn preferred_skips_externally_bound_port() {
    let start = 45500;
    let host = Host::new(&[start]);
    let probe = |p: u16| host.probe(p);
    let mut leases = PortLeases::default();
    assert_eq!(leases.allocate_preferred(start, &probe).unwrap(), start + 1);
}

#[test]
fn preferred_services_independent() {
    let redis = 45700;
    let postgres = redis + 200;
    let host = Host::new(&[redis]);
    let probe = |p: u16| host.probe(p);
    let mut leases = PortLeases::default();
    assert_eq!(leases.allocate_preferred(redis, &probe).unwrap(), redis + 1);
    assert_eq!(leases.allocate_preferred(postgres, &probe).unwrap(), postgres);
}

#[test]
fn binding_is_all_or_nothing() {
    let services = vec![
        ServiceDecl {
            service: "api".into(),
            kind: ServiceKind::Tcp { preferred_port: Some(8000), proxy: true },
        },
        ServiceDecl {
            service: "db".into(),
            kind: ServiceKind::Tcp { preferred_port: None, proxy: false },
        },
    ];
    let no_any = |p: u16| if p == 0 { Probe::Busy("none left".into()) } else { Probe::Bound(p) };
    let mut leases = PortLeases::default();
    assert_eq!(
        bind_services(&mut leases, &services, &no_any).unwrap_err(),
        "TCP port alloc for `db`: none left"
    );
    assert!(!leases.contains(8000));

    let host = Host::new(&[8000]);
    let probe = |p: u16| host.probe(p);
    let bound = bind_services(&mut leases, &services, &probe).unwrap();
    assert_eq!(bound[0].target, BoundTarget::Tcp { host_port: 8001, guest_port: 8000 });
    assert_eq!(bound[1].target, BoundTarget::Tcp { host_port: 40000, guest_port: 40000 });
    assert!(leases.contains(8001) && leases.contains(40000));
    release_bound_ports(&mut leases, &bound);
    assert!(!leases.contains(8001) && !leases.contains(40000));
}

#[test]
fn sockets_need_no_port() {
    let services = vec![ServiceDecl {
        service: "api".into(),
        kind: ServiceKind::Unix { socket_file: "api.sock".into() },
    }];
    let no_port = |_: u16| Probe::Busy("none left".into());
    let mut leases = PortLeases::default();
    let bound = bind_services(&mut leases, &services, &no_port).unwrap();
    assert_eq!(bound[0].target, BoundTarget::Unix { socket_file: "api.sock".into() });
    assert!(!leases.contains(0));
}

fn tcp(service: &str, port: u16, proxy: bool) -> BoundRoute {
    BoundRoute {
        service: service.into(),
        target: BoundTarget::Tcp { host_port: port, guest_port: port },
        proxy,
    }
}

fn config(projects: Vec<(String, Vec<BoundRoute>)>) -> serde_json::Value {
    build_caddy_config(
        "/tmp/neals/caddy-admin.sock",
        "127.0.0.1:2015",
        "/tmp/neals/caddy.log",
        "/tmp/neals",
        &projects,
    )
}

#[test]
fn build_config_contains_unix_and_tcp_upstreams() {
    let cfg = config(vec![(
        "demo".into(),
        vec![
            BoundRoute {
                service: "backend".into(),
                target: BoundTarget::Unix { socket_file: "backend.sock".into() },
                proxy: true,
            },
            tcp("api", 38471, true),
        ],
    )]);
    let text = cfg.to_string();
    assert!(text.contains("backend.demo.localhost"));
    assert!(text.contains("unix/"));
    assert!(text.contains("backend.sock"));
    assert!(text.contains("api.demo.localhost"));
    assert!(text.contains("127.0.0.1:38471"));
    assert!(text.contains("127.0.0.1:2015"));
    assert!(text.contains("automatic_https"));
    assert!(text.contains("\"dial\":\"unix//tmp/neals/demo/backend.sock\""));
}

#[test]
fn build_config_keeps_multi_project_hosts_and_ports_distinct() {
    let cfg = config(vec![
        ("demo".into(), vec![tcp("be", 11111, true), tcp("admin", 11112, true)]),
        ("demo2".into(), vec![tcp("be", 22222, true)]),
    ]);
    let text = cfg.to_string();
    assert!(text.contains("be.demo.localhost"));
    assert!(text.contains("admin.demo.localhost"));
    assert!(text.contains("be.demo2.localhost"));
    assert!(text.contains("127.0.0.1:11111"));
    assert!(text.contains("127.0.0.1:11112"));
    assert!(text.contains("127.0.0.1:22222"));
    assert!(text.contains(r#""be.demo.localhost""#));
    assert!(text.contains(r#""be.demo2.localhost""#));
}

#[test]
fn build_config_skips_private_tcp_services() {
    let cfg = config(vec![(
        "demo".into(),
        vec![tcp("redis", 6379, false), tcp("api", 8000, true)],
    )]);
    let text = cfg.to_string();
    assert!(!text.contains("redis.demo.localhost"));
    assert!(text.contains("api.demo.localhost"));
    assert!(text.contains("127.0.0.1:8000"));
    assert!(!text.contains("127.0.0.1:6379"));
}

#[test]
fn configuration_in_full() {
    assert_eq!(
        config(vec![("demo".into(), vec![tcp("api", 8000, true)])]).to_string(),
        "{\"admin\":{\"listen\":\"unix//tmp/neals/caddy-admin.sock\"},\
         \"logging\":{\"logs\":{\"default\":{\"writer\":{\"output\":\"file\",\
         \"filename\":\"/tmp/neals/caddy.log\"}}}},\
         \"apps\":{\"http\":{\"http_port\":2015,\"https_port\":2016,\
         \"servers\":{\"neals\":{\"listen\":[\"127.0.0.1:2015\"],\
         \"automatic_https\":{\"disable\":true},\
         \"routes\":[{\"match\":[{\"host\":[\"api.demo.localhost\"]}],\
         \"handle\":[{\"handler\":\"reverse_proxy\",\
         \"upstreams\":[{\"dial\":\"127.0.0.1:8000\"}]}]}]}}}}}"
    );
}

#[test]
fn http_port_follows_listen_addr() {
    assert_eq!(http_port_from_addr("127.0.0.1:80"), 80);
    assert_eq!(http_port_from_addr("127.0.0.1:2015"), 2015);
    assert_eq!(https_port_from_addr("127.0.0.1:80"), 2016);
    assert_eq!(https_port_from_addr("127.0.0.1:2015"), 2016);
}

#[test]
fn odd_listen_addresses() {
    assert_eq!(http_port_from_addr("nothing"), 2015);
    assert_eq!(http_port_from_addr("x:65536"), 2015);
    assert_eq!(http_port_from_addr("[::1]:8080"), 8080);
    assert_eq!(http_port_from_addr("x:+81"), 81);
    assert_eq!(http_port_from_addr("x:"), 2015);
    assert_eq!(https_port_from_addr("x:65535"), 65535);
    assert_eq!(https_port_from_addr("x:1024"), 1025);
}

fn env(command: Option<&str>, http_addr: Option<&str>, mode: Option<&str>) -> CaddyEnv {
    CaddyEnv {
        command: command.map(str::to_string),
        command_set: command.is_some(),
        http_addr: http_addr.map(str::to_string),
        mode: mode.map(str::to_string),
    }
}

#[test]
fn settings_of_the_reverse_proxy() {
    assert!(caddy_disabled(&env(Some("-"), None, None)));
    assert!(caddy_disabled(&env(Some(""), None, None)));
    assert!(!caddy_disabled(&env(Some(" "), None, None)));
    assert!(!caddy_disabled(&env(None, None, None)));
    assert_eq!(caddy_command(&env(None, None, None)), ("caddy".into(), vec![]));
    assert_eq!(caddy_command(&env(Some(" - "), None, None)), ("caddy".into(), vec![]));
    assert_eq!(
        caddy_command(&env(Some("fake --x y"), None, None)),
        ("fake".into(), vec!["--x".to_string(), "y".to_string()])
    );
    assert_eq!(split_command(None), None);
    assert_eq!(http_listen_addr(&env(None, None, None)), "127.0.0.1:2015");
    assert_eq!(http_listen_addr(&env(None, Some(" "), Some(" system\n"))), "127.0.0.1:80");
    assert_eq!(http_listen_addr(&env(None, Some("127.0.0.1:8080"), Some("system"))), "127.0.0.1:8080");
    assert!(is_system_mode(&env(None, None, Some("system"))));
    assert!(!is_system_mode(&env(None, None, Some("user"))));
}

#[test]
fn starting_the_reverse_proxy() {
    assert!(CaddyManager::start(&env(Some("-"), None, None), &dirs()).unwrap().is_none());
    let plan = CaddyManager::start(&env(None, None, None), &dirs()).unwrap().unwrap();
    assert_eq!(plan.manager.admin_sock, "/run/user/1000/neals/caddy-admin.sock");
    assert_eq!(plan.manager.config_path, "/home/x/.local/state/neals/caddy.json");
    assert_eq!(plan.log_path, "/home/x/.local/state/neals/caddy.log");
    assert_eq!(plan.program, "caddy");
    assert_eq!(plan.args, vec!["run", "--config", "/home/x/.local/state/neals/caddy.json"]);
    assert!(plan.wait);
    assert!(plan.config_text.starts_with("{\n  \"admin\": {\n    \"listen\": \"unix//run"));
    assert!(plan.config_text.contains("\"routes\": []"));
    let fake = CaddyManager::start(&env(Some("fake"), None, None), &dirs()).unwrap().unwrap();
    assert_eq!(fake.program, "fake");
    assert!(fake.args.is_empty());
    assert!(fake.manager.loose && !fake.wait);
    let no_text = CaddyEnv { command_set: true, ..env(None, None, None) };
    let plan = CaddyManager::start(&no_text, &dirs()).unwrap().unwrap();
    assert_eq!(plan.program, "caddy");
    assert!(plan.manager.loose && !plan.wait);
    let homeless = Dirs { home: None, ..dirs() };
    assert_eq!(
        CaddyManager::start(&env(None, None, None), &homeless).unwrap_err(),
        "$HOME is not set"
    );

    let m = &plan.manager;
    assert_eq!(m.wait_admin_ready(0, true), AdminWait::Ready);
    assert_eq!(m.wait_admin_ready(ADMIN_TRIES - 1, false), AdminWait::Again);
    assert_eq!(
        m.wait_admin_ready(ADMIN_TRIES, false),
        AdminWait::Failed(
            "caddy admin socket not ready: /run/user/1000/neals/caddy-admin.sock (listen 127.0.0.1:2015)"
                .into()
        )
    );
}

#[test]
fn handing_routes_over() {
    let off = CaddyManager::disabled();
    assert!(off.apply_routes(&dirs(), &vec![]).unwrap().is_none());
    let on = CaddyManager {
        admin_sock: "/a.sock".into(),
        config_path: "/c.json".into(),
        http_addr: "127.0.0.1:2015".into(),
        loose: false,
    };
    let routes = vec![("é".to_string(), vec![tcp("api", 8000, true)])];
    let plan = on.apply_routes(&dirs(), &routes).unwrap().unwrap();
    let (head, body) = plan.request.split_once("\r\n\r\n").unwrap();
    assert_eq!(
        head,
        format!(
            "POST /load HTTP/1.1\r\nHost: localhost\r\nContent-Type: application/json\r\n\
             Content-Length: {}\r\nConnection: close",
            body.len()
        )
    );
    assert!(body.contains("\"api.é.localhost\""));
    assert_eq!(plan.config_path, "/c.json");
    assert_eq!(plan.admin_sock, "/a.sock");
    let homeless = Dirs { home: None, ..dirs() };
    assert_eq!(on.apply_routes(&homeless, &routes).unwrap_err(), "$HOME is not set");

    assert_eq!(on.applied(Ok(())), (Ok(()), None));
    assert_eq!(on.applied(Err("no".into())), (Err("no".into()), None));
    assert_eq!(
        off.applied(Err("no".into())),
        (Ok(()), Some("caddy apply skipped: no".into()))
    );
}

#[test]
fn answers_of_the_reverse_proxy() {
    assert!(read_load_response("HTTP/1.1 200 OK\r\n\r\n").is_ok());
    assert_eq!(
        read_load_response("HTTP/1.1 400 Bad\r\nX: y\r\n\r\n {\"error\":1} \n\r\n\r\nmore")
            .unwrap_err(),
        "caddy /load failed: HTTP/1.1 400 Bad {\"error\":1}"
    );
    assert_eq!(read_load_response("").unwrap_err(), "caddy /load failed:  ");
}

#[test]
fn links_only_for_sockets() {
    let plan = ensure_neals_symlinks(
        "/p",
        "/r/demo",
        &vec![ServiceDecl {
            service: "api".into(),
            kind: ServiceKind::Tcp { preferred_port: Some(1), proxy: true },
        }],
    );
    assert_eq!(plan.dir, None);
    assert!(plan.links.is_empty());
    assert_eq!(neals_dir("/p"), "/p/.neals");
}

#[test]
fn labels_of_routes() {
    let private = BoundRoute {
        service: "redis".into(),
        target: BoundTarget::Tcp { host_port: 6380, guest_port: 6379 },
        proxy: false,
    };
    assert_eq!(private.status_label("demo", 80), "redis → 127.0.0.1:6380 (guest :6379)");
    assert_eq!(private.tcp_port(), Some(6380));
    assert_eq!(private.guest_tcp_port(), Some(6379));
    assert_eq!(private.public_host("demo"), "redis.demo.localhost");
    let shown = BoundRoute { proxy: true, ..private };
    assert_eq!(
        shown.status_label("demo", 80),
        "http://redis.demo.localhost/ → 127.0.0.1:6380 (guest :6379)"
    );
    let unix = BoundRoute {
        service: "be".into(),
        target: BoundTarget::Unix { socket_file: "be.sock".into() },
        proxy: true,
    };
    assert_eq!(unix.status_label("demo", 80), "http://be.demo.localhost/");
    assert_eq!(unix.status_label("demo", 8080), "http://be.demo.localhost:8080/");
    assert_eq!(unix.tcp_port(), None);
    assert_eq!(unix.guest_tcp_port(), None);
}

#[test]
fn snapshots_of_running_projects() {
    let files = [(
        "demo",
        "{ neals.services.redis.port = 6379; neals.services.api = { port = 8000; proxy = true; }; }",
    ), (
        "quiet",
        "{ neals.services.redis.port = 6379; }",
    )];
    let mut state = AppState::default();
    let host = Host::new(&[]);
    assert_eq!(up(&mut state, &host, "quiet", &files), Response::Done);
    assert_eq!(up(&mut state, &host, "demo", &files), Response::Done);
    let all = state.bound_snapshot();
    assert_eq!(all.len(), 2);
    assert_eq!(all[1].1.len(), 2);
    let proxied = state.proxy_snapshot();
    assert_eq!(proxied, vec![("demo".to_string(), vec![tcp("api", 8000, true)])]);
    assert!(state.is_running("demo") && !state.is_running("dem"));
}

#[test]
fn reaping_keeps_the_ports_of_the_living() {
    let mut state = AppState::default();
    let host = Host::new(&[]);
    let files = [
        ("demo", r#"{ neals.name = "demo"; neals.route.be = "tcp"; }"#),
        ("other", r#"{ neals.name = "other"; neals.route.be = "tcp"; }"#),
    ];
    assert_eq!(up(&mut state, &host, "demo", &files), Response::Done);
    assert_eq!(up(&mut state, &host, "other", &files), Response::Done);
    let projects = status(&state);
    let demo = port_of(&projects, "demo", "http://be.demo.");
    let other = port_of(&projects, "other", "http://be.other.");
    let (dead, _) =
        state.reap_exited(&vec![ChildPoll::Exited("exit status: 1".into()), ChildPoll::Alive]);
    assert_eq!(dead.len(), 1);
    assert_eq!(dead[0].name, "demo");
    assert_eq!(state.names(), vec!["other"]);
    assert!(state.leases.contains(demo) && state.leases.contains(other));
    state.finish_cleanup(&dead[0]);
    assert!(!state.leases.contains(demo));
    assert!(state.leases.contains(other));
}
