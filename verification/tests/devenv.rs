use neals::devenv::{
    declared_name, declared_services, env_port_var, env_service_key, is_valid_project_name,
    is_valid_service_name, is_valid_socket_file, parse_neals_name, parse_neals_routes,
    parse_neals_services, read_neals_routes, read_neals_services, resolve_project_name,
    ProjectName, RouteDecl, RouteKind, ServiceDecl, ServiceKind,
};
use neals::nix::{collect_neals_literals, Binding, NixLit};

fn binding(path: &[&str], value: NixLit) -> Binding {
    Binding { path: path.iter().map(|s| s.to_string()).collect(), value }
}

fn services_error(src: &str) -> String {
    parse_neals_services(src).unwrap_err()
}

#[test]
fn parse_double_quoted_name() {
    let src = r#"
          { pkgs, ... }: {
            neals.name = "demo";
          }
        "#;
    assert_eq!(parse_neals_name(src).as_deref(), Some("demo"));
}

#[test]
fn parse_double_quoted_name_only() {
    assert_eq!(parse_neals_name(r#"{ neals.name = "my-app"; }"#).as_deref(), Some("my-app"));
    assert_eq!(parse_neals_name("{ neals.name = 'my-app'; }"), None);
}

#[test]
fn parse_ignores_invalid_and_finds_later() {
    let src = r#"
            {
              # neals.name = "BAD_NAME";
              neals.name = "ok-name";
            }
        "#;
    assert_eq!(parse_neals_name(src).as_deref(), Some("ok-name"));
}

#[test]
fn parse_name_hash_inside_string() {
    let src = r#"neals.name = "ok#name";"#;
    assert_eq!(parse_neals_name(src), None);
}

#[test]
fn parse_missing() {
    assert_eq!(parse_neals_name("services.nginx.enable = true;"), None);
}

#[test]
fn parse_nested_neals_attrset() {
    let src = r#"
          {
            neals = {
              name = "demo";
              route = {
                backend = "backend.sock";
              };
            };
          }
        "#;
    assert_eq!(parse_neals_name(src).as_deref(), Some("demo"));
    let routes = parse_neals_routes(src).unwrap();
    assert_eq!(
        routes,
        vec![RouteDecl {
            service: "backend".into(),
            kind: RouteKind::Unix { socket_file: "backend.sock".into() },
        }]
    );
}

#[test]
fn parse_dotted_routes() {
    let src = r#"
          { pkgs, ... }: {
            neals.name = "demo";
            neals.route.backend = "backend.sock";
            neals.route.web = "web.sock";
          }
        "#;
    let routes = parse_neals_routes(src).unwrap();
    assert_eq!(routes.len(), 2);
    assert_eq!(routes[0].service, "backend");
    assert_eq!(routes[1].service, "web");
}

#[test]
fn parse_tcp_and_unix_mix() {
    let src = r#"
          {
            neals.route.web = "web.sock";
            neals.route.api = "tcp";
            neals.route.api-backend = "tcp";
          }
        "#;
    let routes = parse_neals_routes(src).unwrap();
    assert_eq!(routes.len(), 3);
    assert_eq!(routes.iter().find(|r| r.service == "api").unwrap().kind, RouteKind::Tcp);
    assert_eq!(routes.iter().find(|r| r.service == "api-backend").unwrap().kind, RouteKind::Tcp);
}

#[test]
fn env_service_key_normalizes() {
    assert_eq!(env_service_key("api"), "API");
    assert_eq!(env_service_key("api-backend"), "API_BACKEND");
    assert_eq!(env_service_key("web2"), "WEB2");
}

#[test]
fn env_service_key_replaces_everything_else() {
    assert_eq!(env_service_key("a.b c"), "A_B_C");
    assert_eq!(env_service_key("é"), "_");
}

#[test]
fn env_port_var_format() {
    assert_eq!(env_port_var("redis"), "NEALS_REDIS_PORT");
    assert_eq!(env_port_var("redis-insight"), "NEALS_REDIS_INSIGHT_PORT");
}

#[test]
fn parse_services_preferred_and_proxy() {
    let src = r#"
          {
            neals.services.redis.port = 6379;
            neals.services.mailpit = { port = 8025; proxy = true; };
            neals.services.backend.socket = "backend.sock";
          }
        "#;
    let services = parse_neals_services(src).unwrap();
    assert_eq!(services.len(), 3);
    assert_eq!(
        services.iter().find(|s| s.service == "redis").unwrap().kind,
        ServiceKind::Tcp { preferred_port: Some(6379), proxy: false }
    );
    assert_eq!(
        services.iter().find(|s| s.service == "mailpit").unwrap().kind,
        ServiceKind::Tcp { preferred_port: Some(8025), proxy: true }
    );
    assert_eq!(
        services.iter().find(|s| s.service == "backend").unwrap().kind,
        ServiceKind::Unix { socket_file: "backend.sock".into() }
    );
}

#[test]
fn parse_services_merges_legacy_route() {
    let src = r#"
          {
            neals.services.redis.port = 6379;
            neals.route.api = "tcp";
          }
        "#;
    let services = parse_neals_services(src).unwrap();
    assert_eq!(services.len(), 2);
    let api = services.iter().find(|s| s.service == "api").unwrap();
    assert_eq!(api.kind, ServiceKind::Tcp { preferred_port: None, proxy: true });
}

#[test]
fn parse_services_conflict_with_route() {
    let src = r#"
          {
            neals.services.api.port = 8000;
            neals.route.api = "tcp";
          }
        "#;
    assert!(parse_neals_services(src).is_err());
    assert_eq!(
        services_error(src),
        "neals.route.api conflicts with neals.services.api (use only neals.services)"
    );
}

#[test]
fn parse_services_rejects_port_and_socket() {
    let src = r#"{
          neals.services.x = { port = 1; socket = "x.sock"; };
        }"#;
    assert!(parse_neals_services(src).is_err());
    assert_eq!(services_error(src), "neals.services.x cannot set both port and socket");
}

#[test]
fn parse_routes_ignores_commented() {
    let src = r#"
          {
            # neals.route.ghost = "ghost.sock";
            neals.route.backend = "backend.sock";
          }
        "#;
    let routes = parse_neals_routes(src).unwrap();
    assert_eq!(routes.len(), 1);
    assert_eq!(routes[0].service, "backend");
}

#[test]
fn parse_routes_duplicate_errors() {
    let src = r#"
          {
            neals.route.backend = "a.sock";
            neals.route.backend = "b.sock";
          }
        "#;
    assert!(parse_neals_routes(src).is_err());
    assert_eq!(
        parse_neals_routes(src).unwrap_err(),
        "duplicate Nix attr `neals.route.backend` (previous value Str(\"a.sock\"))"
    );
}

#[test]
fn parse_routes_rejects_path_socket() {
    let src = r#"{ neals.route.backend = "../escape.sock"; }"#;
    assert!(parse_neals_routes(src).is_err());
    let src = r#"{ neals.route.backend = "dir/backend.sock"; }"#;
    assert!(parse_neals_routes(src).is_err());
}

#[test]
fn valid_names() {
    assert!(is_valid_project_name("demo"));
    assert!(is_valid_project_name("my-app2"));
    assert!(!is_valid_project_name("MyApp"));
    assert!(!is_valid_project_name("-x"));
    assert!(!is_valid_project_name("x-"));
    assert!(!is_valid_project_name(""));
}

#[test]
fn name_length_limit() {
    assert!(is_valid_service_name(&"a".repeat(63)));
    assert!(!is_valid_service_name(&"a".repeat(64)));
    assert!(!is_valid_service_name("é"));
}

#[test]
fn socket_names_are_bare() {
    assert!(is_valid_socket_file("backend.sock"));
    assert!(is_valid_socket_file("...x"));
    for bad in ["", "tcp", "a/b", "a\0b", ".", ".."] {
        assert!(!is_valid_socket_file(bad), "{bad:?}");
    }
}

#[test]
fn resolve_from_devenv_file() {
    let got = resolve_project_name("/tmp/whatever", Some(r#"{ neals.name = "from-nix"; }"#)).unwrap();
    assert_eq!(got, ProjectName::FromDevenv("from-nix".into()));
    assert!(!got.is_fallback());
}

#[test]
fn resolve_fallback_without_neals_name() {
    let got = resolve_project_name("/tmp/neals-fallback-proj-7", Some("{\n}\n")).unwrap();
    assert!(got.is_fallback());
    assert_eq!(got.as_str(), "neals-fallback-proj-7");
    let got = resolve_project_name("/tmp/plain/", None).unwrap();
    assert_eq!(got, ProjectName::Fallback("plain".into()));
}

#[test]
fn resolve_refuses_odd_folders() {
    assert_eq!(resolve_project_name("/", None).unwrap_err(), "current directory has no valid name");
    assert_eq!(
        resolve_project_name("/srv/My_App", None).unwrap_err(),
        "folder name `My_App` is not a valid project name (use lowercase letters, digits, \
         hyphens; set neals.name in devenv.nix)"
    );
}

#[test]
fn services_are_sorted_by_name() {
    let src = r#"{ neals.route.web = "tcp"; neals.services.b.port = 2; neals.services.a.port = 1; }"#;
    let names: Vec<String> =
        parse_neals_services(src).unwrap().into_iter().map(|s| s.service).collect();
    assert_eq!(names, vec!["a", "b", "web"]);
}

#[test]
fn service_errors_say_what_is_wrong() {
    assert_eq!(
        services_error("{ neals.services.BAD.port = 1; }"),
        "invalid neals.services service name `BAD`"
    );
    assert_eq!(
        services_error("{ neals.services.x = 5; }"),
        "neals.services.x must be an attrset (e.g. { port = 6379; } or { port = 8025; proxy = true; })"
    );
    assert_eq!(
        services_error("{ neals.services.x.y.z = 5; }"),
        "unsupported neals.services path `services.x.y.z`"
    );
    assert_eq!(
        services_error("{ neals.services.x.port = \"1\"; }"),
        "`neals.services.x.port` must be an integer literal"
    );
    assert_eq!(
        services_error("{ neals.services.x.port = 65536; }"),
        "`neals.services.x.port` must be in 1..=65535, got 65536"
    );
    assert_eq!(
        services_error("{ neals.services.x.port = 0; }"),
        "`neals.services.x.port` must be in 1..=65535, got 0"
    );
    assert_eq!(
        services_error("{ neals.services.x.proxy = 1; }"),
        "`neals.services.x.proxy` must be a boolean literal (true/false)"
    );
    assert_eq!(
        services_error("{ neals.services.x.socket = 1; }"),
        "`neals.services.x.socket` must be a string literal"
    );
    assert_eq!(
        services_error("{ neals.services.x.socket = \"a/b\"; }"),
        "invalid neals.services.x.socket `a/b` (expected a bare filename like backend.sock)"
    );
    assert_eq!(
        services_error("{ neals.services.x.colour = 1; }"),
        "unknown neals.services.x field `colour`"
    );
    assert_eq!(
        services_error("{ neals.services.x.proxy = true; }"),
        "neals.services.x needs port = <n> or socket = \"file.sock\""
    );
    assert_eq!(
        services_error("{ neals.services.x = { socket = \"x.sock\"; proxy = false; }; }"),
        "neals.services.x.socket cannot set proxy = false (UNIX services are always reverse-proxied)"
    );
    assert_eq!(
        services_error("{ neals.route.BAD = \"tcp\"; }"),
        "invalid neals.route service name `BAD`"
    );
    assert_eq!(
        services_error("{ neals.route.x = 1; }"),
        "neals.route.x must be a string literal"
    );
    assert_eq!(
        services_error("{ neals.route.x = \"a/b\"; }"),
        "invalid neals.route.x value `a/b` (expected \"tcp\" or a bare filename like backend.sock)"
    );
}

#[test]
fn values_that_are_no_literals() {
    assert_eq!(
        services_error("{ neals.services.x.port = \"${p}\"; }"),
        "`neals.services.x.port` must be a string literal (no interpolation)"
    );
    assert_eq!(
        services_error("{ neals.services.x.port = 1.5; }"),
        "`neals.services.x.port` must be a supported literal"
    );
    assert_eq!(
        services_error("{ neals.services.x.port = lib.foo; }"),
        "`neals.services.x.port` must be a literal"
    );
    assert_eq!(
        services_error("{ neals.services.x.port = somewhere; }"),
        "`neals.services.x.port` must be a literal"
    );
    assert_eq!(
        services_error("{ anything = 99999999999999999999; }"),
        "invalid integer at `anything`: number too large to fit in target type"
    );
    assert!(parse_neals_services("{ other.x.port = lib.foo; neals.name = lib.foo; }").unwrap().is_empty());
}

#[test]
fn literals_under_scopes_and_quoted_names() {
    let src = r#"
      { pkgs, lib, ... }: with lib; let x = 1; in {
        "neals".name = "de" + "mo";
        neals."services".api = { port = 8000; proxy = true; };
        neals.services.${dynamic}.port = 1;
      }
    "#;
    let got = collect_neals_literals(src).unwrap();
    assert_eq!(
        got,
        vec![
            binding(&["services", "api", "port"], NixLit::Int(8000)),
            binding(&["services", "api", "proxy"], NixLit::Bool(true)),
        ]
    );
}

#[test]
fn indented_and_escaped_strings() {
    let src = "{ neals.a = ''\n  one\n    two\n''; neals.b = \"x\\ny\"; }";
    let got = collect_neals_literals(src).unwrap();
    assert_eq!(
        got,
        vec![
            binding(&["a"], NixLit::Str("one\n  two\n".into())),
            binding(&["b"], NixLit::Str("x\ny".into())),
        ]
    );
}

#[test]
fn unterminated_string_is_no_literal() {
    assert_eq!(parse_neals_name("{ neals.name = \"demo"), None);
    assert_eq!(collect_neals_literals("{ neals.name = \"demo").unwrap(), vec![]);
}

#[test]
fn duplicate_attributes_show_the_previous_value() {
    assert_eq!(
        collect_neals_literals("{ a = 5; a = 6; }").unwrap_err(),
        "duplicate Nix attr `a` (previous value Int(5))"
    );
    assert_eq!(
        collect_neals_literals("{ a.b = true; a = { b = false; }; }").unwrap_err(),
        "duplicate Nix attr `a.b` (previous value Bool(true))"
    );
    assert_eq!(
        collect_neals_literals("{ a = \"q\\\"\"; a = 6; }").unwrap_err(),
        "duplicate Nix attr `a` (previous value Str(\"q\\\"\"))"
    );
}

#[test]
fn bindings_in_any_order_declare_the_same() {
    let a = binding(&["services", "api", "port"], NixLit::Int(8000));
    let b = binding(&["services", "api", "proxy"], NixLit::Bool(true));
    let c = binding(&["route", "web"], NixLit::Str("web.sock".into()));
    let n = binding(&["name"], NixLit::Str("demo".into()));
    let one = vec![a.clone(), b.clone(), c.clone(), n.clone()];
    let two = vec![n, c, b, a];
    let want = vec![
        ServiceDecl {
            service: "api".into(),
            kind: ServiceKind::Tcp { preferred_port: Some(8000), proxy: true },
        },
        ServiceDecl {
            service: "web".into(),
            kind: ServiceKind::Unix { socket_file: "web.sock".into() },
        },
    ];
    assert_eq!(declared_services(&one).unwrap(), want);
    assert_eq!(declared_services(&two).unwrap(), want);
    assert_eq!(declared_name(&one).as_deref(), Some("demo"));
    assert_eq!(declared_name(&two).as_deref(), Some("demo"));
}

#[test]
fn projects_without_a_file_declare_nothing() {
    assert!(read_neals_services(None).unwrap().is_empty());
    assert!(read_neals_routes(None).unwrap().is_empty());
    let src = "{ neals.services.redis.port = 6379; }";
    assert_eq!(read_neals_services(Some(src)).unwrap().len(), 1);
    assert_eq!(read_neals_routes(Some(src)).unwrap()[0].kind, RouteKind::Tcp);
}

#[test]
fn declarations_know_their_hosts() {
    let tcp = ServiceDecl {
        service: "api".into(),
        kind: ServiceKind::Tcp { preferred_port: None, proxy: false },
    };
    assert_eq!(tcp.public_host("demo"), "api.demo.localhost");
    assert!(!tcp.is_unix());
    assert!(!tcp.wants_proxy());
    let unix = ServiceDecl {
        service: "be".into(),
        kind: ServiceKind::Unix { socket_file: "be.sock".into() },
    };
    assert!(unix.is_unix());
    assert!(unix.wants_proxy());
    let route = RouteDecl { service: "be".into(), kind: RouteKind::Tcp };
    assert_eq!(route.public_host("demo"), "be.demo.localhost");
}

#[test]
fn stray_elements_make_no_literal() {
    let broken = "\"${(}\"${x} ${y}";
    assert_eq!(parse_neals_name(&format!("{{ neals.name = {broken}")), None);
    assert_eq!(collect_neals_literals(&format!("{{ neals.name = {broken}")).unwrap(), vec![]);
    assert_eq!(
        services_error(&format!("{{ neals.services.api.socket = {broken}")),
        "`neals.services.api.socket` must be a string literal (no interpolation)"
    );
    assert_eq!(collect_neals_literals(&format!("{{ neals.{broken} = 5;")).unwrap(), vec![]);
    let glued = "\"${(}\"${x}${y}";
    assert_eq!(collect_neals_literals(&format!("{{ neals.name = {glued}")).unwrap(), vec![]);
}

#[test]
fn nesting_order_and_comments_make_no_difference() {
    let nested = r#"
      { pkgs, ... }: {
        # services of the project
        neals = {
          name = "demo";
          services = {
            api = { port = 8000; /* seen from outside */ proxy = true; };
            db.socket = "db.sock";
          };
          route.web = "tcp";
        };
      }
    "#;
    let dotted = r#"{
      neals.route.web = "tcp";
      neals.services.db = { socket = "db.sock"; };
      neals.services.api.proxy = true;
      neals.name = "demo";
      neals.services.api.port = 8000;
    }"#;
    let services = parse_neals_services(nested).unwrap();
    assert_eq!(services, parse_neals_services(dotted).unwrap());
    assert_eq!(
        services.iter().map(|s| s.service.as_str()).collect::<Vec<_>>(),
        vec!["api", "db", "web"]
    );
    assert_eq!(parse_neals_name(nested), parse_neals_name(dotted));
    let same_order = r#"{
      neals.name = "demo"; neals.services.api.port = 8000; neals.services.api.proxy = true;
      neals.services.db.socket = "db.sock"; neals.route.web = "tcp";
    }"#;
    assert_eq!(collect_neals_literals(nested), collect_neals_literals(same_order));
    assert_eq!(
        services_error("{ neals = { services = { api = { port = x; }; }; }; }"),
        services_error("{ /* no literal */ neals.services.api.port = x; }")
    );
}
