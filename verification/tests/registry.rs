use neals::cli::{
    complete_projects, completion_setup, confirm, expect_done, expect_status, fallback_notice,
    find_running, format_uptime, is_yes, list_status, project_path, prune_plan, pruned_text,
    register, register_step, route_lines, status_rows, unregister, CompletionShell, Confirm,
    RegisterStep,
};
use neals::devenv::ProjectName;
use neals::ipc::{ProjectRuntime, Response};
use neals::paths::{file_name, is_same_path, join_path, parent};
use neals::refresh::{
    evaluation_failed, is_allowed_wipe_path, is_safe_project_name, managed_runtime_roots,
    managed_wipe_targets, resolve_registered, stop_if_running,
};
use neals::registry::{Project, Registry};
use neals::xdg::{
    config_dir, config_dir_with, daemon_socket, is_system_daemon_socket, project_log_path,
    project_runtime_dir, projects_file, runtime_dir_with, state_dir, state_dir_with, Dirs,
};
use std::path::{Path, PathBuf};

fn project(name: &str, path: &str) -> Project {
    Project { name: name.into(), path: path.into() }
}

fn dirs() -> Dirs {
    Dirs {
        home: Some("/home/x".into()),
        config_home: None,
        state_home: None,
        runtime: Some("/run/user/1000".into()),
        socket: None,
    }
}

#[test]
fn load_missing_file_returns_empty() {
    let registry = Registry::load_from("/nowhere/projects.json", None).unwrap();
    assert!(registry.projects.is_empty());
}

#[test]
fn round_trip_save_and_load() {
    let path = "/tmp/neals-registry-roundtrip/neals/projects.json";
    let mut registry = Registry::default();
    registry.add(project("ferrari", "/home/dev/ferrari")).unwrap();
    let plan = registry.save_to(path).unwrap();
    assert_eq!(plan.dir.as_deref(), Some("/tmp/neals-registry-roundtrip/neals"));
    assert_eq!(plan.tmp_path, "/tmp/neals-registry-roundtrip/neals/projects.json.tmp");
    assert_eq!(plan.path, path);
    assert_eq!(
        plan.data,
        "{\n  \"projects\": [\n    {\n      \"name\": \"ferrari\",\n      \"path\": \"/home/dev/ferrari\"\n    }\n  ]\n}"
    );
    let loaded = Registry::load_from(path, Some(&plan.data)).unwrap();
    assert_eq!(loaded, registry);
    assert_eq!(loaded.get("ferrari").unwrap().path, "/home/dev/ferrari");
}

#[test]
fn registry_file_errors() {
    assert_eq!(
        Registry::load_from("/p", Some("{}")).unwrap_err(),
        "failed to parse /p"
    );
    assert_eq!(Registry::load_from("/p", Some("nope")).unwrap_err(), "failed to parse /p");
    assert_eq!(
        Registry::load_from("/p", Some("{\"projects\":[{\"name\":\"a\"}]}")).unwrap_err(),
        "failed to parse /p"
    );
    let by_position = Registry::load_from("/p", Some("[[[\"a\",\"/a\"]]]")).unwrap();
    assert_eq!(by_position.projects, vec![project("a", "/a")]);
    assert_eq!(
        Registry::default().save_to("/").unwrap_err(),
        "registry path has no file name"
    );
    let one = |fields: &str| {
        Registry::load_from("/p", Some(&format!("{{\"projects\":[{{{fields}}}]}}")))
    };
    let want = Registry { projects: vec![project("a", "/a")] };
    assert_eq!(one("\"path\":\"/a\",\"x\":1e999,\"x\":0,\"name\":\"a\"").unwrap(), want);
    assert!(one("\"name\":\"a\",\"path\":\"/a\",\"name\":\"a\"").is_err());
    assert!(one("\"name\":\"a\",\"path\":\"/a\",\"path\":\"/a\"").is_err());
    assert!(Registry::load_from("/p", Some("{\"projects\":[],\"projects\":[]}")).is_err());
}

#[test]
fn registry_of_the_user() {
    let registry = Registry::load(&dirs(), Some("{\"projects\":[]}")).unwrap();
    assert!(registry.projects.is_empty());
    assert_eq!(
        Registry::load(&dirs(), Some("x")).unwrap_err(),
        "failed to parse /home/x/.config/neals/projects.json"
    );
    assert_eq!(registry.save(&dirs()).unwrap().path, "/home/x/.config/neals/projects.json");
    let homeless = Dirs { home: None, ..dirs() };
    assert_eq!(Registry::load(&homeless, None).unwrap_err(), "$HOME is not set");
    assert_eq!(registry.save(&homeless).unwrap_err(), "$HOME is not set");
}

#[test]
fn add_rejects_duplicate_name() {
    let mut registry = Registry::default();
    registry.add(project("a", "/a")).unwrap();
    let err = registry.add(project("a", "/b")).unwrap_err();
    assert!(err.to_string().contains("already registered"));
    assert_eq!(err, "project `a` is already registered");
}

#[test]
fn upsert_replaces_existing() {
    let mut registry = Registry::default();
    registry.add(project("a", "/old")).unwrap();
    let prev = registry.upsert(project("a", "/new"));
    assert_eq!(prev.unwrap().path, "/old");
    assert_eq!(registry.get("a").unwrap().path, "/new");
}

#[test]
fn upsert_appends_otherwise() {
    let mut registry = Registry::default();
    assert!(registry.upsert(project("a", "/a")).is_none());
    assert!(registry.upsert(project("b", "/b")).is_none());
    assert_eq!(registry.projects, vec![project("a", "/a"), project("b", "/b")]);
}

#[test]
fn remove_existing_project() {
    let mut registry = Registry::default();
    registry.add(project("a", "/a")).unwrap();
    let removed = registry.remove("a").unwrap();
    assert_eq!(removed.name, "a");
    assert!(registry.projects.is_empty());
}

#[test]
fn remove_missing_project_errors() {
    let mut registry = Registry::default();
    let err = registry.remove("missing").unwrap_err();
    assert!(err.to_string().contains("not registered"));
}

#[test]
fn take_ghosts_keeps_valid_dirs() {
    let mut registry = Registry::default();
    registry.add(project("alive", "/tmp")).unwrap();
    registry.add(project("dead", "/tmp/does-not-exist")).unwrap();
    let ghosts = registry.take_ghosts(&vec![true, false]);
    assert_eq!(ghosts.len(), 1);
    assert_eq!(ghosts[0].name, "dead");
    assert!(ghosts[0].is_ghost(false));
    assert_eq!(registry.projects.len(), 1);
    assert_eq!(registry.projects[0].name, "alive");
}

#[test]
fn config_dir_prefers_xdg() {
    let got = config_dir_with(Some(&"/tmp/foo".to_string()), "/home/x");
    assert_eq!(PathBuf::from(got), PathBuf::from("/tmp/foo/neals"));
}

#[test]
fn config_dir_falls_back_to_home() {
    let got = config_dir_with(None, "/home/x");
    assert_eq!(PathBuf::from(got), PathBuf::from("/home/x/.config/neals"));
}

#[test]
fn state_dir_prefers_xdg() {
    let got = state_dir_with(Some(&"/tmp/state".to_string()), "/home/x");
    assert_eq!(PathBuf::from(got), PathBuf::from("/tmp/state/neals"));
}

#[test]
fn state_dir_falls_back_to_home() {
    assert_eq!(state_dir_with(None, "/home/x"), "/home/x/.local/state/neals");
}

#[test]
fn runtime_dir_prefers_xdg() {
    let got = runtime_dir_with(Some(&"/run/user/1000".to_string()));
    assert_eq!(PathBuf::from(got), PathBuf::from("/run/user/1000/neals"));
}

#[test]
fn runtime_dir_falls_back_to_tmp() {
    assert_eq!(PathBuf::from(runtime_dir_with(None)), PathBuf::from("/tmp/neals"));
}

#[test]
fn places_of_files() {
    assert_eq!(config_dir(&dirs()).unwrap(), "/home/x/.config/neals");
    assert_eq!(state_dir(&dirs()).unwrap(), "/home/x/.local/state/neals");
    assert_eq!(projects_file(&dirs()).unwrap(), "/home/x/.config/neals/projects.json");
    assert_eq!(project_runtime_dir(&dirs(), "demo"), "/run/user/1000/neals/demo");
    assert_eq!(
        project_log_path(&dirs(), "demo").unwrap(),
        "/home/x/.local/state/neals/demo.log"
    );
    assert_eq!(daemon_socket(&dirs(), true), "/run/neals/nealsd.sock");
    assert_eq!(daemon_socket(&dirs(), false), "/run/user/1000/neals/nealsd.sock");
    let asked = Dirs { socket: Some("/s".into()), ..dirs() };
    assert_eq!(daemon_socket(&asked, true), "/s");
    assert!(is_system_daemon_socket("/run//neals/nealsd.sock"));
    assert!(!is_system_daemon_socket("/s"));
}

#[test]
fn format_uptime_examples() {
    assert_eq!(format_uptime(45), "45s");
    assert_eq!(format_uptime(125), "2m 5s");
    assert_eq!(format_uptime(3661), "1h 1m");
}

#[test]
fn confirmation() {
    assert_eq!(confirm("Go?", true, false), Confirm::Accepted);
    assert_eq!(confirm("Go?", false, true), Confirm::Ask("Go? [y/N] ".into()));
    assert_eq!(
        confirm("Go?", false, false),
        Confirm::Refused("refusing to prompt without a TTY; re-run with --yes".into())
    );
    for yes in ["y\n", " YES ", "Yes", "Y"] {
        assert!(is_yes(yes), "{yes:?}");
    }
    for no in ["", "n", "yess", "y e s"] {
        assert!(!is_yes(no), "{no:?}");
    }
}

#[test]
fn registering() {
    let mut registry = Registry::default();
    assert_eq!(register_step(&registry, "a", "/a"), RegisterStep::Add);
    assert_eq!(register(&mut registry, "a", "/a"), "registered `a` → /a");
    assert_eq!(
        register_step(&registry, "a", "/a/"),
        RegisterStep::Already("already registered `a` → /a/".into())
    );
    assert_eq!(
        register_step(&registry, "a", "/b"),
        RegisterStep::Override {
            warning: "project `a` is already registered at /a".into(),
            hint: "override with /b?".into(),
        }
    );
    assert_eq!(register(&mut registry, "a", "/b"), "overrode `a` → /b");
    assert_eq!(registry.projects, vec![project("a", "/b")]);
    assert_eq!(project_path(&registry, "a").unwrap(), "/b");
    assert_eq!(unregister(&mut registry, "a").unwrap(), "unregistered `a` (was /b)");
    assert_eq!(unregister(&mut registry, "a").unwrap_err(), "project `a` is not registered");
    assert_eq!(project_path(&registry, "a").unwrap_err(), "project `a` is not registered");
}

#[test]
fn registering_under_a_folder_name() {
    assert!(fallback_notice(&ProjectName::FromDevenv("x".into())).is_none());
    let n = fallback_notice(&ProjectName::Fallback("x".into())).unwrap();
    assert_eq!(n.warning, "no `neals.name` in devenv.nix; falling back to folder name `x`");
    assert_eq!(n.hint, "services will be reachable at <service>.x.localhost");
}

#[test]
fn pruning() {
    let mut registry = Registry::default();
    registry.add(project("a", "/a")).unwrap();
    registry.add(project("b", "/b")).unwrap();
    assert!(prune_plan(&registry, &vec![true, true]).is_none());
    let plan = prune_plan(&registry, &vec![false, true]).unwrap();
    assert_eq!(plan.lines, vec!["  a → /a"]);
    assert_eq!(plan.question, "Remove 1 ghost project(s)?");
    assert_eq!(pruned_text(1), "pruned 1 project(s)");
    assert_eq!(list_status(true), "ok");
    assert_eq!(list_status(false), "ghost");
}

#[test]
fn status_table() {
    let running = vec![
        ProjectRuntime {
            name: "a".into(),
            pid: 5,
            netns_pid: 6,
            uptime_secs: 61,
            routes: vec!["x".into(), "y".into()],
        },
        ProjectRuntime { name: "b".into(), ..Default::default() },
    ];
    let rows = status_rows(&running);
    assert_eq!(rows[0].name, "a");
    assert_eq!(rows[0].pid, "5");
    assert_eq!(rows[0].uptime, "1m 1s");
    assert_eq!(rows[0].services, "x\ny");
    assert_eq!(rows[1].services, "-");
    assert_eq!(find_running(&running, "b").unwrap().name, "b");
    assert!(find_running(&running, "c").is_none());
    assert_eq!(route_lines(&running, "a", false), vec!["  → x", "  → y"]);
    assert_eq!(route_lines(&running, "a", true)[0], "  → \u{1b}[36mx\u{1b}[39m");
    assert!(route_lines(&running, "c", true).is_empty());
    let status = Response::Status { projects: running };
    assert_eq!(stop_if_running(&status, "a"), Ok(true));
    assert_eq!(stop_if_running(&status, "c"), Ok(false));
    assert_eq!(
        stop_if_running(&Response::Error { message: "no".into() }, "a"),
        Err("no".to_string())
    );
    assert_eq!(
        stop_if_running(&Response::Pong, "a"),
        Err("unexpected daemon response: Pong".to_string())
    );
}

#[test]
fn answers_of_the_daemon() {
    assert!(expect_done(&Response::Done).is_ok());
    assert_eq!(expect_done(&Response::Error { message: "m".into() }).unwrap_err(), "m");
    assert_eq!(
        expect_done(&Response::Pong).unwrap_err(),
        "unexpected response from nealsd: Pong"
    );
    assert!(expect_status(Response::Status { projects: vec![] }).unwrap().is_empty());
    assert_eq!(expect_status(Response::Error { message: "m".into() }).unwrap_err(), "m");
    assert_eq!(
        expect_status(Response::Done).unwrap_err(),
        "unexpected response from nealsd: Ok"
    );
}

#[test]
fn completion() {
    let mut registry = Registry::default();
    for n in ["api", "app", "web"] {
        registry.add(project(n, "/x")).unwrap();
    }
    assert_eq!(complete_projects(&registry, "ap"), vec!["api", "app"]);
    assert_eq!(complete_projects(&registry, "").len(), 3);
    assert!(complete_projects(&registry, "apix").is_empty());
    assert_eq!(completion_setup(CompletionShell::Bash), "source <(COMPLETE=bash neals)");
    assert_eq!(completion_setup(CompletionShell::Fish), "COMPLETE=fish neals | source");
}

#[test]
fn safe_project_names() {
    assert!(is_safe_project_name("demo"));
    assert!(is_safe_project_name("my-app"));
    assert!(!is_safe_project_name("../etc"));
    assert!(!is_safe_project_name("a/b"));
    assert!(!is_safe_project_name(""));
    assert!(!is_safe_project_name("."));
}

#[test]
fn wipe_targets_include_devenv_neals_and_runtime() {
    let roots = managed_runtime_roots("/tmp/neals", false);
    let targets = managed_wipe_targets("demo", "/tmp/proj", &roots);
    assert!(targets.iter().any(|p| Path::new(p).ends_with(".devenv")));
    assert!(targets.iter().any(|p| Path::new(p).ends_with(".neals")));
    assert!(targets.iter().any(|p| Path::new(p).ends_with("demo")));
}

#[test]
fn runtime_roots_of_user_and_system() {
    assert_eq!(managed_runtime_roots("/r", true), vec!["/r", "/run/neals"]);
    assert_eq!(managed_runtime_roots("/run/neals/", true), vec!["/run/neals/"]);
}

#[test]
fn allows_devenv_under_project_root() {
    let roots = managed_runtime_roots("/tmp/neals", false);
    let root = "/tmp/proj".to_string();
    assert!(is_allowed_wipe_path("/tmp/proj/.devenv", "demo", &root, &root, Some(&root), &roots));
    assert!(is_allowed_wipe_path("/tmp/neals/demo", "demo", &root, &root, None, &roots));
    for target in managed_wipe_targets("demo", &root, &roots) {
        assert!(is_allowed_wipe_path(&target, "demo", &root, &root, Some(&root), &roots));
    }
}

#[test]
fn refuses_unrelated_path() {
    let roots = managed_runtime_roots("/tmp/neals", false);
    let root = "/tmp/proj".to_string();
    assert!(!is_allowed_wipe_path("/tmp/proj/src", "demo", &root, &root, Some(&root), &roots));
    assert!(!is_allowed_wipe_path("/tmp/neals/other", "demo", &root, &root, None, &roots));
    assert!(!is_allowed_wipe_path("/tmp/elsewhere/demo", "demo", &root, &root, None, &roots));
    assert!(!is_allowed_wipe_path("/", "demo", &root, &root, None, &roots));
    let elsewhere = "/mnt/other".to_string();
    assert!(!is_allowed_wipe_path(
        "/tmp/proj/.devenv", "demo", &root, &root, Some(&elsewhere), &roots
    ));
}

#[test]
fn refreshing_a_registered_project() {
    let mut registry = Registry::default();
    registry.add(project("demo", "/d")).unwrap();
    registry.add(project("a/b", "/e")).unwrap();
    let here = |_: &String| true;
    let gone = |_: &String| false;
    assert_eq!(resolve_registered(&registry, "demo", &here).unwrap(), project("demo", "/d"));
    assert_eq!(
        resolve_registered(&registry, "demo", &gone).unwrap_err(),
        "project `demo` path is missing: /d"
    );
    assert_eq!(
        resolve_registered(&registry, "a/b", &here).unwrap_err(),
        "refusing unsafe project name `a/b`"
    );
    assert_eq!(
        resolve_registered(&registry, "x", &here).unwrap_err(),
        "project `x` is not registered"
    );
    assert_eq!(evaluation_failed("  \n"), "environment evaluation failed");
    assert_eq!(evaluation_failed(" oops \n"), "environment evaluation failed: oops");
}

#[test]
fn names_below_a_directory() {
    for base in ["", "/", "a", "a/", "/a//b/.", "./a"] {
        let path = join_path(base, "demo");
        assert_eq!(file_name(&path).as_deref(), Some("demo"));
        assert!(is_same_path(&parent(&path).unwrap(), base));
    }
    assert_eq!(join_path("", "demo"), "demo");
    assert_eq!(join_path("/a", "/demo"), "/demo");
}
