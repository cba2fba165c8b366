use neals::client::{
    after_start, ensure_daemon, find_nealsd, is_pong, nealsd_log_path, prepare_socket, read_answer,
    with_daemon, EnsureStep, SocketStep, START_TRIES,
};
use neals::doctor::{
    bare_name, caddy_on, check_daemon_ping, check_devenv, check_dir_writable, check_http,
    check_nealsd, check_on_path, check_self, check_system_daemon, run_doctor, Check, ToolRun,
};
use neals::ipc::{ProjectRuntime, Request, Response};
use neals::live::{
    attach_devenv_merged, emit_line, key_meaning, leave_message, Attach, Key, LiveNext,
    LiveOutcome, LiveView,
};
use neals::logs::{format_process_line, no_log_text, tail_lines, LOG_TAIL_LINES};
use neals::netns::{
    bwrap_command, find_nealsd_exe, netns_pid_for_bwrap, parse_helper_mode, require_tools,
    resolv_conf_path, session_dir_text, slirp_command, slirp_settled, start_proxies, userns_trial,
    wait_netns_pid, which, Sandbox, NETNS_TRIES, PROXY_MODE_ARG, SLIRP_RESOLV_CONF,
};
use neals::process::{
    collect_descendants, find_stragglers, keep_waiting, signal_group, signal_pids, still_alive,
    sweep_notice, StopAction, StopFlow, SweepAction, SweepFlow,
};
use neals::quote::{quote_words, shell_quote};
use neals::repl::{dispatch, ReplCommand, HELP};
use neals::shell::{
    bash_rc_text, detect_shell, enter_project_shell, exit_code_from_status, nsenter_command,
    project_session_alive, require_netns_pid, run_project_exec, run_watched_shell,
    shell_executable, zsh_rc_text, ShellKind, WatchStep,
};
use neals::state::{BoundRoute, BoundTarget};
use neals::style::{
    accent, dim_line, err_line, format_mark, ok_line, pad_right, use_color, warn_line,
};
use neals::xdg::{Dirs, SYSTEM_DAEMON_SOCKET};

fn dirs() -> Dirs {
    Dirs {
        home: Some("/home/x".into()),
        config_home: None,
        state_home: None,
        runtime: None,
        socket: None,
    }
}

fn running(name: &str, netns_pid: u32) -> Response {
    Response::Status {
        projects: vec![ProjectRuntime { name: name.into(), netns_pid, ..Default::default() }],
    }
}

#[test]
fn tail_lines_returns_last_n() {
    assert_eq!(tail_lines("a\nb\nc\nd\ne\n", 3), vec!["c", "d", "e"]);
}

#[test]
fn tail_lines_short_file() {
    assert_eq!(tail_lines("only\n", 100), vec!["only"]);
    assert!(tail_lines("", LOG_TAIL_LINES).is_empty());
    assert_eq!(tail_lines("a\r\n\nb", 2), vec!["", "b"]);
    assert!(tail_lines("a", 0).is_empty());
}

#[test]
fn lines_of_logs() {
    assert_eq!(
        no_log_text("demo", "/l"),
        "no log file for project `demo` at /l (has it been started with `neals up`?)"
    );
    let line = format_process_line("db", 6, "ready");
    assert!(line.starts_with("db     ") && line.ends_with("ready"), "{line:?}");
    assert_eq!(emit_line(true, "x"), "x\r\n");
    assert_eq!(emit_line(false, "x"), "x\n");
}

#[test]
fn bash_rc_clears_and_sets_project() {
    let text = bash_rc_text("demo", "/home/x");
    assert!(text.contains("NEALS_PROJECT=\"demo\""));
    assert!(text.contains("clear") || text.contains("\\033[H\\033[2J"));
    assert_eq!(
        text,
        r#"if [ -f "/home/x/.bashrc" ]; then
  . "/home/x/.bashrc"
fi
export NEALS_PROJECT="demo"
if [ -t 1 ] && [ -z "${NO_COLOR:-}" ]; then
  PS1='\[\e[35m\]neals:demo\[\e[0m\] \w \$ '
else
  PS1='neals:demo \w \$ '
fi
if [ -t 1 ]; then
  clear 2>/dev/null || printf '\033[H\033[2J'
fi
"#
    );
}

#[test]
fn zsh_start_file() {
    assert_eq!(
        zsh_rc_text("demo", "/home/x"),
        r#"if [ -f "/home/x/.zshrc" ]; then
  source "/home/x/.zshrc"
fi
export NEALS_PROJECT="demo"
if [[ -o interactive ]] && [[ -z "${NO_COLOR:-}" ]]; then
  PROMPT="%F{magenta}neals:demo%f %~ %# "
else
  PROMPT="neals:demo %~ %# "
fi
if [[ -t 1 ]]; then
  clear 2>/dev/null || printf '\033[H\033[2J'
fi
"#
    );
}

#[test]
fn project_session_alive_false_when_netns_missing() {
    let exists = |p: &String| std::path::Path::new(p).exists();
    let never = || -> Result<Response, String> { panic!("asked the daemon") };
    assert!(!project_session_alive("anything", 4_294_967_293, &exists, &never));
}

#[test]
fn sessions_end_with_the_project() {
    let there = |p: &String| p == "/proc/7";
    assert!(project_session_alive("demo", 7, &there, &|| Ok(running("demo", 7))));
    assert!(!project_session_alive("demo", 7, &there, &|| Ok(running("other", 7))));
    assert!(project_session_alive("demo", 7, &there, &|| Err("down".into())));
    assert!(project_session_alive("demo", 7, &there, &|| Ok(Response::Pong)));
}

#[test]
fn shells() {
    assert_eq!(shell_executable(None), "bash");
    assert_eq!(shell_executable(Some(&"/bin/zsh".to_string())), "/bin/zsh");
    assert_eq!(detect_shell("/usr/bin/bash"), ShellKind::Bash);
    assert_eq!(detect_shell("zsh"), ShellKind::Zsh);
    assert_eq!(detect_shell("/bin/fish"), ShellKind::Other);
    assert_eq!(detect_shell("/"), ShellKind::Bash);
    let bash = enter_project_shell("demo", "/bin/bash", &dirs(), "/home/x").unwrap();
    assert_eq!(bash.dir.as_deref(), Some("/home/x/.local/state/neals"));
    assert_eq!(bash.file.as_ref().unwrap().0, "/home/x/.local/state/neals/bashrc-demo");
    assert_eq!(
        bash.args,
        vec![
            "--quiet",
            "shell",
            "/bin/bash",
            "-i",
            "--rcfile",
            "/home/x/.local/state/neals/bashrc-demo"
        ]
    );
    let zsh = enter_project_shell("demo", "zsh", &dirs(), "/home/x").unwrap();
    assert_eq!(zsh.zdotdir.as_deref(), Some("/home/x/.local/state/neals/zsh-demo"));
    assert_eq!(zsh.file.unwrap().0, "/home/x/.local/state/neals/zsh-demo/.zshrc");
    let other = enter_project_shell("demo", "fish", &dirs(), "/home/x").unwrap();
    assert_eq!(other.warning.as_deref(), Some("branded prompt not configured for `fish`"));
    assert_eq!(other.file, None);
    let homeless = Dirs { home: None, ..dirs() };
    for program in ["bash", "/bin/zsh"] {
        assert_eq!(
            enter_project_shell("demo", program, &homeless, "").unwrap_err(),
            "$HOME is not set"
        );
    }
    let fish = enter_project_shell("demo", "fish", &homeless, "").unwrap();
    assert_eq!(fish.args, vec!["--quiet", "shell", "fish", "-i"]);
    assert_eq!((fish.dir, fish.file, fish.zdotdir), (None, None, None));
}

#[test]
fn commands_inside_a_project() {
    assert_eq!(run_project_exec(&vec![]).unwrap_err(), "no command provided");
    assert_eq!(
        run_project_exec(&vec!["npm".into(), "a b".into(), "it's".into()]).unwrap(),
        format!("{} {} {}\n", shell_quote("npm"), shell_quote("a b"), shell_quote("it's"))
    );
    assert_eq!(
        nsenter_command("/p", 9, &vec!["shell".into()]),
        vec![
            "--user",
            "--net",
            "--mount",
            "--preserve-credentials",
            "-t",
            "9",
            "--wdns=/p",
            "--",
            "devenv",
            "shell"
        ]
    );
    assert_eq!(require_netns_pid(&running("demo", 9), "demo").unwrap(), 9);
    assert_eq!(
        require_netns_pid(&running("demo", 0), "demo").unwrap_err(),
        "project `demo` has no netns pid (daemon too old?)"
    );
    assert_eq!(
        require_netns_pid(&running("demo", 9), "other").unwrap_err(),
        "project `other` is not running; start it with `neals up other`"
    );
    assert_eq!(
        require_netns_pid(&Response::Error { message: "m".into() }, "demo").unwrap_err(),
        "m"
    );
    assert_eq!(
        require_netns_pid(&Response::Pong, "demo").unwrap_err(),
        "unexpected daemon response for Status"
    );
}

#[test]
fn exit_codes() {
    assert_eq!(exit_code_from_status(Some(0)), 0);
    assert_eq!(exit_code_from_status(Some(255)), 255);
    assert_eq!(exit_code_from_status(Some(256)), 1);
    assert_eq!(exit_code_from_status(Some(-1)), 1);
    assert_eq!(exit_code_from_status(None), 1);
    assert_eq!(run_watched_shell(Some(Some(3)), false, "demo"), WatchStep::Leave(3));
    assert_eq!(run_watched_shell(None, true, "demo"), WatchStep::Again);
    assert_eq!(
        run_watched_shell(None, false, "demo"),
        WatchStep::End("`demo` stopped — left the project shell".into())
    );
}

#[test]
fn quoting() {
    for (raw, words) in [("", 1), ("plain", 1), ("a b", 1), ("it's", 1), ("$x `y` \"z\" \\", 1)] {
        let q = shell_quote(raw);
        assert!(q.starts_with('\'') && q.ends_with('\''), "{q}");
        assert_eq!(q.replace("'\\''", "\u{0}").trim_matches('\'').replace('\u{0}', "'"), raw);
        assert_eq!(words, 1);
    }
    assert_eq!(shell_quote("it's"), "'it'\\''s'");
    assert_eq!(quote_words(&vec!["a".into(), "b c".into()]), "'a' 'b c'");
}

fn sandbox() -> Sandbox {
    Sandbox {
        uid: 1000,
        gid: 100,
        project_dir: "/tmp".into(),
        runtime: "/run/neals".into(),
        resolv_conf: "/run/neals/demo/resolv.conf".into(),
        session_is_dir: true,
        resolv_dest: Some("/run/systemd/resolve/stub-resolv.conf".into()),
    }
}

#[test]
fn resolv_conf_is_bound_after_the_run_tmpfs() {
    let argv = bwrap_command(&sandbox(), "true", &vec![]);
    let tmpfs = argv.windows(2).position(|w| w == ["--tmpfs", "/run"]).unwrap();
    let bind = argv
        .windows(2)
        .position(|w| w[0] == "--ro-bind" && w[1] == "/run/neals/demo/resolv.conf")
        .unwrap();
    assert!(bind > tmpfs, "resolv.conf bound before the tmpfs: {argv:?}");
    let session_bind =
        argv.windows(2).position(|w| w[0] == "--bind" && w[1] == "/run/user/1000").unwrap();
    assert!(session_bind > tmpfs, "session runtime bound before the tmpfs: {argv:?}");
}

#[test]
fn the_sandbox_in_full() {
    let got = bwrap_command(&sandbox(), "devenv", &vec!["up".into()]);
    let want = "--die-with-parent --unshare-user --uid 1000 --gid 100 --unshare-net \
                --cap-add CAP_NET_ADMIN --dev-bind / / --tmpfs /run --bind /run/neals /run/neals \
                --dir /run/user --bind /run/user/1000 /run/user/1000 \
                --dir /run/systemd --dir /run/systemd/resolve \
                --ro-bind /run/neals/demo/resolv.conf /run/systemd/resolve/stub-resolv.conf \
                --chdir /tmp -- /bin/sh -c";
    assert_eq!(got[..got.len() - 1].join(" "), want);
    assert_eq!(
        got[got.len() - 1],
        "ip link set lo up 2>/dev/null || true; exec 'devenv' 'up'"
    );
    let bare = Sandbox {
        runtime: "/tmp/neals".into(),
        session_is_dir: false,
        resolv_dest: None,
        ..sandbox()
    };
    let got = bwrap_command(&bare, "true", &vec![]);
    assert_eq!(got[12..].len(), 8);
    assert_eq!(got[12..16].join(" "), "--tmpfs /run --chdir /tmp");
    let deep = Sandbox { runtime: "/run/user/1000/neals".into(), ..bare };
    let got = bwrap_command(&deep, "true", &vec![]).join(" ");
    assert!(got.contains(
        "--tmpfs /run --dir /run/user --dir /run/user/1000 \
         --bind /run/user/1000/neals /run/user/1000/neals --chdir"
    ));
}

#[test]
fn tools_of_the_daemon() {
    assert!(require_tools(true, true, true).is_ok());
    assert_eq!(
        require_tools(false, false, true).unwrap_err(),
        "nealsd requires `bwrap` on PATH (install bubblewrap / slirp4netns)"
    );
    assert_eq!(
        require_tools(true, false, true).unwrap_err(),
        "nealsd requires `slirp4netns` on PATH (install bubblewrap / slirp4netns)"
    );
    assert!(require_tools(true, true, false)
        .unwrap_err()
        .starts_with("nealsd cannot create a user namespace"));
    assert_eq!(session_dir_text(5), "/run/user/5");
    assert_eq!(resolv_conf_path("/r"), "/r/resolv.conf");
    assert_eq!(SLIRP_RESOLV_CONF, "nameserver 10.0.2.3\n");
    assert_eq!(
        slirp_command(9),
        vec!["--configure", "--mtu=65520", "--disable-host-loopback", "9", "tap0"]
    );
    assert!(slirp_settled(None).is_ok());
    assert_eq!(
        slirp_settled(Some("exit status: 1".into())).unwrap_err(),
        "slirp4netns exited early (exit status: 1)"
    );
    assert_eq!(
        userns_trial(1, 2).join(" "),
        "--unshare-user --uid 1 --gid 2 --unshare-net --dev-bind / / -- true"
    );
}

#[test]
fn looking_for_programs() {
    let path = "/a:/b".to_string();
    let in_b = |p: &String| p == "/b/bwrap" || p == "/b/nealsd";
    assert_eq!(which(Some(&path), "bwrap", &in_b).as_deref(), Some("/b/bwrap"));
    assert_eq!(which(Some(&path), "other", &in_b), None);
    assert_eq!(which(None, "bwrap", &in_b), None);
    let exe = "/x/debug/deps/test".to_string();
    assert_eq!(find_nealsd_exe(None, Some(&exe), Some(&path), &in_b).unwrap(), "/b/nealsd");
    let above = |p: &String| p == "/x/debug/nealsd";
    assert_eq!(find_nealsd_exe(None, Some(&exe), None, &above).unwrap(), "/x/debug/nealsd");
    let beside = |p: &String| p == "/x/debug/deps/nealsd" || p == "/x/debug/nealsd";
    assert_eq!(
        find_nealsd_exe(None, Some(&exe), None, &beside).unwrap(),
        "/x/debug/deps/nealsd"
    );
    let me = "/x/nealsd".to_string();
    assert_eq!(find_nealsd_exe(None, Some(&me), None, &|_: &String| false).unwrap(), "/x/nealsd");
    let named = " /n \n".to_string();
    assert_eq!(
        find_nealsd_exe(Some(&named), Some(&me), None, &|p: &String| p == "/n").unwrap(),
        "/n"
    );
    assert_eq!(
        find_nealsd_exe(None, None, None, &|_: &String| true).unwrap_err(),
        "failed to locate the nealsd binary"
    );
    let sibling = |p: &String| p == "/x/nealsd";
    assert_eq!(find_nealsd(Some(&"/x/neals".to_string()), &sibling), "/x/nealsd");
    assert_eq!(find_nealsd(Some(&"/y/neals".to_string()), &sibling), "nealsd");
    assert_eq!(find_nealsd(None, &sibling), "nealsd");
}

#[test]
fn helpers_understand_their_arguments() {
    let bound = vec![
        BoundRoute {
            service: "api".into(),
            target: BoundTarget::Tcp { host_port: 8001, guest_port: 8000 },
            proxy: true,
        },
        BoundRoute {
            service: "be".into(),
            target: BoundTarget::Unix { socket_file: "be.sock".into() },
            proxy: true,
        },
    ];
    let forwards = start_proxies(&bound, 4_294_967_295);
    assert_eq!(forwards.len(), 1);
    assert_eq!(forwards[0].host_port, 8001);
    assert_eq!(forwards[0].args, vec![PROXY_MODE_ARG, "4294967295", "8000"]);
    assert_eq!(parse_helper_mode(&forwards[0].args), Some(Some((4_294_967_295, 8000))));
    let words = |l: &[&str]| l.iter().map(|s| s.to_string()).collect::<Vec<String>>();
    assert_eq!(parse_helper_mode(&words(&["--netns-proxy", "1", "65536"])), Some(None));
    assert_eq!(parse_helper_mode(&words(&["--netns-proxy", "1"])), None);
    assert_eq!(parse_helper_mode(&words(&["--other", "1", "2"])), None);
}

#[test]
fn processes_inside_the_sandbox() {
    let lists = vec!["".to_string(), "x 3".to_string(), "12 13".to_string(), "14".to_string()];
    assert_eq!(netns_pid_for_bwrap(&lists), Some(12));
    assert_eq!(netns_pid_for_bwrap(&vec![]), None);
    assert_eq!(wait_netns_pid(5, 0, Some(6)), Some(Ok(6)));
    assert_eq!(wait_netns_pid(5, NETNS_TRIES - 1, None), None);
    assert_eq!(
        wait_netns_pid(5, NETNS_TRIES, None),
        Some(Err("timed out waiting for process inside bwrap netns (pid 5)".into()))
    );
}

#[test]
fn descendants_are_found_once() {
    let children = |pid: u32| match pid {
        10 => Some("11 12\n".to_string()),
        11 => Some("13 10 x".to_string()),
        13 => Some("14".to_string()),
        14 => Some("13".to_string()),
        _ => None,
    };
    let mut got = collect_descendants(10, &children);
    got.sort();
    assert_eq!(got, vec![11, 12, 13, 14]);
    assert!(collect_descendants(99, &children).is_empty());
}

#[test]
fn groups_that_are_never_signalled() {
    assert_eq!(signal_group(2).unwrap(), 2);
    for pid in [0, 1, 2_147_483_648] {
        assert_eq!(
            signal_group(pid).unwrap_err(),
            format!("refusing to signal process group {pid}")
        );
    }
    assert_eq!(signal_pids(&vec![0, 5, 1, 2]), vec![5, 2]);
    assert_eq!(still_alive(&vec![1, 2, 3], &|p: u32| p != 2), vec![1, 3]);
    assert!(keep_waiting(&vec![1], 1, 2));
    assert!(!keep_waiting(&vec![1], 2, 2));
    assert!(!keep_waiting(&vec![], 0, 2));
}

#[test]
fn stragglers_are_known_by_their_environment() {
    let names: Vec<String> = ["1", "20", "21", "22", "23", "self"].map(String::from).to_vec();
    let environ = |pid: u32| match pid {
        20 => Some(b"A=1\0NEALS_RUNTIME=/run/neals/demo\0B=2\0".to_vec()),
        21 => Some(b"NEALS_RUNTIME=/run/neals/demo2\0".to_vec()),
        22 => Some(b"X=NEALS_RUNTIME=/run/neals/demo".to_vec()),
        23 => Some(b"A=1\0NEALS_RUNTIME=/run/neals/demo".to_vec()),
        1 => Some(b"NEALS_RUNTIME=/run/neals/demo\0".to_vec()),
        _ => None,
    };
    let strays = find_stragglers(&names, "/run/neals/demo", &environ);
    assert_eq!(strays, vec![20, 23]);
    assert_eq!(
        sweep_notice(&strays, "/run/neals/demo").unwrap(),
        "sweeping 2 stray process(es) still carrying NEALS_RUNTIME=/run/neals/demo"
    );
    assert_eq!(sweep_notice(&vec![], "/r"), None);
}

#[test]
fn sweeping_up_stragglers() {
    assert_eq!(SweepFlow::begin(&vec![], "/r").1, SweepAction::Finish);
    let (mut flow, action) = SweepFlow::begin(&vec![20, 1, 23], "/r");
    assert_eq!(
        action,
        SweepAction::Terminate {
            notice: "sweeping 3 stray process(es) still carrying NEALS_RUNTIME=/r".into(),
            pids: vec![20, 23],
            strays: vec![20, 1, 23],
        }
    );
    assert_eq!(flow.on_gone(&vec![]), SweepAction::Finish);
    let (mut flow, _) = SweepFlow::begin(&vec![20, 23], "/r");
    assert_eq!(
        flow.on_gone(&vec![1, 23]),
        SweepAction::Kill { pids: vec![23], left: vec![1, 23] }
    );
    assert_eq!(flow.on_killed(), SweepAction::Finish);
}

#[test]
fn stopping_gently() {
    let (mut flow, first) = StopFlow::begin(vec![1, 7, 8]);
    assert_eq!(first, StopAction::Terminate(vec![7, 8]));
    assert_eq!(flow.on_wait(true), StopAction::AwaitGone(vec![1, 7, 8]));
    assert_eq!(flow.on_gone(&vec![]), StopAction::Finish);
}

#[test]
fn stopping_by_force() {
    let (mut flow, _) = StopFlow::begin(vec![7]);
    assert_eq!(flow.on_wait(false), StopAction::Collect);
    assert_eq!(flow.on_collected(&vec![9]), StopAction::Kill(vec![7, 9]));
    assert_eq!(flow.on_killed(), StopAction::AwaitGone(vec![7]));
    assert_eq!(
        flow.on_gone(&vec![7]),
        StopAction::KillSurvivors {
            pids: vec![7],
            left: vec![7],
            notice: "project tree did not exit after TERM; killing 1 straggler(s)".into(),
        }
    );
}

fn key(c: char, control: bool) -> Key {
    Key { character: Some(c), control, plain: !control, press: true }
}

#[test]
fn keys_of_the_live_view() {
    assert_eq!(key_meaning(key('c', true)), Some(LiveOutcome::Detached));
    assert_eq!(key_meaning(key('q', false)), Some(LiveOutcome::Detached));
    assert_eq!(key_meaning(key('q', true)), Some(LiveOutcome::Detached));
    assert_eq!(key_meaning(key('x', true)), Some(LiveOutcome::Stopped));
    assert_eq!(key_meaning(key('b', true)), Some(LiveOutcome::Shell));
    assert_eq!(key_meaning(key('x', false)), None);
    assert_eq!(key_meaning(key('c', false)), None);
}

#[test]
fn rounds_of_the_live_view() {
    let mut view = LiveView::begin();
    assert_eq!(view.on_input(Some(Key { press: false, ..key('c', true) })), LiveNext::Again);
    assert_eq!(view.on_input(Some(key('x', true))), LiveNext::Leave(LiveOutcome::Stopped));
    for _ in 0..4 {
        assert_eq!(view.on_input(None), LiveNext::Round { discover: false });
    }
    assert_eq!(view.on_input(Some(key('z', false))), LiveNext::Round { discover: true });
    for _ in 0..250 {
        view.on_input(None);
    }
    assert_eq!(view.ticks, 255);
    assert_eq!(view.on_input(None), LiveNext::Round { discover: true });
    assert_eq!(view.ticks, 0);

    assert_eq!(view.on_running(Some(false)), Some(LiveOutcome::Exited));
    assert_eq!(view.on_running(Some(true)), None);
    assert_eq!(view.on_running(None), None);
    view.on_mux(true);
    view.on_mux(false);
    assert!(view.has_mux);
    view.on_refresh(true, 3);
    assert!(view.merged && view.width == 6);
    view.on_refresh(false, 9);
    assert!(!view.merged && view.width == 9);
    view.on_refresh(true, 2);
    assert!(!view.merged && view.width == 9);
    assert_eq!(view.line_width(Some(12)), 12);
    assert_eq!(view.line_width(Some(1)), 9);
    assert_eq!(view.line_width(None), 9);
    assert_eq!(attach_devenv_merged(true, Some(4)), Attach::FromOffset(4));
    assert_eq!(attach_devenv_merged(true, None), Attach::AtEnd);
    assert_eq!(attach_devenv_merged(false, None), Attach::WithTail(100));
}

#[test]
fn leaving_the_live_view() {
    assert_eq!(
        leave_message(LiveOutcome::Detached, "demo"),
        (
            false,
            "detached from `demo` (still running; `neals logs demo -f` to reattach)".into()
        )
    );
    assert_eq!(leave_message(LiveOutcome::Stopped, "demo"), (true, "stopped `demo`".into()));
    assert_eq!(
        leave_message(LiveOutcome::Exited, "demo"),
        (false, "`demo` is no longer running".into())
    );
    assert_eq!(
        leave_message(LiveOutcome::Shell, "demo"),
        (false, "entering `demo` shell".into())
    );
}

#[test]
fn lines_of_the_command_loop() {
    assert_eq!(dispatch(" \t"), Ok(ReplCommand::Nothing));
    assert_eq!(dispatch("?"), Ok(ReplCommand::Help));
    assert_eq!(dispatch("q"), Ok(ReplCommand::Quit));
    assert_eq!(dispatch("list"), Ok(ReplCommand::List));
    assert_eq!(dispatch("status"), Ok(ReplCommand::Status));
    assert_eq!(dispatch("doctor"), Ok(ReplCommand::Doctor));
    assert_eq!(
        dispatch("up demo -d"),
        Ok(ReplCommand::Up { project: "demo".into(), detach: true })
    );
    assert_eq!(
        dispatch("up demo"),
        Ok(ReplCommand::Up { project: "demo".into(), detach: false })
    );
    assert_eq!(dispatch("down demo"), Ok(ReplCommand::Down { project: "demo".into() }));
    assert_eq!(
        dispatch("logs demo --follow"),
        Ok(ReplCommand::Logs { project: "demo".into(), follow: true })
    );
    assert_eq!(dispatch("bash demo"), Ok(ReplCommand::Bash { project: "demo".into() }));
    assert_eq!(dispatch("up"), Err("usage: up <project> [-d]".into()));
    assert_eq!(dispatch("down"), Err("usage: down <project>".into()));
    assert_eq!(dispatch("logs"), Err("usage: logs <project> [-f]".into()));
    assert_eq!(dispatch("bash"), Err("usage: bash <project>".into()));
    assert_eq!(
        dispatch("prune"),
        Err("use `neals prune` from the outer shell for registry changes".into())
    );
    assert_eq!(
        dispatch("fly"),
        Ok(ReplCommand::Unknown("unknown command `fly` — try `help`".into()))
    );
    assert!(HELP.starts_with("commands:\n  help                 show this help\n"));
    assert!(HELP.ends_with("leave the repl"));
}

#[test]
fn colours() {
    assert!(!use_color(true, None, true, true));
    assert!(!use_color(false, Some(&"0".to_string()), true, true));
    assert!(use_color(false, Some(&"1".to_string()), false, true));
    assert!(use_color(false, None, true, false));
    assert!(!use_color(false, None, false, false));
    assert_eq!(ok_line("m", false), "ok: m");
    assert_eq!(ok_line("m", true), "\u{1b}[32m✔\u{1b}[39m m");
    assert_eq!(warn_line("m", false), "warning: m");
    assert_eq!(warn_line("m", true), "\u{1b}[33m⚠\u{1b}[39m m");
    assert_eq!(err_line("m", false), "error: m");
    assert_eq!(err_line("m", true), "\u{1b}[31m✖\u{1b}[39m m");
    assert_eq!(dim_line("m", false), "m");
    assert_eq!(dim_line("m", true), "\u{1b}[2mm\u{1b}[0m");
    assert_eq!(accent("m", false), "m");
    assert_eq!(accent("m", true), "\u{1b}[36mm\u{1b}[39m");
    assert_eq!(format_mark(true, true, false), "ok");
    assert_eq!(format_mark(false, true, false), "FAIL");
    assert_eq!(format_mark(false, false, false), "WARN");
    assert_eq!(format_mark(false, true, true), "\u{1b}[1m\u{1b}[31mFAIL\u{1b}[39m\u{1b}[0m");
    assert_eq!(format_mark(false, false, true), "\u{1b}[33mWARN\u{1b}[39m");
    assert_eq!(pad_right("é", 3), "é  ");
    assert_eq!(pad_right("long", 3), "long");
}

fn ran(stdout: &str, stderr: &str, success: bool) -> ToolRun {
    ToolRun::Ran {
        stdout: stdout.into(),
        stderr: stderr.into(),
        success,
        status: "exit status: 3".into(),
    }
}

#[test]
fn checks_of_tools() {
    let c = check_on_path("nix", &ran(" nix 2.3 \nmore", "", false), true);
    assert_eq!(c, Check::ok("nix", "nix 2.3"));
    assert_eq!(check_on_path("nix", &ran(" ", "v1\n", true), true), Check::ok("nix", "v1"));
    assert_eq!(
        check_on_path("nix", &ran("", "", true), true),
        Check::ok("nix", "(no version)")
    );
    assert_eq!(
        check_on_path("nix", &ran("", "\n", false), true),
        Check::fail("nix", "exited exit status: 3")
    );
    assert_eq!(
        check_on_path("nix", &ToolRun::NotFound("gone".into()), false),
        Check::warn("nix", "not on PATH (gone)")
    );
    let second = check_devenv(&ToolRun::NotFound("gone".into()), &ran("1.0", "", true));
    assert_eq!(second, Check::ok("devenv", "1.0"));
    assert_eq!(check_self(&Ok("/x".into())), Check::ok("neals", "/x"));
    assert_eq!(
        check_self(&Err("e".into())),
        Check::fail("neals", "cannot resolve current exe: e")
    );
    assert_eq!(check_nealsd("/x", true), Check::ok("nealsd", "/x"));
    assert_eq!(
        check_nealsd("nealsd", false),
        Check::fail("nealsd", "nealsd not found (next to neals or on PATH)")
    );
    assert_eq!(bare_name("nealsd").as_deref(), Some("nealsd"));
    assert_eq!(bare_name("/x/nealsd"), None);
    assert_eq!(bare_name(".."), None);
}

#[test]
fn checks_of_daemon_and_proxy() {
    assert_eq!(
        check_system_daemon(true),
        Check::info("system", "/run/neals/nealsd.sock (portless :80)")
    );
    assert_eq!(
        check_system_daemon(false),
        Check::warn("system", "ad-hoc mode (:2015); see contrib/systemd/")
    );
    assert_eq!(check_http(Some(true), None), Check::ok("http", "portless"));
    assert_eq!(
        check_http(Some(false), Some(true)),
        Check::warn("http", "requires port in URLs")
    );
    assert_eq!(check_http(None, Some(false)), Check::warn("http", "Caddy not listening"));
    assert!(caddy_on("HTTP/1.1 200 OK\r\nSERVER: Caddy\r\n\r\n"));
    assert!(!caddy_on("HTTP/1.1 200 OK\r\nServer: nginx\r\nX: caddy\r\n"));
    assert_eq!(check_dir_writable("state", "/s", None), Check::ok("state", "/s"));
    assert_eq!(
        check_dir_writable("state", "/s", Some(&"denied".to_string())),
        Check::fail("state", "/s (denied)")
    );
    assert_eq!(check_daemon_ping(&Ok(Response::Pong), true), Check::ok("daemon", "responding"));
    assert_eq!(
        check_daemon_ping(&Ok(Response::Error { message: "x".into() }), true),
        Check::fail("daemon", "unexpected: Error { message: \"x\" }")
    );
    assert_eq!(
        check_daemon_ping(&Err("e".into()), true),
        Check::ok("daemon", "not running — sudo systemctl start 'nealsd@$USER'")
    );
    assert_eq!(
        check_daemon_ping(&Err("e".into()), false),
        Check::ok("daemon", "not running (auto-starts on `neals up`)")
    );
}

#[test]
fn reports_on_checks() {
    let good = run_doctor(&vec![Check::ok("nix", "v"), Check::warn("http", "no")], false);
    assert_eq!(good.lines[0], "ok                 nix        v");
    assert_eq!(good.lines[1], "WARN               http       no");
    assert!(good.passed);
    assert_eq!(good.summary, "all required checks passed");
    let bad = run_doctor(&vec![Check::fail("nix", "v"), Check::fail("x", "y")], false);
    assert!(!bad.passed);
    assert_eq!(bad.summary, "2 required check(s) failed");
}

#[test]
fn reaching_the_daemon() {
    assert_eq!(read_answer("\"Pong\"\n").unwrap(), Response::Pong);
    assert_eq!(
        read_answer("").unwrap_err(),
        "nealsd closed the connection without a response"
    );
    assert_eq!(read_answer("{").unwrap_err(), "failed to parse IPC message");
    assert!(is_pong(&Ok(Response::Pong)));
    assert!(!is_pong(&Ok(Response::Done)));
    assert!(!is_pong(&Err("x".into())));
    let up = || None;
    let down = || Some("down".to_string());
    let call = |r: &Request| match r {
        Request::Ping => Ok(Response::Pong),
        _ => Err("other".to_string()),
    };
    assert_eq!(with_daemon(&Request::Ping, &up, &call), Ok(Response::Pong));
    assert_eq!(with_daemon(&Request::Status, &up, &call), Err("other".into()));
    assert_eq!(with_daemon(&Request::Ping, &down, &call), Err("down".into()));
}

#[test]
fn starting_the_daemon() {
    assert_eq!(ensure_daemon(true, SYSTEM_DAEMON_SOCKET, None), EnsureStep::Ready);
    assert_eq!(ensure_daemon(false, "/tmp/neals/nealsd.sock", None), EnsureStep::Start);
    assert_eq!(
        ensure_daemon(false, SYSTEM_DAEMON_SOCKET, Some(&"me".to_string())),
        EnsureStep::Failed(
            "system nealsd is not running (socket /run/neals/nealsd.sock).\nStart it with:\n\
             sudo systemctl start \"nealsd@me\"\nOr see contrib/systemd/README.md"
                .into()
        )
    );
    match ensure_daemon(false, SYSTEM_DAEMON_SOCKET, Some(&String::new())) {
        EnsureStep::Failed(m) => assert!(m.contains("\"nealsd@$USER\"")),
        other => panic!("expected Failed, got {other:?}"),
    }
    assert_eq!(after_start(0, true), Some(Ok(())));
    assert_eq!(after_start(START_TRIES - 1, false), None);
    assert_eq!(
        after_start(START_TRIES, false),
        Some(Err(
            "failed to start nealsd (check ~/.local/state/neals/nealsd.log and caddy.log)".into()
        ))
    );
    assert_eq!(nealsd_log_path(&dirs()).unwrap(), "/home/x/.local/state/neals/nealsd.log");
    assert_eq!(prepare_socket("/s", false, false), SocketStep::Free);
    assert_eq!(prepare_socket("/s", true, false), SocketStep::Remove);
    assert_eq!(
        prepare_socket("/s", true, true),
        SocketStep::Taken("nealsd already running (/s)".into())
    );
}
