//! Starting a project.
//!
//! The work outside (files, processes, the reverse proxy) is done between the
//! calls: each call takes what the last piece of work came to and says what
//! to do next.
use crate::bind;
use crate::caddy;
use crate::devenv;
use crate::devenv::ServiceDecl;
use crate::netns;
use crate::ports::Probe;
use crate::registry;
use crate::registry::Registry;
use crate::state;
use crate::state::{AppState, BoundRoute, RunningProject};
use crate::text;
use vstd::prelude::*;
use vstd::string::*;

verus! {

/// What is being waited for.
#[derive(Debug, Clone, Copy, PartialEq, Eq, Structural)]
pub enum UpStage {
    Registry,
    Path,
    Tools,
    Services,
    Runtime,
    Bind,
    Routes,
    Log,
    Spawn,
    Settle,
    Netns,
    Slirp,
    Proxies,
    Stopping,
    Restoring,
    Done,
}

/// What to do next.
#[derive(Debug, PartialEq, Eq)]
pub enum UpAction {
    /// Read the registry.
    LoadRegistry,
    /// Find out whether the path is a directory.
    CheckPath(String),
    /// Find out whether the tools that a project needs are there.
    CheckTools,
    /// Read the services that the project at the path declares.
    ReadServices(String),
    /// Make the directory for sockets and the links to them.
    PrepareRuntime,
    /// Call `UpFlow::bind`.
    BindServices,
    /// Hand the routes to the reverse proxy.
    ApplyRoutes(Vec<(String, Vec<BoundRoute>)>),
    /// Open the log of the project.
    OpenLog,
    /// Spawn the project.
    Spawn,
    /// Wait a moment and see whether the process is still there.
    Settle,
    /// Find a process inside the network namespace.
    FindNetns(u32),
    /// Connect the namespace of the process to the network.
    StartSlirp(u32),
    /// Forward the host ports into the namespace of the process.
    StartProxies(u32),
    /// Stop the process, and what else was started for it.
    Stop { pid: u32, slirp: bool, proxies: bool },
    /// Hand the routes of the other projects to the reverse proxy, whatever
    /// comes of it.
    RestoreRoutes(Vec<(String, Vec<BoundRoute>)>),
    /// Answer the request.
    Reply(Result<(), String>),
}

/// A project on its way up.
#[derive(Debug)]
pub struct UpFlow {
    pub name: String,
    pub path: String,
    pub services: Vec<ServiceDecl>,
    pub bound: Vec<BoundRoute>,
    pub pid: u32,
    pub netns_pid: u32,
    pub failure: String,
    pub stage: UpStage,
}

/// A project on its way up.
pub struct Flow {
    pub name: Seq<char>,
    pub path: Seq<char>,
    pub services: Seq<devenv::Service>,
    pub bound: Seq<state::Route>,
    pub pid: u32,
    pub netns_pid: u32,
    pub failure: Seq<char>,
    pub stage: UpStage,
}

impl View for UpFlow {
    type V = Flow;

    open spec fn view(&self) -> Flow {
        Flow {
            name: self.name@,
            path: self.path@,
            services: devenv::services(self.services@),
            bound: state::routes(self.bound@),
            pid: self.pid,
            netns_pid: self.netns_pid,
            failure: self.failure@,
            stage: self.stage,
        }
    }
}

/// The message on a project that runs already.
pub open spec fn already_running(name: Seq<char>) -> Seq<char> {
    "project `"@ + name + "` is already running"@
}

fn already_running_text(name: &str) -> (r: String)
    ensures
        r@ == already_running(name@),
{
    "project `".to_owned().concat(name).concat("` is already running")
}

/// The routes of the running projects with those of one more project.
pub open spec fn routes_with(
    projects: Seq<state::Running>,
    name: Seq<char>,
    bound: Seq<state::Route>,
) -> Seq<(Seq<char>, Seq<state::Route>)> {
    if state::proxied(bound).len() == 0 {
        state::all_proxied(projects)
    } else {
        state::all_proxied(projects).push((name, state::proxied(bound)))
    }
}

/// Whether an action answers the request with an error.
pub open spec fn refuses(a: UpAction, message: Seq<char>) -> bool {
    a matches UpAction::Reply(Err(m)) && m@ == message
}

/// Whether an action hands the given routes back to the reverse proxy.
pub open spec fn restores(a: UpAction, projects: Seq<state::Running>) -> bool {
    a matches UpAction::RestoreRoutes(s) && state::snapshot_of(s@) == state::all_proxied(projects)
}

/// Whether the leases are those of before without the ports of a project on
/// its way up, and everything else is as before.
pub open spec fn gave_up(before: AppState, after: AppState, bound: Seq<state::Route>) -> bool {
    &&& after.running() == before.running()
    &&& after.caddy == before.caddy
    &&& after.leases@ == before.leases@.difference(state::host_ports(bound))
}

impl UpFlow {
    /// Starts to bring a project up, unless it runs.
    pub fn begin(name: &str, state: &AppState) -> (r: (UpFlow, UpAction))
        ensures
            r.0@.name == name@,
            r.0@.bound == Seq::<state::Route>::empty(),
            if state.runs(name@) {
                r.0@.stage == UpStage::Done && refuses(r.1, already_running(name@))
            } else {
                r.0@.stage == UpStage::Registry && r.1 is LoadRegistry
            },
    {
        let running = state.is_running(name);
        let flow = UpFlow {
            name: name.to_owned(),
            path: String::new(),
            services: Vec::new(),
            bound: Vec::new(),
            pid: 0,
            netns_pid: 0,
            failure: String::new(),
            stage: if running {
                UpStage::Done
            } else {
                UpStage::Registry
            },
        };
        assert(flow@.bound == Seq::<state::Route>::empty());
        let action = if running {
            UpAction::Reply(Err(already_running_text(name)))
        } else {
            UpAction::LoadRegistry
        };
        (flow, action)
    }

    /// The registry was read, or why not.
    pub fn on_registry(&mut self, loaded: Result<Registry, String>) -> (r: UpAction)
        requires
            old(self)@.stage == UpStage::Registry,
        ensures
            match loaded {
                Err(e) => {
                    &&& refuses(r, e@)
                    &&& final(self)@ == (Flow { stage: UpStage::Done, ..old(self)@ })
                },
                Ok(list) => if registry::has_name(list@, old(self)@.name) {
                    exists|i: int|
                        {
                            &&& #[trigger] registry::is_first(list@, old(self)@.name, i)
                            &&& r matches UpAction::CheckPath(p) && p@ == list@[i].path
                            &&& final(self)@ == (Flow {
                                stage: UpStage::Path,
                                path: list@[i].path,
                                ..old(self)@
                            })
                        }
                } else {
                    &&& refuses(r, registry::not_registered(old(self)@.name))
                    &&& final(self)@ == (Flow { stage: UpStage::Done, ..old(self)@ })
                },
            },
    {
        match loaded {
            Err(e) => {
                self.stage = UpStage::Done;
                UpAction::Reply(Err(e))
            },
            Ok(list) => match list.get(self.name.as_str()) {
                None => {
                    self.stage = UpStage::Done;
                    UpAction::Reply(Err(registry::not_registered_text(self.name.as_str())))
                },
                Some(project) => {
                    self.path = project.path.clone();
                    self.stage = UpStage::Path;
                    UpAction::CheckPath(project.path.clone())
                },
            },
        }
    }

    /// Whether the path of the project is a directory.
    pub fn on_path(&mut self, is_dir: bool) -> (r: UpAction)
        requires
            old(self)@.stage == UpStage::Path,
        ensures
            if is_dir {
                &&& r is CheckTools
                &&& final(self)@ == (Flow { stage: UpStage::Tools, ..old(self)@ })
            } else {
                &&& refuses(
                    r,
                    "project `"@ + old(self)@.name + "` path is missing: "@ + old(self)@.path,
                )
                &&& final(self)@ == (Flow { stage: UpStage::Done, ..old(self)@ })
            },
    {
        if is_dir {
            self.stage = UpStage::Tools;
            UpAction::CheckTools
        } else {
            self.stage = UpStage::Done;
            UpAction::Reply(
                Err(
                    "project `".to_owned().concat(self.name.as_str()).concat(
                        "` path is missing: ",
                    ).concat(self.path.as_str()),
                ),
            )
        }
    }

    /// The tools are there, or what is missing.
    pub fn on_tools(&mut self, found: Result<(), String>) -> (r: UpAction)
        requires
            old(self)@.stage == UpStage::Tools,
        ensures
            match found {
                Ok(_) => {
                    &&& r matches UpAction::ReadServices(p) && p@ == old(self)@.path
                    &&& final(self)@ == (Flow { stage: UpStage::Services, ..old(self)@ })
                },
                Err(e) => {
                    &&& refuses(r, e@)
                    &&& final(self)@ == (Flow { stage: UpStage::Done, ..old(self)@ })
                },
            },
    {
        match found {
            Ok(_) => {
                self.stage = UpStage::Services;
                UpAction::ReadServices(self.path.clone())
            },
            Err(e) => {
                self.stage = UpStage::Done;
                UpAction::Reply(Err(e))
            },
        }
    }

    /// The services that the project declares, or what is wrong with them.
    pub fn on_services(&mut self, declared: Result<Vec<ServiceDecl>, String>) -> (r: UpAction)
        requires
            old(self)@.stage == UpStage::Services,
        ensures
            match declared {
                Ok(v) => {
                    &&& r is PrepareRuntime
                    &&& final(self)@ == (Flow {
                        stage: UpStage::Runtime,
                        services: devenv::services(v@),
                        ..old(self)@
                    })
                },
                Err(e) => {
                    &&& refuses(r, e@)
                    &&& final(self)@ == (Flow { stage: UpStage::Done, ..old(self)@ })
                },
            },
    {
        match declared {
            Ok(v) => {
                self.services = v;
                self.stage = UpStage::Runtime;
                UpAction::PrepareRuntime
            },
            Err(e) => {
                self.stage = UpStage::Done;
                UpAction::Reply(Err(e))
            },
        }
    }

    /// The directory for sockets and the links are there, or why not.
    pub fn on_runtime(&mut self, prepared: Result<(), String>) -> (r: UpAction)
        requires
            old(self)@.stage == UpStage::Runtime,
        ensures
            match prepared {
                Ok(_) => {
                    &&& r is BindServices
                    &&& final(self)@ == (Flow { stage: UpStage::Bind, ..old(self)@ })
                },
                Err(e) => {
                    &&& refuses(r, e@)
                    &&& final(self)@ == (Flow { stage: UpStage::Done, ..old(self)@ })
                },
            },
    {
        match prepared {
            Ok(_) => {
                self.stage = UpStage::Bind;
                UpAction::BindServices
            },
            Err(e) => {
                self.stage = UpStage::Done;
                UpAction::Reply(Err(e))
            },
        }
    }

    /// Leases the host ports of the services.
    pub fn bind<F: Fn(u16) -> Probe>(&mut self, state: &mut AppState, probe: &F) -> (r: UpAction)
        requires
            old(self)@.stage == UpStage::Bind,
            forall|p: u16| probe.requires((p,)),
        ensures
            final(state).running() == old(state).running(),
            final(state).caddy == old(state).caddy,
            if final(self)@.stage == UpStage::Done {
                &&& final(self)@ == (Flow { stage: UpStage::Done, ..old(self)@ })
                &&& final(state).leases@ == old(state).leases@
                &&& r matches UpAction::Reply(Err(m)) && exists|bound: Seq<state::Route>|
                    #[trigger]
                    bind::is_bind_failure(
                        m@,
                        bound,
                        old(self)@.services,
                        old(state).leases@,
                        *probe,
                    )
            } else {
                &&& final(self)@ == (Flow {
                    stage: UpStage::Routes,
                    bound: final(self)@.bound,
                    ..old(self)@
                })
                &&& final(self)@.bound.len() == old(self)@.services.len()
                &&& bind::is_binding(
                    final(self)@.bound,
                    old(self)@.services,
                    old(state).leases@,
                    *probe,
                )
                &&& final(state).leases@ == old(state).leases@.union(
                    state::host_ports(final(self)@.bound),
                )
                &&& r matches UpAction::ApplyRoutes(s) && state::snapshot_of(s@) == routes_with(
                    old(state).running(),
                    old(self)@.name,
                    final(self)@.bound,
                )
            },
    {
        match bind::bind_services(&mut state.leases, &self.services, probe) {
            Err(m) => {
                self.stage = UpStage::Done;
                let r = UpAction::Reply(Err(m));
                proof {
                    let leased = old(state).leases@;
                    let bound = choose|bound: Seq<state::Route>| #[trigger]
                        bind::is_bind_failure(m@, bound, old(self)@.services, leased, *probe);
                    assert(bind::is_bind_failure(
                        r->Reply_0->Err_0@,
                        bound,
                        old(self)@.services,
                        leased,
                        *probe,
                    ));
                    assert(exists|bound: Seq<state::Route>| #[trigger]
                        bind::is_bind_failure(
                            r->Reply_0->Err_0@,
                            bound,
                            old(self)@.services,
                            leased,
                            *probe,
                        ));
                }
                r
            },
            Ok(bound) => {
                let mut snapshot = state.proxy_snapshot();
                let mine = state::proxied_routes(&bound);
                if mine.len() > 0 {
                    let ghost before = state::snapshot_of(snapshot@);
                    let ghost entry = (self.name@, state::routes(mine@));
                    snapshot.push((self.name.clone(), mine));
                    assert(state::snapshot_of(snapshot@) == before.push(entry));
                }
                self.bound = bound;
                self.stage = UpStage::Routes;
                UpAction::ApplyRoutes(snapshot)
            },
        }
    }

    /// The reverse proxy took the routes, or why not.
    pub fn on_routes(&mut self, state: &mut AppState, applied: Result<(), String>) -> (r: UpAction)
        requires
            old(self)@.stage == UpStage::Routes,
        ensures
            match applied {
                Ok(_) => {
                    &&& r is OpenLog
                    &&& final(self)@ == (Flow { stage: UpStage::Log, ..old(self)@ })
                    &&& *final(state) == *old(state)
                },
                Err(e) => {
                    &&& refuses(r, e@)
                    &&& final(self)@ == (Flow { stage: UpStage::Done, ..old(self)@ })
                    &&& gave_up(*old(state), *final(state), old(self)@.bound)
                },
            },
    {
        match applied {
            Ok(_) => {
                self.stage = UpStage::Log;
                UpAction::OpenLog
            },
            Err(e) => {
                bind::release_bound_ports(&mut state.leases, &self.bound);
                self.stage = UpStage::Done;
                UpAction::Reply(Err(e))
            },
        }
    }

    /// The log is open, or why not. Without a log the ports stay leased.
    pub fn on_log(&mut self, opened: Result<(), String>) -> (r: UpAction)
        requires
            old(self)@.stage == UpStage::Log,
        ensures
            match opened {
                Ok(_) => {
                    &&& r is Spawn
                    &&& final(self)@ == (Flow { stage: UpStage::Spawn, ..old(self)@ })
                },
                Err(e) => {
                    &&& refuses(r, e@)
                    &&& final(self)@ == (Flow { stage: UpStage::Done, ..old(self)@ })
                },
            },
    {
        match opened {
            Ok(_) => {
                self.stage = UpStage::Spawn;
                UpAction::Spawn
            },
            Err(e) => {
                self.stage = UpStage::Done;
                UpAction::Reply(Err(e))
            },
        }
    }

    /// Gives the ports up and puts the routes of the others back.
    fn give_up(&mut self, state: &mut AppState, message: String) -> (r: UpAction)
        ensures
            final(self)@ == (Flow {
                stage: UpStage::Restoring,
                failure: message@,
                ..old(self)@
            }),
            gave_up(*old(state), *final(state), old(self)@.bound),
            restores(r, old(state).running()),
    {
        bind::release_bound_ports(&mut state.leases, &self.bound);
        self.failure = message;
        self.stage = UpStage::Restoring;
        UpAction::RestoreRoutes(state.proxy_snapshot())
    }

    /// The process was spawned, with its id if it has one, or why not.
    pub fn on_spawn(
        &mut self,
        state: &mut AppState,
        program: &str,
        spawned: Result<Option<u32>, String>,
    ) -> (r: UpAction)
        requires
            old(self)@.stage == UpStage::Spawn,
        ensures
            match spawned {
                Ok(Some(pid)) => {
                    &&& r is Settle
                    &&& final(self)@ == (Flow { stage: UpStage::Settle, pid, ..old(self)@ })
                    &&& *final(state) == *old(state)
                },
                Ok(None) => {
                    &&& restores(r, old(state).running())
                    &&& final(self)@ == (Flow {
                        stage: UpStage::Restoring,
                        failure: "spawned `"@ + program@ + "` has no pid"@,
                        ..old(self)@
                    })
                    &&& gave_up(*old(state), *final(state), old(self)@.bound)
                },
                Err(e) => {
                    &&& restores(r, old(state).running())
                    &&& final(self)@ == (Flow {
                        stage: UpStage::Restoring,
                        failure: "failed to spawn `"@ + program@ + "`: "@ + e@,
                        ..old(self)@
                    })
                    &&& gave_up(*old(state), *final(state), old(self)@.bound)
                },
            },
    {
        match spawned {
            Ok(Some(pid)) => {
                self.pid = pid;
                self.stage = UpStage::Settle;
                UpAction::Settle
            },
            Ok(None) => {
                let message = "spawned `".to_owned().concat(program).concat("` has no pid");
                self.give_up(state, message)
            },
            Err(e) => {
                let message = "failed to spawn `".to_owned().concat(program).concat("`: ").concat(
                    e.as_str(),
                );
                self.give_up(state, message)
            },
        }
    }

    /// How the process ended within the first moment, if it did.
    pub fn on_settle(&mut self, state: &mut AppState, exited: Option<String>) -> (r: UpAction)
        requires
            old(self)@.stage == UpStage::Settle,
        ensures
            match exited {
                None => {
                    &&& r matches UpAction::FindNetns(pid) && pid == old(self)@.pid
                    &&& final(self)@ == (Flow { stage: UpStage::Netns, ..old(self)@ })
                    &&& *final(state) == *old(state)
                },
                Some(status) => {
                    &&& restores(r, old(state).running())
                    &&& final(self)@ == (Flow {
                        stage: UpStage::Restoring,
                        failure: "bwrap exited early ("@ + status@
                            + "); need unprivileged user namespaces (bubblewrap + kernel.userns)"@,
                        ..old(self)@
                    })
                    &&& gave_up(*old(state), *final(state), old(self)@.bound)
                },
            },
    {
        match exited {
            None => {
                self.stage = UpStage::Netns;
                UpAction::FindNetns(self.pid)
            },
            Some(status) => {
                let message = "bwrap exited early (".to_owned().concat(status.as_str()).concat(
                    "); need unprivileged user namespaces (bubblewrap + kernel.userns)",
                );
                self.give_up(state, message)
            },
        }
    }

    /// A process inside the network namespace, or why none was found.
    pub fn on_netns(&mut self, found: Result<u32, String>) -> (r: UpAction)
        requires
            old(self)@.stage == UpStage::Netns,
        ensures
            match found {
                Ok(netns_pid) => {
                    &&& r matches UpAction::StartSlirp(p) && p == netns_pid
                    &&& final(self)@ == (Flow { stage: UpStage::Slirp, netns_pid, ..old(self)@ })
                },
                Err(e) => {
                    &&& r == (UpAction::Stop { pid: old(self)@.pid, slirp: false, proxies: false })
                    &&& final(self)@ == (Flow {
                        stage: UpStage::Stopping,
                        failure: e@,
                        ..old(self)@
                    })
                },
            },
    {
        match found {
            Ok(netns_pid) => {
                self.netns_pid = netns_pid;
                self.stage = UpStage::Slirp;
                UpAction::StartSlirp(netns_pid)
            },
            Err(e) => {
                self.failure = e;
                self.stage = UpStage::Stopping;
                UpAction::Stop { pid: self.pid, slirp: false, proxies: false }
            },
        }
    }

    /// The namespace is connected, or why not.
    pub fn on_slirp(&mut self, started: Result<(), String>) -> (r: UpAction)
        requires
            old(self)@.stage == UpStage::Slirp,
        ensures
            match started {
                Ok(_) => {
                    &&& r matches UpAction::StartProxies(p) && p == old(self)@.netns_pid
                    &&& final(self)@ == (Flow { stage: UpStage::Proxies, ..old(self)@ })
                },
                Err(e) => {
                    &&& r == (UpAction::Stop { pid: old(self)@.pid, slirp: false, proxies: false })
                    &&& final(self)@ == (Flow {
                        stage: UpStage::Stopping,
                        failure: "slirp4netns: "@ + e@,
                        ..old(self)@
                    })
                },
            },
    {
        match started {
            Ok(_) => {
                self.stage = UpStage::Proxies;
                UpAction::StartProxies(self.netns_pid)
            },
            Err(e) => {
                self.failure = "slirp4netns: ".to_owned().concat(e.as_str());
                self.stage = UpStage::Stopping;
                UpAction::Stop { pid: self.pid, slirp: false, proxies: false }
            },
        }
    }

    /// The project as it runs once it is up.
    pub open spec fn running_at(&self, now: u64) -> state::Running {
        state::Running {
            name: self@.name,
            pid: self@.pid,
            netns_pid: self@.netns_pid,
            started_at: now,
            bound: self@.bound,
            project_path: self@.path,
        }
    }

    /// The host ports are forwarded, or why not. The project runs from `now`
    /// on, unless one of that name has come up meanwhile.
    pub fn on_proxies(
        &mut self,
        state: &mut AppState,
        started: Result<(), String>,
        now: u64,
    ) -> (r: UpAction)
        requires
            old(self)@.stage == UpStage::Proxies,
        ensures
            final(state).leases@ == old(state).leases@,
            final(state).caddy == old(state).caddy,
            match started {
                Ok(_) => if old(state).runs(old(self)@.name) {
                    &&& r == (UpAction::Stop { pid: old(self)@.pid, slirp: true, proxies: true })
                    &&& final(self)@ == (Flow {
                        stage: UpStage::Stopping,
                        failure: already_running(old(self)@.name),
                        ..old(self)@
                    })
                    &&& final(state).running() == old(state).running()
                } else {
                    &&& r == UpAction::Reply(Ok(()))
                    &&& final(self)@ == (Flow { stage: UpStage::Done, ..old(self)@ })
                    &&& final(state).running() == old(state).running().push(
                        old(self).running_at(now),
                    )
                },
                Err(e) => {
                    &&& r == (UpAction::Stop { pid: old(self)@.pid, slirp: true, proxies: true })
                    &&& final(self)@ == (Flow {
                        stage: UpStage::Stopping,
                        failure: e@,
                        ..old(self)@
                    })
                    &&& final(state).running() == old(state).running()
                },
            },
    {
        match started {
            Ok(_) => {
                if state.is_running(self.name.as_str()) {
                    self.failure = already_running_text(self.name.as_str());
                    self.stage = UpStage::Stopping;
                    return UpAction::Stop { pid: self.pid, slirp: true, proxies: true };
                }
                let ghost before = state.running();
                let project = RunningProject {
                    name: self.name.clone(),
                    pid: self.pid,
                    netns_pid: self.netns_pid,
                    started_at: now,
                    bound: state::copy_routes(&self.bound),
                    project_path: self.path.clone(),
                };
                assert(project@ == self.running_at(now));
                state.projects.push(project);
                assert(state.running() == before.push(project@));
                self.stage = UpStage::Done;
                UpAction::Reply(Ok(()))
            },
            Err(e) => {
                self.failure = e;
                self.stage = UpStage::Stopping;
                UpAction::Stop { pid: self.pid, slirp: true, proxies: true }
            },
        }
    }

    /// What was started is stopped.
    pub fn on_stopped(&mut self, state: &mut AppState) -> (r: UpAction)
        requires
            old(self)@.stage == UpStage::Stopping,
        ensures
            restores(r, old(state).running()),
            final(self)@ == (Flow { stage: UpStage::Restoring, ..old(self)@ }),
            gave_up(*old(state), *final(state), old(self)@.bound),
    {
        let message = self.failure.clone();
        self.give_up(state, message)
    }

    /// The routes of the others are back.
    pub fn on_restored(&mut self) -> (r: UpAction)
        requires
            old(self)@.stage == UpStage::Restoring,
        ensures
            refuses(r, old(self)@.failure),
            final(self)@ == (Flow { stage: UpStage::Done, ..old(self)@ }),
    {
        self.stage = UpStage::Done;
        UpAction::Reply(Err(self.failure.clone()))
    }
}

// ---------------------------------------------------------------------------
// What is spawned
// ---------------------------------------------------------------------------
/// The command that brings a project up: the one that is asked for, else
/// `devenv up`.
pub open spec fn up_line(raw: Option<Seq<char>>) -> (Seq<char>, Seq<Seq<char>>) {
    match caddy::command_line(raw) {
        Some(c) => c,
        None => ("devenv"@, seq!["up"@]),
    }
}

/// The command that brings a project up, given `NEALS_UP_CMD`.
pub fn up_command(raw: Option<&String>) -> (r: (String, Vec<String>))
    ensures
        (r.0@, text::views(r.1@)) == up_line(netns::seen(raw)),
{
    match caddy::split_command(raw) {
        Some(c) => c,
        None => {
            let mut args: Vec<String> = Vec::new();
            args.push("up".to_owned());
            assert(text::views(args@) == seq!["up"@]);
            ("devenv".to_owned(), args)
        },
    }
}

/// The variables that tell a project which ports to listen on: for each TCP
/// service the port inside the namespace, in order.
pub open spec fn port_env(bound: Seq<state::Route>) -> Seq<(Seq<char>, Seq<char>)>
    decreases bound.len(),
{
    if bound.len() == 0 {
        Seq::empty()
    } else {
        let rest = port_env(bound.drop_last());
        match bound.last().target {
            state::Target::Tcp { guest_port, .. } => rest.push(
                (devenv::port_var(bound.last().service), text::decimal(guest_port as nat)),
            ),
            state::Target::Unix { .. } => rest,
        }
    }
}

/// The environment of a project: where its sockets go, and its ports.
pub open spec fn project_env(runtime: Seq<char>, bound: Seq<state::Route>) -> Seq<
    (Seq<char>, Seq<char>),
> {
    seq![("NEALS_RUNTIME"@, runtime)] + port_env(bound)
}

/// What a list of variables says.
pub open spec fn env_of(list: Seq<(String, String)>) -> Seq<(Seq<char>, Seq<char>)> {
    list.map_values(|v: (String, String)| (v.0@, v.1@))
}

/// The environment of a project.
pub fn spawn_env(runtime: &str, bound: &Vec<BoundRoute>) -> (r: Vec<(String, String)>)
    ensures
        env_of(r@) == project_env(runtime@, state::routes(bound@)),
{
    let ghost all = state::routes(bound@);
    let ghost start = seq![("NEALS_RUNTIME"@, runtime@)];
    let mut r: Vec<(String, String)> = Vec::new();
    r.push(("NEALS_RUNTIME".to_owned(), runtime.to_owned()));
    assert(env_of(r@) == start + port_env(all.take(0)));
    for i in 0..bound.len()
        invariant
            all == state::routes(bound@),
            env_of(r@) == start + port_env(all.take(i as int)),
    {
        assert(all.take(i + 1).drop_last() == all.take(i as int));
        if let Some(guest) = bound[i].guest_tcp_port() {
            let ghost before = env_of(r@);
            let entry = (
                devenv::env_port_var(bound[i].service.as_str()),
                text::decimal_text(guest as u64),
            );
            let ghost added = (entry.0@, entry.1@);
            r.push(entry);
            assert(env_of(r@) == before.push(added));
            assert(env_of(r@) == start + port_env(all.take(i + 1)));
        }
    }
    assert(all.take(all.len() as int) == all);
    r
}

} // verus!
