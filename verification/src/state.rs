//! What the daemon knows: the running projects and the ports they hold.
use crate::bind;
use crate::caddy;
use crate::caddy::CaddyManager;
use crate::devenv;
use crate::ipc;
use crate::ipc::ProjectRuntime;
use crate::ports::PortLeases;
use crate::text;
use vstd::prelude::*;
use vstd::string::*;

verus! {

// ---------------------------------------------------------------------------
// Routes
// ---------------------------------------------------------------------------
/// Where a service is reached.
#[derive(Debug, Clone, PartialEq, Eq)]
pub enum BoundTarget {
    Unix { socket_file: String },
    /// The port on the host and the port inside the network namespace.
    Tcp { host_port: u16, guest_port: u16 },
}

/// A service of a running project.
#[derive(Debug, Clone, PartialEq, Eq)]
pub struct BoundRoute {
    pub service: String,
    pub target: BoundTarget,
    pub proxy: bool,
}

/// Where a service is reached.
pub enum Target {
    Unix { socket_file: Seq<char> },
    Tcp { host_port: u16, guest_port: u16 },
}

/// A service of a running project.
pub struct Route {
    pub service: Seq<char>,
    pub target: Target,
    pub proxy: bool,
}

impl View for BoundTarget {
    type V = Target;

    open spec fn view(&self) -> Target {
        match self {
            BoundTarget::Unix { socket_file } => Target::Unix { socket_file: socket_file@ },
            BoundTarget::Tcp { host_port, guest_port } => Target::Tcp {
                host_port: *host_port,
                guest_port: *guest_port,
            },
        }
    }
}

impl View for BoundRoute {
    type V = Route;

    open spec fn view(&self) -> Route {
        Route { service: self.service@, target: self.target@, proxy: self.proxy }
    }
}

/// What a list of routes says.
pub open spec fn routes(list: Seq<BoundRoute>) -> Seq<Route> {
    list.map_values(|r: BoundRoute| r@)
}

/// The port on the host, if there is one.
pub open spec fn host_port(r: Route) -> Option<u16> {
    match r.target {
        Target::Tcp { host_port, .. } => Some(host_port),
        Target::Unix { .. } => None,
    }
}

/// The address of a proxied service. The port is left out if it is that of
/// plain HTTP.
pub open spec fn url(service: Seq<char>, project: Seq<char>, proxy_port: u16) -> Seq<char> {
    if proxy_port == 80 {
        "http://"@ + devenv::host_name(service, project) + "/"@
    } else {
        "http://"@ + devenv::host_name(service, project) + ":"@ + text::decimal(proxy_port as nat)
            + "/"@
    }
}

fn url_text(service: &str, project: &str, proxy_port: u16) -> (r: String)
    ensures
        r@ == url(service@, project@, proxy_port),
{
    let host = "http://".to_owned().concat(devenv::host_text(service, project).as_str());
    if proxy_port == 80 {
        host.concat("/")
    } else {
        host.concat(":").concat(text::decimal_text(proxy_port as u64).as_str()).concat("/")
    }
}

/// Where a TCP service is reached on the host, with the port inside the
/// namespace if it differs.
pub open spec fn arrow(from: Seq<char>, host_port: u16, guest_port: u16) -> Seq<char> {
    let host = from + " → 127.0.0.1:"@ + text::decimal(host_port as nat);
    if host_port == guest_port {
        host
    } else {
        host + " (guest :"@ + text::decimal(guest_port as nat) + ")"@
    }
}

fn arrow_text(from: &str, host_port: u16, guest_port: u16) -> (r: String)
    ensures
        r@ == arrow(from@, host_port, guest_port),
{
    let host = from.to_owned().concat(" → 127.0.0.1:").concat(
        text::decimal_text(host_port as u64).as_str(),
    );
    if host_port == guest_port {
        host
    } else {
        host.concat(" (guest :").concat(text::decimal_text(guest_port as u64).as_str()).concat(")")
    }
}

/// How a service is shown to the user: its address if it is proxied, and the
/// port on the host if it is a TCP service.
pub open spec fn label(r: Route, project: Seq<char>, proxy_port: u16) -> Seq<char> {
    match r.target {
        Target::Unix { .. } => url(r.service, project, proxy_port),
        Target::Tcp { host_port, guest_port } => if r.proxy {
            arrow(url(r.service, project, proxy_port), host_port, guest_port)
        } else {
            arrow(r.service, host_port, guest_port)
        },
    }
}

impl BoundRoute {
    /// The host name of the service in a project.
    pub fn public_host(&self, project: &str) -> (r: String)
        ensures
            r@ == devenv::host_name(self@.service, project@),
    {
        devenv::host_text(self.service.as_str(), project)
    }

    /// How the service is shown to the user.
    pub fn status_label(&self, project: &str, proxy_port: u16) -> (r: String)
        ensures
            r@ == label(self@, project@, proxy_port),
    {
        match &self.target {
            BoundTarget::Unix { .. } => url_text(self.service.as_str(), project, proxy_port),
            BoundTarget::Tcp { host_port, guest_port } => if self.proxy {
                let from = url_text(self.service.as_str(), project, proxy_port);
                arrow_text(from.as_str(), *host_port, *guest_port)
            } else {
                arrow_text(self.service.as_str(), *host_port, *guest_port)
            },
        }
    }

    /// The port on the host, if there is one.
    pub fn tcp_port(&self) -> (r: Option<u16>)
        ensures
            r == host_port(self@),
    {
        match self.target {
            BoundTarget::Tcp { host_port, .. } => Some(host_port),
            BoundTarget::Unix { .. } => None,
        }
    }

    /// The port inside the network namespace, if there is one.
    pub fn guest_tcp_port(&self) -> (r: Option<u16>)
        ensures
            r == match self@.target {
                Target::Tcp { guest_port, .. } => Some(guest_port),
                Target::Unix { .. } => None,
            },
    {
        match self.target {
            BoundTarget::Tcp { guest_port, .. } => Some(guest_port),
            BoundTarget::Unix { .. } => None,
        }
    }

    /// A copy of the route.
    pub fn copied(&self) -> (r: BoundRoute)
        ensures
            r@ == self@,
    {
        let target = match &self.target {
            BoundTarget::Unix { socket_file } => BoundTarget::Unix {
                socket_file: socket_file.clone(),
            },
            BoundTarget::Tcp { host_port, guest_port } => BoundTarget::Tcp {
                host_port: *host_port,
                guest_port: *guest_port,
            },
        };
        BoundRoute { service: self.service.clone(), target, proxy: self.proxy }
    }
}

/// A copy of a list of routes.
pub fn copy_routes(list: &Vec<BoundRoute>) -> (r: Vec<BoundRoute>)
    ensures
        routes(r@) == routes(list@),
{
    let mut r: Vec<BoundRoute> = Vec::new();
    let ghost all = routes(list@);
    for i in 0..list.len()
        invariant
            all == routes(list@),
            routes(r@) == all.take(i as int),
    {
        let ghost before = routes(r@);
        r.push(list[i].copied());
        assert(routes(r@) == before.push(all[i as int]));
        assert(all.take(i + 1) == all.take(i as int).push(all[i as int]));
    }
    assert(all.take(all.len() as int) == all);
    r
}

/// The routes that get an address of their own.
pub open spec fn proxied(list: Seq<Route>) -> Seq<Route> {
    list.filter(|r: Route| r.proxy)
}

/// The routes that get an address of their own.
pub fn proxied_routes(list: &Vec<BoundRoute>) -> (r: Vec<BoundRoute>)
    ensures
        routes(r@) == proxied(routes(list@)),
{
    let mut r: Vec<BoundRoute> = Vec::new();
    let ghost all = routes(list@);
    let ghost keep = |r: Route| r.proxy;
    proof {
        reveal(Seq::filter);
    }
    for i in 0..list.len()
        invariant
            all == routes(list@),
            keep == (|r: Route| r.proxy),
            routes(r@) == all.take(i as int).filter(keep),
    {
        proof {
            reveal(Seq::filter);
        }
        assert(all.take(i + 1).drop_last() == all.take(i as int));
        assert(all.take(i + 1).last() == all[i as int]);
        if list[i].proxy {
            let ghost before = routes(r@);
            r.push(list[i].copied());
            assert(routes(r@) == before.push(all[i as int]));
        }
    }
    assert(all.take(all.len() as int) == all);
    r
}

// ---------------------------------------------------------------------------
// Running projects
// ---------------------------------------------------------------------------
/// A running project.
#[derive(Debug, Clone, PartialEq, Eq)]
pub struct RunningProject {
    pub name: String,
    pub pid: u32,
    pub netns_pid: u32,
    /// When it was started, in nanoseconds on the daemon's clock.
    pub started_at: u64,
    pub bound: Vec<BoundRoute>,
    pub project_path: String,
}

/// A running project.
pub struct Running {
    pub name: Seq<char>,
    pub pid: u32,
    pub netns_pid: u32,
    pub started_at: u64,
    pub bound: Seq<Route>,
    pub project_path: Seq<char>,
}

impl View for RunningProject {
    type V = Running;

    open spec fn view(&self) -> Running {
        Running {
            name: self.name@,
            pid: self.pid,
            netns_pid: self.netns_pid,
            started_at: self.started_at,
            bound: routes(self.bound@),
            project_path: self.project_path@,
        }
    }
}

/// What a list of running projects says.
pub open spec fn all_running(list: Seq<RunningProject>) -> Seq<Running> {
    list.map_values(|p: RunningProject| p@)
}

/// What the daemon knows.
#[derive(Debug)]
pub struct AppState {
    /// The running projects, in the order in which they were started.
    pub projects: Vec<RunningProject>,
    pub caddy: CaddyManager,
    pub leases: PortLeases,
}

impl Default for AppState {
    fn default() -> (r: Self)
        ensures
            r.projects@.len() == 0,
            r.caddy.is_off(),
            r.leases@ == Set::<u16>::empty(),
            r.wf(),
    {
        AppState {
            projects: Vec::new(),
            caddy: CaddyManager::disabled(),
            leases: PortLeases::default(),
        }
    }
}

/// The ports on the host that a list of routes holds.
pub open spec fn host_ports(list: Seq<Route>) -> Set<u16> {
    Set::new(|p: u16| exists|i: int| 0 <= i < list.len() && host_port(#[trigger] list[i]) == Some(p))
}

/// No two routes of a list hold the same port on the host.
pub open spec fn distinct_ports(list: Seq<Route>) -> bool {
    forall|i: int, j: int|
        0 <= i < j < list.len() && host_port(#[trigger] list[i]) is Some ==> host_port(list[i])
            != host_port(#[trigger] list[j])
}

/// No two projects have the same name, and every port that a project holds on
/// the host is leased and held by nothing else.
pub open spec fn is_orderly(projects: Seq<Running>, leased: Set<u16>) -> bool {
    &&& forall|i: int, j: int|
        0 <= i < j < projects.len() ==> (#[trigger] projects[i]).name != (
        #[trigger] projects[j]).name
    &&& forall|i: int| 0 <= i < projects.len() ==> holds_ports((#[trigger] projects[i]).bound, leased)
    &&& forall|i: int, j: int|
        0 <= i < j < projects.len() ==> host_ports((#[trigger] projects[i]).bound).disjoint(
            host_ports((#[trigger] projects[j]).bound),
        )
}

/// The ports of a list of routes are distinct and leased.
pub open spec fn holds_ports(list: Seq<Route>, leased: Set<u16>) -> bool {
    &&& distinct_ports(list)
    &&& host_ports(list).subset_of(leased)
}

/// The projects as they are named and bound, one after the other.
pub open spec fn snapshot_of(list: Seq<(String, Vec<BoundRoute>)>) -> Seq<(Seq<char>, Seq<Route>)> {
    list.map_values(|e: (String, Vec<BoundRoute>)| (e.0@, routes(e.1@)))
}

/// The routes of all projects.
pub open spec fn all_bound(projects: Seq<Running>) -> Seq<(Seq<char>, Seq<Route>)> {
    projects.map_values(|p: Running| (p.name, p.bound))
}

/// The proxied routes of those projects that have some.
pub open spec fn all_proxied(projects: Seq<Running>) -> Seq<(Seq<char>, Seq<Route>)>
    decreases projects.len(),
{
    if projects.len() == 0 {
        Seq::empty()
    } else {
        let rest = all_proxied(projects.drop_last());
        let last = projects.last();
        if proxied(last.bound).len() == 0 {
            rest
        } else {
            rest.push((last.name, proxied(last.bound)))
        }
    }
}

/// The port under which proxied services are shown.
pub open spec fn shown_port(http_addr: Seq<char>) -> u16 {
    if http_addr.len() == 0 {
        2015
    } else {
        caddy::http_port(http_addr)
    }
}

/// How many whole seconds lie between two points in time; none if the second
/// is earlier.
pub open spec fn seconds_between(from: u64, to: u64) -> u64 {
    if to < from {
        0
    } else {
        ((to - from) / 1_000_000_000) as u64
    }
}

/// How a running project is reported.
pub open spec fn report(p: Running, http_addr: Seq<char>, now: u64) -> ipc::Runtime {
    ipc::Runtime {
        name: p.name,
        pid: p.pid,
        netns_pid: p.netns_pid,
        uptime_secs: seconds_between(p.started_at, now),
        routes: p.bound.map_values(|r: Route| label(r, p.name, shown_port(http_addr))),
    }
}

fn labels(p: &RunningProject, proxy_port: u16) -> (r: Vec<String>)
    ensures
        text::views(r@) == p@.bound.map_values(|r: Route| label(r, p@.name, proxy_port)),
{
    let mut r: Vec<String> = Vec::new();
    let ghost want = p@.bound.map_values(|r: Route| label(r, p@.name, proxy_port));
    for i in 0..p.bound.len()
        invariant
            want == p@.bound.map_values(|r: Route| label(r, p@.name, proxy_port)),
            text::views(r@) == want.take(i as int),
    {
        let ghost before = text::views(r@);
        r.push(p.bound[i].status_label(p.name.as_str(), proxy_port));
        assert(text::views(r@) == before.push(want[i as int]));
        assert(want.take(i + 1) == want.take(i as int).push(want[i as int]));
    }
    assert(want.take(want.len() as int) == want);
    r
}

impl AppState {
    /// The running projects.
    pub open spec fn running(&self) -> Seq<Running> {
        all_running(self.projects@)
    }

    /// Names are distinct, and no port on the host is held twice.
    pub open spec fn wf(&self) -> bool {
        is_orderly(self.running(), self.leases@)
    }

    /// The running projects as they are reported at the time `now`.
    pub fn status(&self, now: u64) -> (r: Vec<ProjectRuntime>)
        ensures
            ipc::runtimes(r@) == self.running().map_values(
                |p: Running| report(p, self.caddy.http_addr@, now),
            ),
    {
        let proxy_port: u16 = if self.caddy.http_addr().is_empty() {
            2015
        } else {
            caddy::http_port_from_addr(self.caddy.http_addr())
        };
        let mut r: Vec<ProjectRuntime> = Vec::new();
        let ghost want = self.running().map_values(|p: Running| report(p, self.caddy.http_addr@, now));
        for i in 0..self.projects.len()
            invariant
                want == self.running().map_values(|p: Running| report(p, self.caddy.http_addr@, now)),
                proxy_port == shown_port(self.caddy.http_addr@),
                ipc::runtimes(r@) == want.take(i as int),
        {
            let ghost before = ipc::runtimes(r@);
            let p = &self.projects[i];
            let uptime_secs: u64 = if now < p.started_at {
                0
            } else {
                (now - p.started_at) / 1_000_000_000
            };
            let entry = ProjectRuntime {
                name: p.name.clone(),
                pid: p.pid,
                netns_pid: p.netns_pid,
                uptime_secs,
                routes: labels(p, proxy_port),
            };
            assert(entry@ == want[i as int]);
            r.push(entry);
            assert(ipc::runtimes(r@) == before.push(want[i as int]));
            assert(want.take(i + 1) == want.take(i as int).push(want[i as int]));
        }
        assert(want.take(want.len() as int) == want);
        r
    }

    /// Whether a project of that name runs.
    pub open spec fn runs(&self, name: Seq<char>) -> bool {
        exists|i: int| 0 <= i < self.running().len() && (#[trigger] self.running()[i]).name == name
    }

    /// The position of the project of that name.
    fn position(&self, name: &str) -> (r: Option<usize>)
        ensures
            match r {
                Some(i) => i < self.projects@.len() && self.running()[i as int].name == name@,
                None => !self.runs(name@),
            },
    {
        for i in 0..self.projects.len()
            invariant
                forall|j: int| 0 <= j < i ==> (#[trigger] self.running()[j]).name != name@,
        {
            if text::same(self.projects[i].name.as_str(), name) {
                return Some(i);
            }
            assert(self.running()[i as int].name == self.projects@[i as int].name@);
        }
        None
    }

    /// Whether a project of that name runs.
    pub fn is_running(&self, name: &str) -> (r: bool)
        ensures
            r == self.runs(name@),
    {
        match self.position(name) {
            Some(i) => {
                assert(self.running()[i as int].name == name@);
                true
            },
            None => false,
        }
    }

    /// The routes of all running projects.
    pub fn bound_snapshot(&self) -> (r: Vec<(String, Vec<BoundRoute>)>)
        ensures
            snapshot_of(r@) == all_bound(self.running()),
    {
        let mut r: Vec<(String, Vec<BoundRoute>)> = Vec::new();
        let ghost want = all_bound(self.running());
        for i in 0..self.projects.len()
            invariant
                want == all_bound(self.running()),
                snapshot_of(r@) == want.take(i as int),
        {
            let ghost before = snapshot_of(r@);
            let p = &self.projects[i];
            r.push((p.name.clone(), copy_routes(&p.bound)));
            assert(snapshot_of(r@) == before.push(want[i as int]));
            assert(want.take(i + 1) == want.take(i as int).push(want[i as int]));
        }
        assert(want.take(want.len() as int) == want);
        r
    }

    /// The proxied routes of those running projects that have some.
    pub fn proxy_snapshot(&self) -> (r: Vec<(String, Vec<BoundRoute>)>)
        ensures
            snapshot_of(r@) == all_proxied(self.running()),
    {
        let mut r: Vec<(String, Vec<BoundRoute>)> = Vec::new();
        let ghost all = self.running();
        for i in 0..self.projects.len()
            invariant
                all == self.running(),
                snapshot_of(r@) == all_proxied(all.take(i as int)),
        {
            assert(all.take(i + 1).drop_last() == all.take(i as int));
            let p = &self.projects[i];
            let mine = proxied_routes(&p.bound);
            if mine.len() > 0 {
                let ghost before = snapshot_of(r@);
                let ghost entry = (p.name@, routes(mine@));
                r.push((p.name.clone(), mine));
                assert(snapshot_of(r@) == before.push(entry));
            }
        }
        assert(all.take(all.len() as int) == all);
        r
    }
}

// ---------------------------------------------------------------------------
// Stopping
// ---------------------------------------------------------------------------
/// What asking after the process of a project came to.
#[derive(Debug, Clone, PartialEq, Eq)]
pub enum ChildPoll {
    Alive,
    /// It ended, with this status.
    Exited(String),
    /// Asking failed.
    Unknown(String),
}

/// Those of a list of projects whose process is alive, or those whose process
/// is not, in order.
pub open spec fn with_process(projects: Seq<Running>, polls: Seq<ChildPoll>, alive: bool) -> Seq<
    Running,
>
    decreases projects.len(),
{
    if projects.len() == 0 {
        Seq::empty()
    } else {
        let rest = with_process(projects.drop_last(), polls, alive);
        if (polls[projects.len() - 1] is Alive) == alive {
            rest.push(projects.last())
        } else {
            rest
        }
    }
}

/// The notice on a project whose process is not alive.
pub open spec fn reap_notice(name: Seq<char>, poll: ChildPoll) -> Option<Seq<char>> {
    match poll {
        ChildPoll::Alive => None,
        ChildPoll::Exited(status) => Some(
            "project `"@ + name + "` exited unexpectedly ("@ + status@ + "); cleaning up"@,
        ),
        ChildPoll::Unknown(e) => Some("try_wait `"@ + name + "`: "@ + e@ + "; cleaning up"@),
    }
}

/// The notices on those projects whose process is not alive, in order.
pub open spec fn reap_notices(projects: Seq<Running>, polls: Seq<ChildPoll>) -> Seq<Seq<char>>
    decreases projects.len(),
{
    if projects.len() == 0 {
        Seq::empty()
    } else {
        let rest = reap_notices(projects.drop_last(), polls);
        match reap_notice(projects.last().name, polls[projects.len() - 1]) {
            Some(m) => rest.push(m),
            None => rest,
        }
    }
}

fn reap_text(name: &str, poll: &ChildPoll) -> (r: Option<String>)
    ensures
        match (r, reap_notice(name@, *poll)) {
            (Some(a), Some(b)) => a@ == b,
            (None, None) => true,
            _ => false,
        },
{
    match poll {
        ChildPoll::Alive => None,
        ChildPoll::Exited(status) => Some(
            "project `".to_owned().concat(name).concat("` exited unexpectedly (").concat(
                status.as_str(),
            ).concat("); cleaning up"),
        ),
        ChildPoll::Unknown(e) => Some(
            "try_wait `".to_owned().concat(name).concat("`: ").concat(e.as_str()).concat(
                "; cleaning up",
            ),
        ),
    }
}

/// The message on a project that does not run.
pub open spec fn not_running(name: Seq<char>) -> Seq<char> {
    "project `"@ + name + "` is not running"@
}

impl RunningProject {
    /// A copy of the project.
    pub fn copied(&self) -> (r: RunningProject)
        ensures
            r@ == self@,
    {
        RunningProject {
            name: self.name.clone(),
            pid: self.pid,
            netns_pid: self.netns_pid,
            started_at: self.started_at,
            bound: copy_routes(&self.bound),
            project_path: self.project_path.clone(),
        }
    }
}

impl AppState {
    /// Takes a project out of the running ones, so that it can be stopped. Its
    /// ports stay leased until `finish_cleanup`.
    pub fn stop(&mut self, name: &str) -> (r: Result<RunningProject, String>)
        ensures
            final(self).leases@ == old(self).leases@,
            final(self).caddy == old(self).caddy,
            match r {
                Ok(p) => exists|i: int|
                    0 <= i < old(self).running().len() && (#[trigger] old(self).running()[i]).name
                        == name@ && p@ == old(self).running()[i] && final(self).running() == old(
                        self,
                    ).running().remove(i),
                Err(m) => {
                    &&& !old(self).runs(name@)
                    &&& m@ == not_running(name@)
                    &&& final(self).running() == old(self).running()
                },
            },
    {
        match self.position(name) {
            Some(i) => {
                let ghost before = self.running();
                let p = self.projects.remove(i);
                assert(self.running() == before.remove(i as int));
                assert(before[i as int].name == name@);
                Ok(p)
            },
            None => Err("project `".to_owned().concat(name).concat("` is not running")),
        }
    }

    /// Gives up the ports of a project that is stopped, and returns the routes
    /// that remain for the reverse proxy.
    pub fn finish_cleanup(&mut self, stopped: &RunningProject) -> (r: Vec<
        (String, Vec<BoundRoute>),
    >)
        ensures
            final(self).running() == old(self).running(),
            final(self).caddy == old(self).caddy,
            final(self).leases@ == old(self).leases@.difference(host_ports(stopped@.bound)),
            snapshot_of(r@) == all_proxied(old(self).running()),
    {
        bind::release_bound_ports(&mut self.leases, &stopped.bound);
        self.proxy_snapshot()
    }

    /// Takes those projects out of the running ones whose process is not
    /// alive, given what asking after each process came to. Returns them with
    /// a notice on each.
    pub fn reap_exited(&mut self, polls: &Vec<ChildPoll>) -> (r: (Vec<RunningProject>, Vec<String>))
        requires
            polls@.len() == old(self).projects@.len(),
        ensures
            all_running(r.0@) == with_process(old(self).running(), polls@, false),
            text::views(r.1@) == reap_notices(old(self).running(), polls@),
            final(self).running() == with_process(old(self).running(), polls@, true),
            final(self).leases@ == old(self).leases@,
            final(self).caddy == old(self).caddy,
    {
        let ghost all = self.running();
        let mut dead: Vec<RunningProject> = Vec::new();
        let mut notices: Vec<String> = Vec::new();
        let mut keep: Vec<RunningProject> = Vec::new();
        for i in 0..self.projects.len()
            invariant
                polls@.len() == self.projects@.len(),
                all == self.running(),
                all_running(dead@) == with_process(all.take(i as int), polls@, false),
                all_running(keep@) == with_process(all.take(i as int), polls@, true),
                text::views(notices@) == reap_notices(all.take(i as int), polls@),
        {
            assert(all.take(i + 1).drop_last() == all.take(i as int));
            let ghost d = all_running(dead@);
            let ghost k = all_running(keep@);
            let ghost n = text::views(notices@);
            let p = self.projects[i].copied();
            match reap_text(p.name.as_str(), &polls[i]) {
                Some(m) => {
                    notices.push(m);
                    assert(text::views(notices@) == n.push(m@));
                    dead.push(p);
                    assert(all_running(dead@) == d.push(all[i as int]));
                },
                None => {
                    keep.push(p);
                    assert(all_running(keep@) == k.push(all[i as int]));
                },
            }
        }
        assert(all.take(all.len() as int) == all);
        self.projects = keep;
        (dead, notices)
    }

    /// The names of the running projects, in the order in which they are
    /// stopped when the daemon ends.
    pub fn names(&self) -> (r: Vec<String>)
        ensures
            text::views(r@) == self.running().map_values(|p: Running| p.name),
    {
        let mut r: Vec<String> = Vec::new();
        let ghost want = self.running().map_values(|p: Running| p.name);
        for i in 0..self.projects.len()
            invariant
                want == self.running().map_values(|p: Running| p.name),
                text::views(r@) == want.take(i as int),
        {
            let ghost before = text::views(r@);
            r.push(self.projects[i].name.clone());
            assert(text::views(r@) == before.push(want[i as int]));
            assert(want.take(i + 1) == want.take(i as int).push(want[i as int]));
        }
        assert(want.take(want.len() as int) == want);
        r
    }
}

} // verus!
