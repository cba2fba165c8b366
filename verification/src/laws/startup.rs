//! Bringing projects up and down: what each step changes, what it leaves as
//! it was, and what is given back when a step fails.
use crate::bind;
use crate::devenv;
use crate::devenv::{ServiceDecl, ServiceKind};
use crate::laws::routing;
use crate::ports;
use crate::ports::{PortLeases, Probe};
use crate::registry;
use crate::registry::Registry;
use crate::state;
use crate::state::{AppState, BoundRoute, BoundTarget, ChildPoll, RunningProject};
use crate::text;
use crate::up;
use crate::up::{UpAction, UpFlow, UpStage};
use crate::words;
use vstd::prelude::*;
use vstd::string::*;

verus! {

// ---------------------------------------------------------------------------
// Ports
// ---------------------------------------------------------------------------
/// Whether a port cannot be had: it is leased, or listening on it fails.
pub open spec fn is_taken<F: Fn(u16) -> Probe>(p: u16, leased: Set<u16>, probe: F) -> bool {
    leased.contains(p) || exists|m: String| #[trigger] probe.ensures((p,), Probe::Busy(m))
}

/// Whether the probe of a port is the port itself, and no probe is broken.
pub open spec fn is_plain<F: Fn(u16) -> Probe>(probe: F) -> bool {
    &&& forall|p: u16, q: u16| p != 0 && #[trigger] probe.ensures((p,), Probe::Bound(q)) ==> q == p
    &&& forall|p: u16, m: String| !#[trigger] probe.ensures((p,), Probe::Broken(m))
}

/// A port that is asked for is leased at the first number from there on that
/// can be had, within the next thousand and twenty-four, and no other lease
/// changes. Without a port nothing changes, and none of those numbers can be
/// had.
pub proof fn leased_from_the_preferred_one<F: Fn(u16) -> Probe>(
    leases: &mut PortLeases,
    start: u16,
    probe: &F,
    r: Result<u16, String>,
    q: u16,
)
    requires
        call_ensures(PortLeases::allocate_preferred::<F>, (leases, start, probe), r),
        start > 0,
        is_plain(*probe),
    ensures
        r matches Ok(p) ==> {
            &&& start <= p < start + 1024
            &&& !old(leases)@.contains(p)
            &&& final(leases)@.contains(q) <==> old(leases)@.contains(q) || q == p
            &&& start <= q < p ==> is_taken(q, old(leases)@, *probe)
        },
        r matches Err(m) ==> {
            &&& m@ == "failed to allocate a free TCP port on 127.0.0.1 starting at "@
                + text::decimal(start as nat)
            &&& final(leases)@.contains(q) <==> old(leases)@.contains(q)
            &&& start <= q < start + 1024 ==> is_taken(q, old(leases)@, *probe)
        },
{
    let n = choose|n: int| #[trigger]
        ports::preferred_outcome(r, start, old(leases)@, *probe, n);
    assert(ports::preferred_outcome(r, start, old(leases)@, *probe, n));
    match r {
        Ok(p) => {
            assert(p == start + n);
        },
        Err(m) => {
            assert(n == ports::tries_from(start));
        },
    }
    if start <= q < start + n {
        assert(ports::passed_over(q, old(leases)@, *probe));
    }
}

/// A port that the system picks is leased if it was not, and no other lease
/// changes.
pub proof fn leased_anywhere<F: Fn(u16) -> Probe>(
    leases: &mut PortLeases,
    probe: &F,
    r: Result<u16, String>,
    q: u16,
)
    requires
        call_ensures(PortLeases::allocate::<F>, (leases, probe), r),
    ensures
        r matches Ok(p) ==> {
            &&& probe.ensures((0u16,), Probe::Bound(p))
            &&& !old(leases)@.contains(p)
            &&& final(leases)@.contains(q) <==> old(leases)@.contains(q) || q == p
        },
        r is Err ==> (final(leases)@.contains(q) <==> old(leases)@.contains(q)),
        r matches Err(m) ==> m@ == "failed to allocate a free TCP port on 127.0.0.1"@
            || probe.ensures((0u16,), Probe::Busy(m)) || probe.ensures((0u16,), Probe::Broken(m)),
        (forall|p: u16| #[trigger] probe.ensures((0u16,), Probe::Bound(p))
            ==> !old(leases)@.contains(p)) && (forall|m: String|
            !#[trigger] probe.ensures((0u16,), Probe::Busy(m))) && (forall|m: String|
            !#[trigger] probe.ensures((0u16,), Probe::Broken(m))) ==> r is Ok,
{
    if r is Err && (forall|p: u16| #[trigger] probe.ensures((0u16,), Probe::Bound(p))
        ==> !old(leases)@.contains(p)) && (forall|m: String|
        !#[trigger] probe.ensures((0u16,), Probe::Busy(m))) && (forall|m: String|
        !#[trigger] probe.ensures((0u16,), Probe::Broken(m))) {
        let answers = choose|answers: Seq<u16>|
            answers.len() == ports::ANY_TRIES && #[trigger] ports::all_leased(
                answers,
                old(leases)@,
            ) && forall|i: int|
                0 <= i < answers.len() ==> probe.ensures(
                    (0u16,),
                    Probe::Bound(#[trigger] answers[i]),
                );
        assert(probe.ensures((0u16,), Probe::Bound(answers[0])));
        assert(old(leases)@.contains(answers[0]));
    }
}

/// A lease that is given up is gone, and no other is.
pub proof fn released(leases: &mut PortLeases, p: u16, q: u16)
    requires
        call_ensures(PortLeases::release, (leases, p), ()),
    ensures
        final(leases)@.contains(q) <==> old(leases)@.contains(q) && q != p,
{
}

/// Whether a route holds a port on the host.
pub open spec fn holds(r: BoundRoute, p: u16) -> bool {
    r.target matches BoundTarget::Tcp { host_port, .. } && host_port == p
}

/// Whether some route of a list holds a port on the host.
pub open spec fn holds_port(list: Seq<BoundRoute>, p: u16) -> bool {
    exists|i: int| 0 <= i < list.len() && holds(#[trigger] list[i], p)
}

proof fn lemma_holds(list: Seq<BoundRoute>, p: u16)
    ensures
        holds_port(list, p) <==> state::host_ports(state::routes(list)).contains(p),
{
    let all = state::routes(list);
    if holds_port(list, p) {
        let i = choose|i: int| 0 <= i < list.len() && holds(#[trigger] list[i], p);
        assert(all[i] == list[i]@);
        assert(state::host_port(all[i]) == Some(p));
    }
    if state::host_ports(all).contains(p) {
        let i = choose|i: int|
            0 <= i < all.len() && state::host_port(#[trigger] all[i]) == Some(p);
        assert(all[i] == list[i]@);
        assert(holds(list[i], p));
    }
}

/// Giving up the ports of a project gives up those of its routes, all of them
/// and no others.
pub proof fn released_routes(leases: &mut PortLeases, bound: &Vec<BoundRoute>, q: u16)
    requires
        call_ensures(bind::release_bound_ports, (leases, bound), ()),
    ensures
        final(leases)@.contains(q) <==> old(leases)@.contains(q) && !holds_port(bound@, q),
{
    lemma_holds(bound@, q);
}

/// Whether a route is what a declared service becomes. A service with a
/// socket keeps its file and is proxied. A service with a port is proxied if
/// it asks for that, and listens inside the namespace on the port that it
/// asks for, else on the port that it has on the host.
pub open spec fn becomes(d: ServiceDecl, r: BoundRoute) -> bool {
    &&& r.service@ == d.service@
    &&& match d.kind {
        ServiceKind::Unix { socket_file } => r.proxy && (r.target matches BoundTarget::Unix {
            socket_file: f,
        } && f@ == socket_file@),
        ServiceKind::Tcp { preferred_port: Some(p), proxy } => r.proxy == proxy && (
        r.target matches BoundTarget::Tcp { guest_port, .. } && guest_port == p),
        ServiceKind::Tcp { preferred_port: None, proxy } => r.proxy == proxy && (
        r.target matches BoundTarget::Tcp { host_port, guest_port } && guest_port == host_port),
    }
}

proof fn lemma_becomes<F: Fn(u16) -> Probe>(
    bound: Seq<BoundRoute>,
    services: Seq<ServiceDecl>,
    leased: Set<u16>,
    probe: F,
    i: int,
)
    requires
        bind::is_binding(state::routes(bound), devenv::services(services), leased, probe),
        0 <= i < bound.len(),
    ensures
        becomes(services[i], bound[i]),
{
    let b = state::routes(bound);
    let s = devenv::services(services);
    assert(bind::is_bound_at(b, s, leased, probe, i));
    assert(b[i] == bound[i]@);
    assert(s[i] == services[i]@);
}

/// Each service becomes a route, in order. No two routes get the same port on
/// the host, none gets a port that was leased, and those that they get are
/// leased from then on. Where one gets none, every lease is as it was.
pub proof fn bound_services<F: Fn(u16) -> Probe>(
    leases: &mut PortLeases,
    services: &Vec<ServiceDecl>,
    probe: &F,
    r: Result<Vec<BoundRoute>, String>,
    i: int,
    j: int,
    q: u16,
)
    requires
        call_ensures(bind::bind_services::<F>, (leases, services, probe), r),
        0 <= i < services@.len(),
        0 <= j < services@.len(),
    ensures
        r matches Ok(v) ==> {
            &&& v@.len() == services@.len()
            &&& becomes(services@[i], v@[i])
            &&& i != j && holds(v@[i], q) ==> !holds(v@[j], q)
            &&& holds(v@[i], q) ==> !old(leases)@.contains(q)
            &&& final(leases)@.contains(q) <==> old(leases)@.contains(q) || holds_port(v@, q)
        },
        r is Err ==> (final(leases)@.contains(q) <==> old(leases)@.contains(q)),
        (forall|k: int| 0 <= k < services@.len() ==> (#[trigger] services@[k]).kind is Unix)
            ==> r is Ok,
{
    let s = devenv::services(services@);
    if let Ok(v) = r {
        let b = state::routes(v@);
        lemma_becomes(v@, services@, old(leases)@, *probe, i);
        bind::bound_ports_fresh(b, s, old(leases)@, *probe);
        lemma_holds(v@, q);
        assert(b[i] == v@[i]@);
        assert(b[j] == v@[j]@);
        if holds(v@[i], q) {
            assert(holds_port(v@, q));
            assert(state::host_port(b[i]) == Some(q));
            assert(state::host_ports(b).contains(q));
        }
        if i < j {
            assert(state::host_port(b[i]) is Some ==> state::host_port(b[i]) != state::host_port(
                b[j],
            ));
        } else if j < i {
            assert(state::host_port(b[j]) is Some ==> state::host_port(b[j]) != state::host_port(
                b[i],
            ));
        }
    }
    if forall|k: int| 0 <= k < services@.len() ==> (#[trigger] services@[k]).kind is Unix {
        assert forall|k: int| 0 <= k < s.len() implies (#[trigger] s[k]).kind is Unix by {
            assert(services@[k].kind is Unix);
        }
        bind::sockets_always_bound(r, s, old(leases)@, final(leases)@, *probe);
    }
}

// ---------------------------------------------------------------------------
// Running projects
// ---------------------------------------------------------------------------
/// Whether two lists hold the same routes in the same order.
pub open spec fn same_routes(a: Seq<BoundRoute>, b: Seq<BoundRoute>) -> bool {
    &&& a.len() == b.len()
    &&& forall|i: int| 0 <= i < a.len() ==> routing::same_route(#[trigger] a[i], b[i])
}

/// Whether two projects are the same in everything.
pub open spec fn same_project(a: RunningProject, b: RunningProject) -> bool {
    &&& a.name@ == b.name@
    &&& a.pid == b.pid
    &&& a.netns_pid == b.netns_pid
    &&& a.started_at == b.started_at
    &&& a.project_path@ == b.project_path@
    &&& same_routes(a.bound@, b.bound@)
}

/// Whether two lists hold the same projects in the same order.
pub open spec fn same_projects(a: Seq<RunningProject>, b: Seq<RunningProject>) -> bool {
    &&& a.len() == b.len()
    &&& forall|i: int| 0 <= i < a.len() ==> same_project(#[trigger] a[i], b[i])
}

proof fn lemma_same_routes(a: Seq<BoundRoute>, b: Seq<BoundRoute>)
    ensures
        same_routes(a, b) <==> state::routes(a) == state::routes(b),
{
    let x = state::routes(a);
    let y = state::routes(b);
    if x == y {
        assert(a.len() == x.len() && b.len() == y.len());
        assert forall|i: int| 0 <= i < a.len() implies routing::same_route(#[trigger] a[i], b[i]) by {
            assert(x[i] == a[i]@);
            assert(y[i] == b[i]@);
        }
    }
    if same_routes(a, b) {
        assert forall|i: int| 0 <= i < x.len() implies x[i] == y[i] by {
            assert(routing::same_route(a[i], b[i]));
        }
        assert(x == y);
    }
}

proof fn lemma_same_project(a: RunningProject, b: RunningProject)
    ensures
        same_project(a, b) <==> a@ == b@,
{
    lemma_same_routes(a.bound@, b.bound@);
}

proof fn lemma_same_projects(a: Seq<RunningProject>, b: Seq<RunningProject>)
    requires
        state::all_running(a) == state::all_running(b),
    ensures
        same_projects(a, b),
{
    let x = state::all_running(a);
    let y = state::all_running(b);
    assert(a.len() == x.len() && b.len() == y.len());
    assert forall|i: int| 0 <= i < a.len() implies same_project(#[trigger] a[i], b[i]) by {
        assert(x[i] == a[i]@);
        assert(y[i] == b[i]@);
        lemma_same_project(a[i], b[i]);
    }
}

/// Whether a project of that name runs.
pub open spec fn is_up(list: Seq<RunningProject>, name: Seq<char>) -> bool {
    exists|i: int| 0 <= i < list.len() && (#[trigger] list[i]).name@ == name
}

proof fn lemma_is_up(s: AppState, name: Seq<char>)
    ensures
        is_up(s.projects@, name) <==> s.runs(name),
{
    let all = s.running();
    if is_up(s.projects@, name) {
        let i = choose|i: int|
            0 <= i < s.projects@.len() && (#[trigger] s.projects@[i]).name@ == name;
        assert(all[i].name == name);
    }
    if s.runs(name) {
        let i = choose|i: int| 0 <= i < all.len() && (#[trigger] all[i]).name == name;
        assert(s.projects@[i].name@ == name);
    }
}

/// Whether the reverse proxy is told to serve the proxied routes of all
/// running projects and nothing else.
pub open spec fn serves_running(
    served: Seq<(String, Vec<BoundRoute>)>,
    projects: Seq<RunningProject>,
) -> bool {
    forall|name: Seq<char>, route: BoundRoute| #[trigger]
        routing::serves(served, name, route) <==> route.proxy && routing::project_has(
            projects,
            name,
            route,
        )
}

proof fn lemma_serves_running(
    served: Seq<(String, Vec<BoundRoute>)>,
    projects: Seq<RunningProject>,
)
    requires
        state::snapshot_of(served) == state::all_proxied(state::all_running(projects)),
    ensures
        serves_running(served, projects),
{
    assert forall|name: Seq<char>, route: BoundRoute| #[trigger]
        routing::serves(served, name, route) <==> route.proxy && routing::project_has(
            projects,
            name,
            route,
        ) by {
        routing::lemma_serves(served, name, route);
        routing::lemma_all_proxied(state::all_running(projects), name, route@);
        routing::lemma_project_has(projects, name, route);
    }
}

/// The routes that are kept for the reverse proxy are the proxied ones of all
/// running projects.
pub proof fn snapshot_for_the_proxy(s: &AppState, r: Vec<(String, Vec<BoundRoute>)>)
    requires
        call_ensures(AppState::proxy_snapshot, (s,), r),
    ensures
        serves_running(r@, s.projects@),
{
    lemma_serves_running(r@, s.projects@);
}

/// The routes of all running projects, each project with all of its routes.
pub proof fn snapshot_of_all(s: &AppState, r: Vec<(String, Vec<BoundRoute>)>, i: int)
    requires
        call_ensures(AppState::bound_snapshot, (s,), r),
        0 <= i < s.projects@.len(),
    ensures
        r@.len() == s.projects@.len(),
        r@[i].0@ == s.projects@[i].name@,
        same_routes(r@[i].1@, s.projects@[i].bound@),
{
    let said = state::snapshot_of(r@);
    assert(said.len() == s.projects@.len());
    assert(said[i] == (r@[i].0@, state::routes(r@[i].1@)));
    assert(said[i] == (s.projects@[i]@.name, s.projects@[i]@.bound));
    lemma_same_routes(r@[i].1@, s.projects@[i].bound@);
}

/// A project is up if one of that name runs, and the names are those of the
/// running projects in order.
pub proof fn who_is_up(s: &AppState, name: &str, r: bool, n: Vec<String>, i: int)
    requires
        call_ensures(AppState::is_running, (s, name), r),
        call_ensures(AppState::names, (s,), n),
        0 <= i < s.projects@.len(),
    ensures
        r <==> is_up(s.projects@, name@),
        n@.len() == s.projects@.len(),
        n@[i]@ == s.projects@[i].name@,
{
    lemma_is_up(*s, name@);
    let said = text::views(n@);
    assert(said.len() == n@.len());
    assert(said[i] == n@[i]@);
    assert(s.running()[i].name == s.projects@[i].name@);
}

/// Taking a project down takes one of that name out of the running ones, and
/// leaves the others and every lease as they are. Where none runs, nothing
/// changes.
pub proof fn taken_down(s: &mut AppState, name: &str, r: Result<RunningProject, String>)
    requires
        call_ensures(AppState::stop, (s, name), r),
    ensures
        r is Ok <==> is_up(old(s).projects@, name@),
        final(s).leases@ == old(s).leases@,
        final(s).caddy == old(s).caddy,
        r matches Ok(p) ==> p.name@ == name@ && exists|i: int|
            0 <= i < old(s).projects@.len() && same_project(#[trigger] old(s).projects@[i], p)
                && same_projects(final(s).projects@, old(s).projects@.remove(i)),
        r matches Err(m) ==> same_projects(final(s).projects@, old(s).projects@) && m@
            == "project `"@ + name@ + "` is not running"@,
{
    lemma_is_up(*old(s), name@);
    let before = old(s).running();
    if let Ok(p) = r {
        let i = choose|i: int|
            0 <= i < before.len() && (#[trigger] before[i]).name == name@ && p@ == before[i]
                && final(s).running() == before.remove(i);
        assert(before[i] == old(s).projects@[i]@);
        lemma_same_project(old(s).projects@[i], p);
        assert(state::all_running(old(s).projects@.remove(i)) == before.remove(i));
        lemma_same_projects(final(s).projects@, old(s).projects@.remove(i));
        assert(old(s).runs(name@));
    } else {
        lemma_same_projects(final(s).projects@, old(s).projects@);
    }
}

/// Once a project is down its ports are given up, no others, and the reverse
/// proxy goes on with the routes of those that run.
pub proof fn cleaned_up(
    s: &mut AppState,
    stopped: &RunningProject,
    r: Vec<(String, Vec<BoundRoute>)>,
    q: u16,
)
    requires
        call_ensures(AppState::finish_cleanup, (s, stopped), r),
    ensures
        final(s).leases@.contains(q) <==> old(s).leases@.contains(q) && !holds_port(
            stopped.bound@,
            q,
        ),
        same_projects(final(s).projects@, old(s).projects@),
        serves_running(r@, old(s).projects@),
        final(s).caddy == old(s).caddy,
{
    lemma_holds(stopped.bound@, q);
    lemma_same_projects(final(s).projects@, old(s).projects@);
    lemma_serves_running(r@, old(s).projects@);
}

/// Whether a list holds a project.
pub open spec fn has_project(list: Seq<RunningProject>, p: RunningProject) -> bool {
    exists|i: int| 0 <= i < list.len() && same_project(#[trigger] list[i], p)
}

/// Whether some project of a list is `p`, with a process that is alive or
/// with one that is not.
pub open spec fn has_polled(
    list: Seq<RunningProject>,
    polls: Seq<ChildPoll>,
    p: RunningProject,
    alive: bool,
) -> bool {
    exists|i: int|
        0 <= i < list.len() && same_project(#[trigger] list[i], p) && (polls[i] is Alive) == alive
}

proof fn lemma_has_project(list: Seq<RunningProject>, p: RunningProject)
    ensures
        has_project(list, p) <==> state::all_running(list).contains(p@),
{
    let all = state::all_running(list);
    if has_project(list, p) {
        let i = choose|i: int| 0 <= i < list.len() && same_project(#[trigger] list[i], p);
        lemma_same_project(list[i], p);
        assert(all[i] == p@);
    }
    if all.contains(p@) {
        let i = all.index_of(p@);
        assert(all[i] == list[i]@);
        lemma_same_project(list[i], p);
    }
}

proof fn lemma_with_process(
    list: Seq<RunningProject>,
    polls: Seq<ChildPoll>,
    p: RunningProject,
    alive: bool,
)
    requires
        polls.len() >= list.len(),
    ensures
        state::with_process(state::all_running(list), polls, alive).contains(p@) <==> has_polled(
            list,
            polls,
            p,
            alive,
        ),
    decreases list.len(),
{
    let all = state::all_running(list);
    if list.len() > 0 {
        let front = list.drop_last();
        let n = list.len() - 1;
        assert(state::all_running(front) == all.drop_last());
        lemma_with_process(front, polls, p, alive);
        lemma_same_project(list[n], p);
        assert(all.last() == list[n]@);
        let rest = state::with_process(all.drop_last(), polls, alive);
        let now = state::with_process(all, polls, alive);
        if rest.contains(p@) {
            let k = rest.index_of(p@);
            assert(now[k] == p@);
            let i = choose|i: int|
                0 <= i < front.len() && same_project(#[trigger] front[i], p) && (polls[i] is Alive)
                    == alive;
            assert(list[i] == front[i]);
        }
        if now.contains(p@) && !rest.contains(p@) {
            let k = now.index_of(p@);
            if k < rest.len() {
                assert(rest[k] == p@);
            }
            assert(same_project(list[n], p));
        }
        if has_polled(list, polls, p, alive) {
            let i = choose|i: int|
                0 <= i < list.len() && same_project(#[trigger] list[i], p) && (polls[i] is Alive)
                    == alive;
            if i < n {
                assert(front[i] == list[i]);
                assert(has_polled(front, polls, p, alive));
            } else {
                assert(now[rest.len() as int] == p@);
            }
        }
    }
}

proof fn lemma_process_counts(projects: Seq<state::Running>, polls: Seq<ChildPoll>)
    ensures
        state::with_process(projects, polls, true).len() + state::with_process(
            projects,
            polls,
            false,
        ).len() == projects.len(),
        state::with_process(projects, polls, false).len() == state::reap_notices(
            projects,
            polls,
        ).len(),
    decreases projects.len(),
{
    if projects.len() > 0 {
        lemma_process_counts(projects.drop_last(), polls);
    }
}

/// Those projects whose process has ended are taken out of the running ones,
/// with one notice each, and those whose process is alive stay.
pub proof fn reaped(
    s: &mut AppState,
    polls: &Vec<ChildPoll>,
    r: (Vec<RunningProject>, Vec<String>),
    p: RunningProject,
)
    requires
        polls@.len() == old(s).projects@.len(),
        call_ensures(AppState::reap_exited, (s, polls), r),
    ensures
        has_project(r.0@, p) <==> has_polled(old(s).projects@, polls@, p, false),
        has_project(final(s).projects@, p) <==> has_polled(old(s).projects@, polls@, p, true),
        r.0@.len() + final(s).projects@.len() == old(s).projects@.len(),
        r.1@.len() == r.0@.len(),
        final(s).leases@ == old(s).leases@,
        final(s).caddy == old(s).caddy,
{
    lemma_has_project(r.0@, p);
    lemma_has_project(final(s).projects@, p);
    lemma_with_process(old(s).projects@, polls@, p, false);
    lemma_with_process(old(s).projects@, polls@, p, true);
    lemma_process_counts(old(s).running(), polls@);
    assert(state::all_running(r.0@).len() == r.0@.len());
    assert(final(s).running().len() == final(s).projects@.len());
    assert(text::views(r.1@).len() == r.1@.len());
}

// ---------------------------------------------------------------------------
// Coming up
// ---------------------------------------------------------------------------
/// Whether two lists declare the same services in the same order.
pub open spec fn same_services(a: Seq<ServiceDecl>, b: Seq<ServiceDecl>) -> bool {
    &&& a.len() == b.len()
    &&& forall|i: int|
        0 <= i < a.len() ==> (#[trigger] a[i]).service@ == b[i].service@ && match (
            a[i].kind,
            b[i].kind,
        ) {
            (ServiceKind::Unix { socket_file: x }, ServiceKind::Unix { socket_file: y }) => x@
                == y@,
            (
                ServiceKind::Tcp { preferred_port: p, proxy: x },
                ServiceKind::Tcp { preferred_port: q, proxy: y },
            ) => p == q && x == y,
            _ => false,
        }
}

proof fn lemma_same_services(a: Seq<ServiceDecl>, b: Seq<ServiceDecl>)
    requires
        devenv::services(a) == devenv::services(b),
    ensures
        same_services(a, b),
{
    let x = devenv::services(a);
    let y = devenv::services(b);
    assert(a.len() == x.len() && b.len() == y.len());
    assert forall|i: int| 0 <= i < a.len() implies (#[trigger] a[i])@ == b[i]@ by {
        assert(x[i] == a[i]@);
        assert(y[i] == b[i]@);
    }
}

/// Whether two projects on their way up are the same but for the step they
/// are at and what went wrong.
pub open spec fn same_plan(a: UpFlow, b: UpFlow) -> bool {
    &&& a.name@ == b.name@
    &&& a.path@ == b.path@
    &&& same_services(a.services@, b.services@)
    &&& same_routes(a.bound@, b.bound@)
}

proof fn lemma_same_plan(a: UpFlow, b: UpFlow)
    requires
        a@.name == b@.name,
        a@.path == b@.path,
        a@.services == b@.services,
        a@.bound == b@.bound,
    ensures
        same_plan(a, b),
{
    lemma_same_services(a.services@, b.services@);
    lemma_same_routes(a.bound@, b.bound@);
}

/// Whether an action answers the request with that complaint.
pub open spec fn complains(a: UpAction, m: Seq<char>) -> bool {
    a matches UpAction::Reply(Err(e)) && e@ == m
}

/// A project is brought up only if none of its name runs.
pub proof fn begun(name: &str, s: &AppState, r: (UpFlow, UpAction))
    requires
        call_ensures(UpFlow::begin, (name, s), r),
    ensures
        r.0.name@ == name@,
        r.0.bound@.len() == 0,
        is_up(s.projects@, name@) ==> r.0.stage == UpStage::Done && complains(
            r.1,
            "project `"@ + name@ + "` is already running"@,
        ),
        !is_up(s.projects@, name@) ==> r.0.stage == UpStage::Registry && r.1 is LoadRegistry,
{
    lemma_is_up(*s, name@);
    assert(r.0@.bound.len() == r.0.bound@.len());
}

/// Whether the `i`-th registered project is the first of that name.
pub open spec fn first_of(list: Seq<registry::Project>, name: Seq<char>, i: int) -> bool {
    &&& 0 <= i < list.len()
    &&& list[i].name@ == name
    &&& forall|j: int| 0 <= j < i ==> (#[trigger] list[j]).name@ != name
}

pub(crate) proof fn lemma_first_of(list: Registry, name: Seq<char>, i: int)
    ensures
        first_of(list.projects@, name, i) <==> registry::is_first(list@, name, i),
{
    let all = list@;
    assert(all.len() == list.projects@.len());
    assert(forall|j: int| 0 <= j < all.len() ==> #[trigger] all[j] == list.projects@[j]@);
    if registry::is_first(all, name, i) {
        assert forall|j: int| 0 <= j < i implies (#[trigger] list.projects@[j]).name@ != name by {
            assert(all[j].name != name);
        }
    }
}

/// A project is looked for where the first entry of its name in the registry
/// says. Without such an entry, or without a registry, it is not brought up.
pub proof fn looked_up(
    flow: &mut UpFlow,
    loaded: Result<Registry, String>,
    r: UpAction,
    i: int,
)
    requires
        call_ensures(UpFlow::on_registry, (flow, loaded), r),
    ensures
        final(flow).name@ == old(flow).name@,
        loaded matches Err(e) ==> complains(r, e@) && final(flow).stage == UpStage::Done,
        loaded matches Ok(list) ==> (first_of(list.projects@, old(flow).name@, i) ==> (
        r matches UpAction::CheckPath(p) && p@ == list.projects@[i].path@ && final(flow).path@
            == list.projects@[i].path@ && final(flow).stage == UpStage::Path)),
        loaded matches Ok(list) ==> ((forall|j: int|
            0 <= j < list.projects@.len() ==> (#[trigger] list.projects@[j]).name@ != old(
                flow,
            ).name@) ==> complains(r, "project `"@ + old(flow).name@ + "` is not registered"@)
            && final(flow).stage == UpStage::Done),
{
    if let Ok(list) = loaded {
        let name = old(flow).name@;
        let all = list@;
        assert(all.len() == list.projects@.len());
        assert(forall|j: int| 0 <= j < all.len() ==> #[trigger] all[j] == list.projects@[j]@);
        lemma_first_of(list, name, i);
        if first_of(list.projects@, name, i) {
            assert(all[i].name == name);
            assert(registry::has_name(all, name));
            let k = choose|k: int|
                {
                    &&& #[trigger] registry::is_first(all, name, k)
                    &&& r matches UpAction::CheckPath(p) && p@ == all[k].path
                    &&& final(flow)@ == (up::Flow {
                        stage: UpStage::Path,
                        path: all[k].path,
                        ..old(flow)@
                    })
                };
            assert(registry::is_first(all, name, i));
            assert(k == i);
        }
        if forall|j: int|
            0 <= j < list.projects@.len() ==> (#[trigger] list.projects@[j]).name@ != name {
            assert(!registry::has_name(all, name)) by {
                if registry::has_name(all, name) {
                    let j = choose|j: int| 0 <= j < all.len() && (#[trigger] all[j]).name == name;
                    assert(list.projects@[j].name@ == name);
                }
            }
        }
    }
}

/// The steps up to the leasing of ports: each goes on to the next only if it
/// came out well, else the request is answered with what went wrong, and
/// nothing is kept back.
pub proof fn first_steps(
    flow: &mut UpFlow,
    is_dir: bool,
    done: Result<(), String>,
    declared: Result<Vec<ServiceDecl>, String>,
    r: UpAction,
)
    requires
        call_ensures(UpFlow::on_path, (flow, is_dir), r) || call_ensures(
            UpFlow::on_tools,
            (flow, done),
            r,
        ) || call_ensures(UpFlow::on_services, (flow, declared), r) || call_ensures(
            UpFlow::on_runtime,
            (flow, done),
            r,
        ) || call_ensures(UpFlow::on_log, (flow, done), r),
    ensures
        final(flow).name@ == old(flow).name@,
        final(flow).path@ == old(flow).path@,
        same_routes(final(flow).bound@, old(flow).bound@),
        call_ensures(UpFlow::on_path, (flow, is_dir), r) ==> if is_dir {
            final(flow).stage == UpStage::Tools && r is CheckTools
        } else {
            final(flow).stage == UpStage::Done && complains(
                r,
                "project `"@ + old(flow).name@ + "` path is missing: "@ + old(flow).path@,
            )
        },
        call_ensures(UpFlow::on_tools, (flow, done), r) ==> match done {
            Ok(_) => final(flow).stage == UpStage::Services && (
            r matches UpAction::ReadServices(p) && p@ == old(flow).path@),
            Err(e) => final(flow).stage == UpStage::Done && complains(r, e@),
        },
        call_ensures(UpFlow::on_services, (flow, declared), r) ==> match declared {
            Ok(v) => final(flow).stage == UpStage::Runtime && r is PrepareRuntime && same_services(
                final(flow).services@,
                v@,
            ),
            Err(e) => final(flow).stage == UpStage::Done && complains(r, e@),
        },
        call_ensures(UpFlow::on_runtime, (flow, done), r) ==> same_services(
            final(flow).services@,
            old(flow).services@,
        ) && match done {
            Ok(_) => final(flow).stage == UpStage::Bind && r is BindServices,
            Err(e) => final(flow).stage == UpStage::Done && complains(r, e@),
        },
        call_ensures(UpFlow::on_log, (flow, done), r) ==> match done {
            Ok(_) => final(flow).stage == UpStage::Spawn && r is Spawn,
            Err(e) => final(flow).stage == UpStage::Done && complains(r, e@),
        },
{
    lemma_same_routes(final(flow).bound@, old(flow).bound@);
    if let Ok(v) = declared {
        if call_ensures(UpFlow::on_services, (flow, declared), r) {
            lemma_same_services(final(flow).services@, v@);
        }
    }
    if call_ensures(UpFlow::on_runtime, (flow, done), r) {
        lemma_same_services(final(flow).services@, old(flow).services@);
    }
}

/// When its services are bound, a project has a route for each of them, with
/// ports that no one had. Where one gets no port, every lease is as it was.
/// The running projects stay as they are.
pub proof fn bound_on_the_way_up<F: Fn(u16) -> Probe>(
    flow: &mut UpFlow,
    s: &mut AppState,
    probe: &F,
    r: UpAction,
    i: int,
    q: u16,
)
    requires
        call_ensures(UpFlow::bind::<F>, (flow, s, probe), r),
    ensures
        final(flow).name@ == old(flow).name@,
        final(flow).path@ == old(flow).path@,
        same_projects(final(s).projects@, old(s).projects@),
        final(s).caddy == old(s).caddy,
        r is ApplyRoutes || r is Reply,
        r is ApplyRoutes ==> {
            &&& final(flow).stage == UpStage::Routes
            &&& final(flow).bound@.len() == old(flow).services@.len()
            &&& 0 <= i < final(flow).bound@.len() ==> becomes(
                old(flow).services@[i],
                final(flow).bound@[i],
            )
            &&& holds_port(final(flow).bound@, q) ==> !old(s).leases@.contains(q)
            &&& final(s).leases@.contains(q) <==> old(s).leases@.contains(q) || holds_port(
                final(flow).bound@,
                q,
            )
        },
        r is Reply ==> {
            &&& r->Reply_0 is Err
            &&& final(flow).stage == UpStage::Done
            &&& final(s).leases@.contains(q) <==> old(s).leases@.contains(q)
        },
{
    lemma_same_projects(final(s).projects@, old(s).projects@);
    let b = state::routes(final(flow).bound@);
    let d = devenv::services(old(flow).services@);
    assert(b.len() == final(flow).bound@.len());
    assert(d.len() == old(flow).services@.len());
    if r is ApplyRoutes {
        if 0 <= i < final(flow).bound@.len() {
            lemma_becomes(
                final(flow).bound@,
                old(flow).services@,
                old(s).leases@,
                *probe,
                i,
            );
        }
        bind::bound_ports_fresh(b, d, old(s).leases@, *probe);
        lemma_holds(final(flow).bound@, q);
    }
}

/// Whether the ports of a list of routes are given up, no others, and the
/// daemon is otherwise as it was.
pub open spec fn given_back(before: AppState, after: AppState, bound: Seq<BoundRoute>) -> bool {
    &&& forall|q: u16| #[trigger]
        after.leases@.contains(q) <==> before.leases@.contains(q) && !holds_port(bound, q)
    &&& same_projects(after.projects@, before.projects@)
    &&& after.caddy == before.caddy
}

proof fn lemma_given_back(before: AppState, after: AppState, bound: Seq<BoundRoute>)
    requires
        up::gave_up(before, after, state::routes(bound)),
    ensures
        given_back(before, after, bound),
{
    lemma_same_projects(after.projects@, before.projects@);
    assert forall|q: u16| #[trigger] after.leases@.contains(q) <==> before.leases@.contains(q)
        && !holds_port(bound, q) by {
        lemma_holds(bound, q);
    }
}

/// Whether the reverse proxy is handed the routes of the running projects.
pub open spec fn hands_back(a: UpAction, projects: Seq<RunningProject>) -> bool {
    a matches UpAction::RestoreRoutes(served) && serves_running(served@, projects)
}

proof fn lemma_hands_back(a: UpAction, s: AppState)
    requires
        up::restores(a, s.running()),
    ensures
        hands_back(a, s.projects@),
{
    if let UpAction::RestoreRoutes(served) = a {
        lemma_serves_running(served@, s.projects@);
    }
}

/// If the reverse proxy does not take the routes, the ports of the project are
/// given back and the request is answered with the reason.
pub proof fn routes_applied(
    flow: &mut UpFlow,
    s: &mut AppState,
    applied: Result<(), String>,
    r: UpAction,
)
    requires
        call_ensures(UpFlow::on_routes, (flow, s, applied), r),
    ensures
        same_plan(*final(flow), *old(flow)),
        applied is Ok ==> r is OpenLog && final(flow).stage == UpStage::Log && *final(s) == *old(s),
        applied matches Err(e) ==> complains(r, e@) && final(flow).stage == UpStage::Done
            && given_back(*old(s), *final(s), old(flow).bound@),
{
    lemma_same_plan(*final(flow), *old(flow));
    if applied is Err {
        lemma_given_back(*old(s), *final(s), old(flow).bound@);
    }
}

/// If the project does not start, its ports are given back and the reverse
/// proxy goes on with the routes of those that run.
pub proof fn spawned(
    flow: &mut UpFlow,
    s: &mut AppState,
    program: &str,
    outcome: Result<Option<u32>, String>,
    r: UpAction,
)
    requires
        call_ensures(UpFlow::on_spawn, (flow, s, program, outcome), r),
    ensures
        same_plan(*final(flow), *old(flow)),
        outcome matches Ok(Some(pid)) ==> r is Settle && final(flow).stage == UpStage::Settle
            && final(flow).pid == pid && *final(s) == *old(s),
        !(outcome matches Ok(Some(_))) ==> hands_back(r, old(s).projects@) && final(flow).stage
            == UpStage::Restoring && given_back(*old(s), *final(s), old(flow).bound@),
        outcome matches Err(e) ==> final(flow).failure@ == "failed to spawn `"@ + program@ + "`: "@
            + e@,
        outcome matches Ok(None) ==> final(flow).failure@ == "spawned `"@ + program@
            + "` has no pid"@,
{
    lemma_same_plan(*final(flow), *old(flow));
    if !(outcome matches Ok(Some(_))) {
        lemma_given_back(*old(s), *final(s), old(flow).bound@);
        lemma_hands_back(r, *old(s));
    }
}

/// If the project ends at once, its ports are given back and the reverse proxy
/// goes on with the routes of those that run.
pub proof fn settled(flow: &mut UpFlow, s: &mut AppState, exited: Option<String>, r: UpAction)
    requires
        call_ensures(UpFlow::on_settle, (flow, s, exited), r),
    ensures
        same_plan(*final(flow), *old(flow)),
        final(flow).pid == old(flow).pid,
        exited is None ==> r == UpAction::FindNetns(old(flow).pid) && final(flow).stage
            == UpStage::Netns && *final(s) == *old(s),
        exited is Some ==> hands_back(r, old(s).projects@) && final(flow).stage
            == UpStage::Restoring && given_back(*old(s), *final(s), old(flow).bound@),
{
    lemma_same_plan(*final(flow), *old(flow));
    if exited is Some {
        lemma_given_back(*old(s), *final(s), old(flow).bound@);
        lemma_hands_back(r, *old(s));
    }
}

/// The namespace is found and connected, or the process is stopped.
pub proof fn connected(
    flow: &mut UpFlow,
    found: Result<u32, String>,
    started: Result<(), String>,
    r: UpAction,
)
    requires
        call_ensures(UpFlow::on_netns, (flow, found), r) || call_ensures(
            UpFlow::on_slirp,
            (flow, started),
            r,
        ),
    ensures
        same_plan(*final(flow), *old(flow)),
        final(flow).pid == old(flow).pid,
        call_ensures(UpFlow::on_netns, (flow, found), r) ==> match found {
            Ok(p) => r == UpAction::StartSlirp(p) && final(flow).netns_pid == p
                && final(flow).stage == UpStage::Slirp,
            Err(e) => r == (UpAction::Stop { pid: old(flow).pid, slirp: false, proxies: false })
                && final(flow).failure@ == e@ && final(flow).stage == UpStage::Stopping,
        },
        call_ensures(UpFlow::on_slirp, (flow, started), r) ==> match started {
            Ok(_) => r == UpAction::StartProxies(old(flow).netns_pid) && final(flow).netns_pid
                == old(flow).netns_pid && final(flow).stage == UpStage::Proxies,
            Err(e) => r == (UpAction::Stop { pid: old(flow).pid, slirp: false, proxies: false })
                && final(flow).failure@ == "slirp4netns: "@ + e@ && final(flow).stage
                == UpStage::Stopping,
        },
{
    lemma_same_plan(*final(flow), *old(flow));
}

/// Once its ports are forwarded the project runs, behind the others, with the
/// name, the path, the processes and the routes that it has come to. If one of
/// its name has come up meanwhile, or forwarding failed, what was started for
/// it is stopped and the running projects stay as they are.
pub proof fn came_up(
    flow: &mut UpFlow,
    s: &mut AppState,
    started: Result<(), String>,
    now: u64,
    r: UpAction,
    k: int,
)
    requires
        call_ensures(UpFlow::on_proxies, (flow, s, started, now), r),
    ensures
        same_plan(*final(flow), *old(flow)),
        final(s).leases@ == old(s).leases@,
        final(s).caddy == old(s).caddy,
        started is Ok && !is_up(old(s).projects@, old(flow).name@) ==> {
            let n = old(s).projects@.len() as int;
            &&& r == UpAction::Reply(Ok(()))
            &&& final(flow).stage == UpStage::Done
            &&& final(s).projects@.len() == n + 1
            &&& 0 <= k < n ==> same_project(final(s).projects@[k], old(s).projects@[k])
            &&& final(s).projects@[n].name@ == old(flow).name@
            &&& final(s).projects@[n].project_path@ == old(flow).path@
            &&& final(s).projects@[n].pid == old(flow).pid
            &&& final(s).projects@[n].netns_pid == old(flow).netns_pid
            &&& final(s).projects@[n].started_at == now
            &&& same_routes(final(s).projects@[n].bound@, old(flow).bound@)
        },
        started is Err || is_up(old(s).projects@, old(flow).name@) ==> {
            &&& r == (UpAction::Stop { pid: old(flow).pid, slirp: true, proxies: true })
            &&& final(flow).stage == UpStage::Stopping
            &&& same_projects(final(s).projects@, old(s).projects@)
        },
        started matches Err(e) ==> final(flow).failure@ == e@,
        started is Ok && is_up(old(s).projects@, old(flow).name@) ==> final(flow).failure@
            == "project `"@ + old(flow).name@ + "` is already running"@,
{
    lemma_same_plan(*final(flow), *old(flow));
    lemma_is_up(*old(s), old(flow).name@);
    let before = old(s).running();
    let after = final(s).running();
    assert(before.len() == old(s).projects@.len());
    assert(after.len() == final(s).projects@.len());
    if started is Ok && !is_up(old(s).projects@, old(flow).name@) {
        let n = old(s).projects@.len() as int;
        assert(after[n] == final(s).projects@[n]@);
        assert(after[n] == old(flow).running_at(now));
        lemma_same_routes(final(s).projects@[n].bound@, old(flow).bound@);
        if 0 <= k < n {
            assert(after[k] == before[k]);
            assert(after[k] == final(s).projects@[k]@);
            assert(before[k] == old(s).projects@[k]@);
            lemma_same_project(final(s).projects@[k], old(s).projects@[k]);
        }
    } else {
        lemma_same_projects(final(s).projects@, old(s).projects@);
    }
}

/// Once what was started is stopped, the ports are given back and the reverse
/// proxy goes on with the routes of those that run; then the request is
/// answered with what went wrong.
pub proof fn wound_down(flow: &mut UpFlow, s: &mut AppState, r: UpAction)
    requires
        call_ensures(UpFlow::on_stopped, (flow, s), r),
    ensures
        same_plan(*final(flow), *old(flow)),
        final(flow).failure@ == old(flow).failure@,
        final(flow).stage == UpStage::Restoring,
        hands_back(r, old(s).projects@),
        given_back(*old(s), *final(s), old(flow).bound@),
{
    lemma_same_plan(*final(flow), *old(flow));
    lemma_given_back(*old(s), *final(s), old(flow).bound@);
    lemma_hands_back(r, *old(s));
}

/// The request is answered with what went wrong.
pub proof fn answered_with_the_failure(flow: &mut UpFlow, r: UpAction)
    requires
        call_ensures(UpFlow::on_restored, (flow,), r),
    ensures
        complains(r, old(flow).failure@),
        final(flow).stage == UpStage::Done,
{
}

// ---------------------------------------------------------------------------
// What is spawned
// ---------------------------------------------------------------------------
/// The command that brings a project up is the one that is asked for, its
/// first word the program and the rest its arguments. Where nothing is asked
/// for, or white space only, it is `devenv up`.
pub proof fn command_to_come_up(
    raw: Option<&String>,
    chars: &Vec<char>,
    list: Vec<String>,
    r: (String, Vec<String>),
    i: int,
)
    requires
        call_ensures(up::up_command, (raw,), r),
        raw matches Some(s) ==> chars@ == s@ && call_ensures(words::split_words, (chars,), list),
        raw is None ==> list@.len() == 0,
    ensures
        list@.len() == 0 ==> r.0@ == "devenv"@ && r.1@.len() == 1 && r.1@[0]@ == "up"@,
        list@.len() > 0 ==> r.0@ == list@[0]@ && r.1@.len() == list@.len() - 1,
        0 < i < list@.len() ==> r.1@[i - 1]@ == list@[i]@,
{
    let args = text::views(r.1@);
    assert(args.len() == r.1@.len());
    if list@.len() == 0 {
        if raw is Some {
            assert(text::views(list@).len() == 0);
        }
        assert(args[0] == r.1@[0]@);
    } else {
        let all = text::views(list@);
        assert(all.len() == list@.len());
        assert(all[0] == list@[0]@);
        if 0 < i < list@.len() {
            assert(all[i] == list@[i]@);
            assert(args[i - 1] == r.1@[i - 1]@);
        }
    }
}

/// Whether variables are those of the TCP routes at the given positions, each
/// with the port inside the namespace, and there are no other TCP routes.
pub open spec fn ports_told(
    list: Seq<(String, String)>,
    bound: Seq<BoundRoute>,
    at: Seq<int>,
) -> bool {
    &&& at.len() == list.len()
    &&& routing::goes_up(at, bound.len() as int)
    &&& forall|k: int|
        0 <= k < list.len() ==> (#[trigger] list[k]).0@ == devenv::port_var(
            bound[at[k]].service@,
        ) && (bound[at[k]].target matches BoundTarget::Tcp { guest_port, .. } && list[k].1@
            == text::decimal(guest_port as nat))
    &&& forall|j: int|
        0 <= j < bound.len() && (#[trigger] bound[j]).target is Tcp ==> at.contains(j)
}

proof fn lemma_ports_told(list: Seq<(String, String)>, bound: Seq<BoundRoute>) -> (at: Seq<int>)
    requires
        up::env_of(list) == up::port_env(state::routes(bound)),
    ensures
        ports_told(list, bound, at),
    decreases bound.len(),
{
    let model = state::routes(bound);
    let said = up::env_of(list);
    if bound.len() == 0 {
        assert(said.len() == 0);
        Seq::empty()
    } else {
        let front = bound.drop_last();
        let last = bound.last();
        let n = front.len() as int;
        assert(state::routes(front) == model.drop_last());
        assert(model.last() == last@);
        assert(bound[n] == last);
        assert(forall|j: int| 0 <= j < n ==> front[j] == bound[j]);
        if last.target is Tcp {
            let rest = list.drop_last();
            assert(said.len() > 0);
            assert(up::env_of(rest) == said.drop_last());
            assert(said.drop_last() == up::port_env(model.drop_last()));
            let before = lemma_ports_told(rest, front);
            let at = before.push(n);
            let f = list.last();
            assert(said.last() == (f.0@, f.1@));
            assert forall|k: int| 0 <= k < list.len() implies (#[trigger] list[k]).0@
                == devenv::port_var(bound[at[k]].service@) && (
            bound[at[k]].target matches BoundTarget::Tcp { guest_port, .. } && list[k].1@
                == text::decimal(guest_port as nat)) by {
                if k < rest.len() {
                    assert(rest[k] == list[k]);
                    assert(at[k] == before[k]);
                }
            }
            assert forall|j: int|
                0 <= j < bound.len() && (#[trigger] bound[j]).target is Tcp implies at.contains(
                j,
            ) by {
                if j < n {
                    assert(front[j].target is Tcp);
                    let k = before.index_of(j);
                    assert(at[k] == j);
                } else {
                    assert(at[before.len() as int] == n);
                }
            }
            at
        } else {
            let at = lemma_ports_told(list, front);
            assert forall|k: int| 0 <= k < list.len() implies (#[trigger] list[k]).0@
                == devenv::port_var(bound[at[k]].service@) && (
            bound[at[k]].target matches BoundTarget::Tcp { guest_port, .. } && list[k].1@
                == text::decimal(guest_port as nat)) by {
                assert(0 <= at[k] < n);
            }
            assert forall|j: int|
                0 <= j < bound.len() && (#[trigger] bound[j]).target is Tcp implies at.contains(
                j,
            ) by {
                assert(j < n);
                assert(front[j].target is Tcp);
            }
            at
        }
    }
}

/// A project is told where its sockets go, and for each TCP service, proxied
/// or not, which port to listen on inside the namespace, in the variable of
/// that service. It is told nothing else.
pub proof fn told_its_ports(runtime: &str, bound: &Vec<BoundRoute>, r: Vec<(String, String)>)
    requires
        call_ensures(up::spawn_env, (runtime, bound), r),
    ensures
        r@.len() > 0,
        r@[0].0@ == "NEALS_RUNTIME"@,
        r@[0].1@ == runtime@,
        exists|at: Seq<int>| #[trigger] ports_told(r@.skip(1), bound@, at),
{
    let said = up::env_of(r@);
    assert(said.len() == r@.len());
    assert(said[0] == ("NEALS_RUNTIME"@, runtime@));
    assert(up::env_of(r@.skip(1)) == said.skip(1));
    assert(said.skip(1) == up::port_env(state::routes(bound@)));
    let at = lemma_ports_told(r@.skip(1), bound@);
    assert(ports_told(r@.skip(1), bound@, at));
}

// ---------------------------------------------------------------------------
// Routes
// ---------------------------------------------------------------------------
/// The ports of a route are those that it was bound with; a socket has none.
pub proof fn ports_of_a_route(
    b: &BoundRoute,
    project: &str,
    host: Option<u16>,
    guest: Option<u16>,
    name: String,
    copy: BoundRoute,
)
    requires
        call_ensures(BoundRoute::tcp_port, (b,), host),
        call_ensures(BoundRoute::guest_tcp_port, (b,), guest),
        call_ensures(BoundRoute::public_host, (b, project), name),
        call_ensures(BoundRoute::copied, (b,), copy),
    ensures
        b.target matches BoundTarget::Tcp { host_port, guest_port } ==> host == Some(host_port)
            && guest == Some(guest_port),
        b.target is Unix ==> host is None && guest is None,
        name@ == routing::public_name(b.service@, project@),
        routing::same_route(copy, *b),
{
}

/// A copy of routes holds them all in order, and the proxied ones of a list
/// are all those that are proxied.
pub proof fn lists_of_routes(
    list: &Vec<BoundRoute>,
    copy: Vec<BoundRoute>,
    kept: Vec<BoundRoute>,
    b: BoundRoute,
)
    requires
        call_ensures(state::copy_routes, (list,), copy),
        call_ensures(state::proxied_routes, (list,), kept),
    ensures
        same_routes(copy@, list@),
        routing::has_route(kept@, b) <==> b.proxy && routing::has_route(list@, b),
        kept@.len() <= list@.len(),
{
    lemma_same_routes(copy@, list@);
    routing::lemma_has_route(kept@, b);
    routing::lemma_has_route(list@, b);
    routing::lemma_proxied(state::routes(list@), b@);
    lemma_fewer(state::routes(list@));
    assert(state::routes(kept@).len() == kept@.len());
}

proof fn lemma_fewer(list: Seq<state::Route>)
    ensures
        state::proxied(list).len() <= list.len(),
    decreases list.len(),
{
    reveal(Seq::filter);
    if list.len() > 0 {
        lemma_fewer(list.drop_last());
    }
}

/// A copy of a project is the same project, and whether a port is leased is
/// what the leases say.
pub proof fn copies_and_leases(
    p: &RunningProject,
    copy: RunningProject,
    leases: &PortLeases,
    port: u16,
    r: bool,
)
    requires
        call_ensures(RunningProject::copied, (p,), copy),
        call_ensures(PortLeases::contains, (leases, port), r),
    ensures
        same_project(copy, *p),
        r <==> leases@.contains(port),
{
    lemma_same_project(copy, *p);
}

/// The notice on a project whose process is not alive any more.
pub open spec fn notice_on(name: Seq<char>, poll: ChildPoll, m: Seq<char>) -> bool {
    match poll {
        ChildPoll::Alive => false,
        ChildPoll::Exited(status) => m == "project `"@ + name + "` exited unexpectedly ("@ + status@
            + "); cleaning up"@,
        ChildPoll::Unknown(e) => m == "try_wait `"@ + name + "`: "@ + e@ + "; cleaning up"@,
    }
}

proof fn lemma_notices(projects: Seq<state::Running>, polls: Seq<ChildPoll>, k: int)
    requires
        0 <= k < projects.len() <= polls.len(),
        !(polls[k] is Alive),
    ensures
        exists|j: int|
            0 <= j < state::reap_notices(projects, polls).len() && notice_on(
                projects[k].name,
                polls[k],
                #[trigger] state::reap_notices(projects, polls)[j],
            ),
    decreases projects.len(),
{
    let front = projects.drop_last();
    let all = state::reap_notices(projects, polls);
    let some = state::reap_notices(front, polls);
    if k < front.len() {
        lemma_notices(front, polls, k);
        let j = choose|j: int|
            0 <= j < some.len() && notice_on(front[k].name, polls[k], #[trigger] some[j]);
        assert(all[j] == some[j]);
        assert(notice_on(projects[k].name, polls[k], all[j]));
    } else {
        assert(projects.last() == projects[k]);
        assert(notice_on(projects[k].name, polls[k], all[all.len() - 1]));
    }
}

/// Each project whose process has ended gets a notice that says so.
pub proof fn notices_of_the_reaped(
    s: &mut AppState,
    polls: &Vec<ChildPoll>,
    r: (Vec<RunningProject>, Vec<String>),
    k: int,
)
    requires
        polls@.len() == old(s).projects@.len(),
        call_ensures(AppState::reap_exited, (s, polls), r),
        0 <= k < polls@.len(),
        !(polls@[k] is Alive),
    ensures
        exists|j: int|
            0 <= j < r.1@.len() && notice_on(
                old(s).projects@[k].name@,
                polls@[k],
                (#[trigger] r.1@[j])@,
            ),
{
    let all = old(s).running();
    assert(all.len() == old(s).projects@.len());
    assert(all[k] == old(s).projects@[k]@);
    lemma_notices(all, polls@, k);
    let said = text::views(r.1@);
    let j = choose|j: int|
        0 <= j < said.len() && notice_on(all[k].name, polls@[k], #[trigger] said[j]);
    assert(said[j] == r.1@[j]@);
}

/// Whether a message says that a service got no port, and why.
pub open spec fn blames(m: Seq<char>, service: Seq<char>, reason: Seq<char>) -> bool {
    m == "TCP port alloc for `"@ + service + "`: "@ + reason
}

/// Where a service gets no port, the complaint names it.
pub proof fn complaint_about_a_port<F: Fn(u16) -> Probe>(
    leases: &mut PortLeases,
    services: &Vec<ServiceDecl>,
    probe: &F,
    r: Result<Vec<BoundRoute>, String>,
)
    requires
        call_ensures(bind::bind_services::<F>, (leases, services, probe), r),
    ensures
        r matches Err(m) ==> exists|k: int, e: Seq<char>|
            0 <= k < services@.len() && services@[k].kind is Tcp && #[trigger] blames(
                m@,
                services@[k].service@,
                e,
            ),
{
    if let Err(m) = r {
        let s = devenv::services(services@);
        let bound = choose|bound: Seq<state::Route>| #[trigger]
            bind::is_bind_failure(m@, bound, s, old(leases)@, *probe);
        let k = bound.len() as int;
        assert(s[k] == services@[k]@);
        let e = choose|e: String| #[trigger]
            ports::lease_outcome(
                Err(e),
                bind::first_choice(s[k]),
                old(leases)@.union(state::host_ports(bound)),
                *probe,
            ) && m@ == bind::no_port(s[k].service, e@);
        assert(services@[k].kind is Tcp);
        assert(blames(m@, services@[k].service@, e@));
    }
}

/// A service that prefers a port gets the first from there on that can be had
/// on the host, beside those that the services before it got. One that prefers
/// none gets one that the system picks.
pub proof fn port_of_a_service<F: Fn(u16) -> Probe>(
    leases: &mut PortLeases,
    services: &Vec<ServiceDecl>,
    probe: &F,
    r: Result<Vec<BoundRoute>, String>,
    v: Vec<BoundRoute>,
    i: int,
    q: u16,
)
    requires
        call_ensures(bind::bind_services::<F>, (leases, services, probe), r),
        r == Ok::<Vec<BoundRoute>, String>(v),
        0 <= i < services@.len(),
        is_plain(*probe),
    ensures
        services@[i].kind matches ServiceKind::Tcp { preferred_port: Some(start), .. } ==> (start
            > 0 ==> (v@[i].target matches BoundTarget::Tcp { host_port, .. } && start <= host_port
            < start + 1024 && (start <= q < host_port ==> is_taken(q, old(leases)@, *probe)
            || holds_port(v@.take(i), q)))),
        services@[i].kind matches ServiceKind::Tcp { preferred_port: None, .. } ==> (
        v@[i].target matches BoundTarget::Tcp { host_port, .. } && probe.ensures(
            (0u16,),
            Probe::Bound(host_port),
        )),
{
    let s = devenv::services(services@);
    let b = state::routes(v@);
    assert(b.len() == v@.len() && s.len() == services@.len());
    assert(bind::is_bound_at(b, s, old(leases)@, *probe, i));
    assert(b[i] == v@[i]@);
    assert(s[i] == services@[i]@);
    let front = v@.take(i);
    assert(state::routes(front) =~= b.take(i)) by {
        assert(state::routes(front).len() == b.take(i).len());
        assert forall|j: int| 0 <= j < i implies state::routes(front)[j] == b.take(i)[j] by {
            assert(front[j] == v@[j]);
            assert(b[j] == v@[j]@);
        }
    }
    lemma_holds(front, q);
    let taken = old(leases)@.union(state::host_ports(b.take(i)));
    if let ServiceKind::Tcp { preferred_port: Some(start), .. } = services@[i].kind {
        if start > 0 {
            let p = state::host_port(b[i])->0;
            let n = choose|n: int| #[trigger]
                ports::preferred_outcome(Ok(p), start, taken, *probe, n);
            assert(ports::preferred_outcome(Ok(p), start, taken, *probe, n));
            assert(p == start + n);
            if start <= q < p {
                assert(ports::passed_over(q, taken, *probe));
            }
        }
    }
}

} // verus!
