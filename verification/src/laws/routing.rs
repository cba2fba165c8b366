//! Ports and routes: from a project that comes up to the address under which
//! its services are reached.
use crate::caddy;
use crate::devenv;
use crate::json;
use crate::netns;
use crate::netns::Forward;
use crate::ipc;
use crate::ipc::ProjectRuntime;
use crate::ports::Probe;
use crate::state;
use crate::state::{AppState, BoundRoute, BoundTarget, RunningProject};
use crate::text;
use crate::up::{UpAction, UpFlow};
use crate::words;
use vstd::prelude::*;
use vstd::string::*;

verus! {

/// Whether two routes are the same in everything.
pub open spec fn same_route(a: BoundRoute, b: BoundRoute) -> bool {
    &&& a.service@ == b.service@
    &&& a.proxy == b.proxy
    &&& match (a.target, b.target) {
        (BoundTarget::Unix { socket_file: x }, BoundTarget::Unix { socket_file: y }) => x@ == y@,
        (
            BoundTarget::Tcp { host_port: h, guest_port: g },
            BoundTarget::Tcp { host_port: k, guest_port: m },
        ) => h == k && g == m,
        _ => false,
    }
}

/// Whether a route is in a list.
pub open spec fn has_route(list: Seq<BoundRoute>, r: BoundRoute) -> bool {
    exists|j: int| 0 <= j < list.len() && same_route(#[trigger] list[j], r)
}

/// Whether a project of that name with that route is in a list.
pub open spec fn project_has(list: Seq<RunningProject>, name: Seq<char>, r: BoundRoute) -> bool {
    exists|i: int|
        0 <= i < list.len() && (#[trigger] list[i]).name@ == name && has_route(list[i].bound@, r)
}

/// Whether the reverse proxy is told to serve a route of that project.
pub open spec fn serves(
    list: Seq<(String, Vec<BoundRoute>)>,
    name: Seq<char>,
    r: BoundRoute,
) -> bool {
    exists|k: int|
        0 <= k < list.len() && (#[trigger] list[k]).0@ == name && has_route(list[k].1@, r)
}

pub(crate) proof fn lemma_has_route(list: Seq<BoundRoute>, r: BoundRoute)
    ensures
        has_route(list, r) <==> state::routes(list).contains(r@),
{
    let all = state::routes(list);
    if has_route(list, r) {
        let j = choose|j: int| 0 <= j < list.len() && same_route(#[trigger] list[j], r);
        assert(all[j] == r@);
    }
    if all.contains(r@) {
        let j = all.index_of(r@);
        assert(list[j]@ == r@);
        assert(same_route(list[j], r));
    }
}

pub(crate) proof fn lemma_proxied(list: Seq<state::Route>, r: state::Route)
    ensures
        state::proxied(list).contains(r) <==> r.proxy && list.contains(r),
    decreases list.len(),
{
    reveal(Seq::filter);
    if list.len() > 0 {
        let front = list.drop_last();
        lemma_proxied(front, r);
        let kept = state::proxied(front);
        let all = state::proxied(list);
        assert(list[list.len() - 1] == list.last());
        assert(forall|i: int| 0 <= i < front.len() ==> front[i] == list[i]);
        if all.contains(r) {
            let i = all.index_of(r);
            if i < kept.len() {
                assert(kept[i] == r);
            }
        }
        if kept.contains(r) {
            let i = kept.index_of(r);
            assert(all[i] == r);
        }
        if front.contains(r) {
            let i = front.index_of(r);
            assert(list[i] == r);
        }
        if list.contains(r) {
            let i = list.index_of(r);
            if i < front.len() {
                assert(front[i] == r);
            } else if r.proxy {
                assert(all[kept.len() as int] == r);
            }
        }
    }
}

/// Whether an entry of that name with that route is in a list.
pub(crate) open spec fn entry_has(
    list: Seq<(Seq<char>, Seq<state::Route>)>,
    name: Seq<char>,
    r: state::Route,
) -> bool {
    exists|k: int| 0 <= k < list.len() && (#[trigger] list[k]).0 == name && list[k].1.contains(r)
}

/// Whether a project of that name with that route is in a list.
pub(crate) open spec fn running_has(list: Seq<state::Running>, name: Seq<char>, r: state::Route) -> bool {
    exists|i: int|
        0 <= i < list.len() && (#[trigger] list[i]).name == name && list[i].bound.contains(r)
}

proof fn lemma_entry_push(
    list: Seq<(Seq<char>, Seq<state::Route>)>,
    e: (Seq<char>, Seq<state::Route>),
    name: Seq<char>,
    r: state::Route,
)
    ensures
        entry_has(list.push(e), name, r) <==> entry_has(list, name, r) || (e.0 == name
            && e.1.contains(r)),
{
    let all = list.push(e);
    assert(all[list.len() as int] == e);
    if entry_has(list, name, r) {
        let k = choose|k: int|
            0 <= k < list.len() && (#[trigger] list[k]).0 == name && list[k].1.contains(r);
        assert(all[k] == list[k]);
    }
    if entry_has(all, name, r) {
        let k = choose|k: int|
            0 <= k < all.len() && (#[trigger] all[k]).0 == name && all[k].1.contains(r);
        if k < list.len() {
            assert(list[k] == all[k]);
        }
    }
}

pub(crate) proof fn lemma_all_proxied(projects: Seq<state::Running>, name: Seq<char>, r: state::Route)
    ensures
        entry_has(state::all_proxied(projects), name, r) <==> r.proxy && running_has(
            projects,
            name,
            r,
        ),
    decreases projects.len(),
{
    if projects.len() > 0 {
        let front = projects.drop_last();
        let last = projects.last();
        lemma_all_proxied(front, name, r);
        lemma_proxied(last.bound, r);
        lemma_entry_push(
            state::all_proxied(front),
            (last.name, state::proxied(last.bound)),
            name,
            r,
        );
        assert(projects[projects.len() - 1] == last);
        assert(forall|i: int| 0 <= i < front.len() ==> front[i] == projects[i]);
        if running_has(front, name, r) {
            let i = choose|i: int|
                0 <= i < front.len() && (#[trigger] front[i]).name == name
                    && front[i].bound.contains(r);
            assert(projects[i].name == name);
        }
        if running_has(projects, name, r) {
            let i = choose|i: int|
                0 <= i < projects.len() && (#[trigger] projects[i]).name == name
                    && projects[i].bound.contains(r);
            if i < front.len() {
                assert(front[i].name == name);
            }
        }
    }
}

pub(crate) proof fn lemma_serves(list: Seq<(String, Vec<BoundRoute>)>, name: Seq<char>, r: BoundRoute)
    ensures
        serves(list, name, r) <==> entry_has(state::snapshot_of(list), name, r@),
{
    let all = state::snapshot_of(list);
    if serves(list, name, r) {
        let k = choose|k: int|
            0 <= k < list.len() && (#[trigger] list[k]).0@ == name && has_route(list[k].1@, r);
        lemma_has_route(list[k].1@, r);
        assert(all[k].0 == name);
    }
    if entry_has(all, name, r@) {
        let k = choose|k: int|
            0 <= k < all.len() && (#[trigger] all[k]).0 == name && all[k].1.contains(r@);
        lemma_has_route(list[k].1@, r);
        assert(list[k].0@ == name);
    }
}

pub(crate) proof fn lemma_project_has(list: Seq<RunningProject>, name: Seq<char>, r: BoundRoute)
    ensures
        project_has(list, name, r) <==> running_has(state::all_running(list), name, r@),
{
    let all = state::all_running(list);
    if project_has(list, name, r) {
        let i = choose|i: int|
            0 <= i < list.len() && (#[trigger] list[i]).name@ == name && has_route(
                list[i].bound@,
                r,
            );
        lemma_has_route(list[i].bound@, r);
        assert(all[i].name == name);
    }
    if running_has(all, name, r@) {
        let i = choose|i: int|
            0 <= i < all.len() && (#[trigger] all[i]).name == name && all[i].bound.contains(r@);
        lemma_has_route(list[i].bound@, r);
        assert(list[i].name@ == name);
    }
}

/// The routes that a project brings to the reverse proxy when its services
/// are bound: those of every running project and its own, as far as they are
/// proxied, each under the name of its project, and no others.
pub proof fn binding_serves_everyone<F: Fn(u16) -> Probe>(
    flow: &mut UpFlow,
    daemon: &mut AppState,
    probe: &F,
    r: UpAction,
    served: Vec<(String, Vec<BoundRoute>)>,
    name: Seq<char>,
    route: BoundRoute,
)
    requires
        call_ensures(UpFlow::bind::<F>, (flow, daemon, probe), r),
        r == UpAction::ApplyRoutes(served),
    ensures
        serves(served@, name, route) <==> route.proxy && (project_has(
            old(daemon).projects@,
            name,
            route,
        ) || (name == old(flow).name@ && has_route(final(flow).bound@, route))),
{
    let bound = state::routes(final(flow).bound@);
    lemma_serves(served@, name, route);
    lemma_all_proxied(old(daemon).running(), name, route@);
    lemma_project_has(old(daemon).projects@, name, route);
    lemma_has_route(final(flow).bound@, route);
    lemma_proxied(bound, route@);
    lemma_entry_push(
        state::all_proxied(old(daemon).running()),
        (old(flow).name@, state::proxied(bound)),
        name,
        route@,
    );
}

// ---------------------------------------------------------------------------
// The reverse proxy
// ---------------------------------------------------------------------------
/// The setting that sends requests for a host to an address.
pub open spec fn host_to_address(host: Seq<char>, address: Seq<char>) -> json::Json {
    let matcher = json::Json::Object(
        seq![("host"@, json::Json::List(seq![json::Json::Text(host)]))],
    );
    let upstream = json::Json::Object(seq![("dial"@, json::Json::Text(address))]);
    let handler = json::Json::Object(
        seq![
            ("handler"@, json::Json::Text("reverse_proxy"@)),
            ("upstreams"@, json::Json::List(seq![upstream])),
        ],
    );
    json::Json::Object(
        seq![
            ("match"@, json::Json::List(seq![matcher])),
            ("handle"@, json::Json::List(seq![handler])),
        ],
    )
}

proof fn lemma_host_to_address(h: Seq<char>, a: Seq<char>, k: Seq<char>, b: Seq<char>)
    requires
        host_to_address(h, a) == host_to_address(k, b),
    ensures
        h == k,
        a == b,
{
    let x = host_to_address(h, a)->Object_0;
    let y = host_to_address(k, b)->Object_0;
    assert(x[0] == y[0]);
    assert(x[1] == y[1]);
    let m = x[0].1->List_0[0]->Object_0;
    let n = y[0].1->List_0[0]->Object_0;
    assert(m[0].1->List_0[0] == json::Json::Text(h));
    assert(n[0].1->List_0[0] == json::Json::Text(k));
    let p = x[1].1->List_0[0]->Object_0;
    let q = y[1].1->List_0[0]->Object_0;
    assert(p[1].1->List_0[0]->Object_0[0].1 == json::Json::Text(a));
    assert(q[1].1->List_0[0]->Object_0[0].1 == json::Json::Text(b));
}

/// The settings of the reverse proxy around its routes.
pub open spec fn proxy_settings(
    admin_sock: Seq<char>,
    http_addr: Seq<char>,
    log_path: Seq<char>,
    http_port: u16,
    https_port: u16,
    routes: Seq<json::Json>,
) -> json::Json {
    let writer = json::Json::Object(
        seq![
            ("output"@, json::Json::Text("file"@)),
            ("filename"@, json::Json::Text(log_path)),
        ],
    );
    let log = json::Json::Object(seq![("writer"@, writer)]);
    let server = json::Json::Object(
        seq![
            ("listen"@, json::Json::List(seq![json::Json::Text(http_addr)])),
            ("automatic_https"@, json::Json::Object(seq![("disable"@, json::Json::Bool(true))])),
            ("routes"@, json::Json::List(routes)),
        ],
    );
    let http = json::Json::Object(
        seq![
            ("http_port"@, json::Json::Number(http_port as u64)),
            ("https_port"@, json::Json::Number(https_port as u64)),
            ("servers"@, json::Json::Object(seq![("neals"@, server)])),
        ],
    );
    json::Json::Object(
        seq![
            (
                "admin"@,
                json::Json::Object(seq![("listen"@, json::Json::Text("unix/"@ + admin_sock))]),
            ),
            (
                "logging"@,
                json::Json::Object(
                    seq![("logs"@, json::Json::Object(seq![("default"@, log)]))],
                ),
            ),
            ("apps"@, json::Json::Object(seq![("http"@, http)])),
        ],
    )
}

/// The host name under which a service of a project is reached.
pub open spec fn public_name(service: Seq<char>, project: Seq<char>) -> Seq<char> {
    service + "."@ + project + ".localhost"@
}

/// Whether the reverse proxy reaches a route of a project at that address: a
/// TCP service at the port on the host that was leased for it, a socket in the
/// directory that the project has for them.
pub open spec fn reached_at(
    r: BoundRoute,
    runtime: Seq<char>,
    project: Seq<char>,
    address: Seq<char>,
) -> bool {
    match r.target {
        BoundTarget::Tcp { host_port, .. } => address == "127.0.0.1:"@ + text::decimal(
            host_port as nat,
        ),
        BoundTarget::Unix { socket_file } => address == "unix/"@ + crate::paths::below(
            crate::paths::below(runtime, project),
            socket_file@,
        ),
    }
}

/// Whether some proxied route of a project goes by that host name and is
/// reached at that address.
pub open spec fn wants(
    projects: Seq<(String, Vec<BoundRoute>)>,
    runtime: Seq<char>,
    host: Seq<char>,
    address: Seq<char>,
) -> bool {
    exists|k: int, l: int| #[trigger] wanted_at(projects, runtime, host, address, k, l)
}

/// Whether the `l`-th route of the `k`-th project is such a route.
pub open spec fn wanted_at(
    projects: Seq<(String, Vec<BoundRoute>)>,
    runtime: Seq<char>,
    host: Seq<char>,
    address: Seq<char>,
    k: int,
    l: int,
) -> bool {
    &&& 0 <= k < projects.len()
    &&& 0 <= l < projects[k].1@.len()
    &&& projects[k].1@[l].proxy
    &&& host == public_name(projects[k].1@[l].service@, projects[k].0@)
    &&& reached_at(projects[k].1@[l], runtime, projects[k].0@, address)
}

proof fn lemma_project_routes(
    runtime: Seq<char>,
    project: Seq<char>,
    bound: Seq<BoundRoute>,
    host: Seq<char>,
    address: Seq<char>,
)
    ensures
        caddy::project_routes(runtime, project, state::routes(bound)).contains(
            host_to_address(host, address),
        ) <==> exists|l: int|
            0 <= l < bound.len() && (#[trigger] bound[l]).proxy && host == public_name(
                bound[l].service@,
                project,
            ) && reached_at(bound[l], runtime, project, address),
{
    let model = state::routes(bound);
    let kept = state::proxied(model);
    let made = caddy::project_routes(runtime, project, model);
    let want = host_to_address(host, address);
    if made.contains(want) {
        let i = made.index_of(want);
        let r = kept[i];
        assert(kept.contains(r));
        lemma_proxied(model, r);
        let l = model.index_of(r);
        assert(model[l] == bound[l]@);
        let h = devenv::host_name(r.service, project);
        let a = caddy::dial(runtime, project, r.target);
        assert(made[i] == host_to_address(h, a));
        lemma_host_to_address(host, address, h, a);
        assert(bound[l].proxy);
    }
    if exists|l: int|
        0 <= l < bound.len() && (#[trigger] bound[l]).proxy && host == public_name(
            bound[l].service@,
            project,
        ) && reached_at(bound[l], runtime, project, address) {
        let l = choose|l: int|
            0 <= l < bound.len() && (#[trigger] bound[l]).proxy && host == public_name(
                bound[l].service@,
                project,
            ) && reached_at(bound[l], runtime, project, address);
        let r = model[l];
        assert(model.contains(r));
        lemma_proxied(model, r);
        let i = kept.index_of(r);
        assert(made[i] == host_to_address(host, address));
    }
}

proof fn lemma_proxy_routes(
    runtime: Seq<char>,
    projects: Seq<(String, Vec<BoundRoute>)>,
    host: Seq<char>,
    address: Seq<char>,
)
    ensures
        caddy::proxy_routes(runtime, state::snapshot_of(projects)).contains(
            host_to_address(host, address),
        ) <==> wants(projects, runtime, host, address),
    decreases projects.len(),
{
    let want = host_to_address(host, address);
    let model = state::snapshot_of(projects);
    let all = caddy::proxy_routes(runtime, model);
    if projects.len() > 0 {
        let front = projects.drop_last();
        let last = projects.last();
        let n = front.len() as int;
        assert(state::snapshot_of(front) == model.drop_last());
        assert(model.last() == (last.0@, state::routes(last.1@)));
        lemma_proxy_routes(runtime, front, host, address);
        lemma_project_routes(runtime, last.0@, last.1@, host, address);
        let head = caddy::proxy_routes(runtime, model.drop_last());
        let mine = caddy::project_routes(runtime, last.0@, state::routes(last.1@));
        assert(all == head + mine);
        assert(all.contains(want) <==> head.contains(want) || mine.contains(want)) by {
            if all.contains(want) {
                let i = all.index_of(want);
                if i < head.len() {
                    assert(head[i] == want);
                } else {
                    assert(mine[i - head.len()] == want);
                }
            }
            if head.contains(want) {
                let i = head.index_of(want);
                assert(all[i] == want);
            }
            if mine.contains(want) {
                let i = mine.index_of(want);
                assert(all[head.len() + i] == want);
            }
        }
        if wants(front, runtime, host, address) {
            let (k, l) = choose|k: int, l: int| #[trigger]
                wanted_at(front, runtime, host, address, k, l);
            assert(front[k] == projects[k]);
            assert(wanted_at(projects, runtime, host, address, k, l));
        }
        if mine.contains(want) {
            let l = choose|l: int|
                0 <= l < last.1@.len() && (#[trigger] last.1@[l]).proxy && host == public_name(
                    last.1@[l].service@,
                    last.0@,
                ) && reached_at(last.1@[l], runtime, last.0@, address);
            assert(projects[n] == last);
            assert(wanted_at(projects, runtime, host, address, n, l));
        }
        if wants(projects, runtime, host, address) {
            let (k, l) = choose|k: int, l: int| #[trigger]
                wanted_at(projects, runtime, host, address, k, l);
            if k < n {
                assert(front[k] == projects[k]);
                assert(wanted_at(front, runtime, host, address, k, l));
            } else {
                assert(projects[k] == last);
                assert(last.1@[l].proxy);
            }
        }
    } else {
        assert(model.len() == 0);
    }
}

/// The configuration of the reverse proxy: it listens where it is told to,
/// takes orders at its socket, and sends the requests for the host name of
/// each proxied route to where that route is reached. It does nothing else.
pub proof fn hosts_lead_to_their_services(
    admin_sock: &str,
    http_addr: &str,
    log_path: &str,
    runtime: &str,
    projects: &Vec<(String, Vec<BoundRoute>)>,
    r: serde_json::Value,
    http: u16,
    https: u16,
)
    requires
        call_ensures(
            caddy::build_caddy_config,
            (admin_sock, http_addr, log_path, runtime, projects),
            r,
        ),
        call_ensures(caddy::http_port_from_addr, (http_addr,), http),
        call_ensures(caddy::https_port_from_addr, (http_addr,), https),
    ensures
        exists|routes: Seq<json::Json>|
            {
                &&& json::json_tree(r) == #[trigger] proxy_settings(
                    admin_sock@,
                    http_addr@,
                    log_path@,
                    http,
                    https,
                    routes,
                )
                &&& sends(routes, projects@, runtime@)
            },
{
    let routes = caddy::proxy_routes(runtime@, state::snapshot_of(projects@));
    assert(json::json_tree(r) == proxy_settings(
        admin_sock@,
        http_addr@,
        log_path@,
        http,
        https,
        routes,
    ));
    lemma_sends(runtime@, projects@);
}

/// Whether the routes of the reverse proxy are those that the projects want.
pub open spec fn sends(
    routes: Seq<json::Json>,
    projects: Seq<(String, Vec<BoundRoute>)>,
    runtime: Seq<char>,
) -> bool {
    &&& forall|host: Seq<char>, address: Seq<char>| #[trigger]
        routes.contains(host_to_address(host, address)) <==> wants(
            projects,
            runtime,
            host,
            address,
        )
    &&& forall|i: int|
        0 <= i < routes.len() ==> exists|host: Seq<char>, address: Seq<char>|
            #[trigger] routes[i] == #[trigger] host_to_address(host, address)
}

proof fn lemma_sends(runtime: Seq<char>, projects: Seq<(String, Vec<BoundRoute>)>)
    ensures
        sends(caddy::proxy_routes(runtime, state::snapshot_of(projects)), projects, runtime),
{
    let routes = caddy::proxy_routes(runtime, state::snapshot_of(projects));
    assert forall|host: Seq<char>, address: Seq<char>| #[trigger]
        routes.contains(host_to_address(host, address)) <==> wants(
            projects,
            runtime,
            host,
            address,
        ) by {
        lemma_proxy_routes(runtime, projects, host, address);
    }
    assert forall|i: int| 0 <= i < routes.len() implies exists|
        host: Seq<char>,
        address: Seq<char>,
    |
        #[trigger] routes[i] == #[trigger] host_to_address(host, address) by {
        lemma_only_routes(runtime, state::snapshot_of(projects), i);
    }
}

proof fn lemma_only_routes(
    runtime: Seq<char>,
    projects: Seq<(Seq<char>, Seq<state::Route>)>,
    i: int,
)
    requires
        0 <= i < caddy::proxy_routes(runtime, projects).len(),
    ensures
        exists|host: Seq<char>, address: Seq<char>|
            caddy::proxy_routes(runtime, projects)[i] == #[trigger] host_to_address(host, address),
    decreases projects.len(),
{
    let all = caddy::proxy_routes(runtime, projects);
    if projects.len() > 0 {
        let head = caddy::proxy_routes(runtime, projects.drop_last());
        let (project, bound) = projects.last();
        let mine = caddy::project_routes(runtime, project, bound);
        assert(all == head + mine);
        if i < head.len() {
            lemma_only_routes(runtime, projects.drop_last(), i);
        } else {
            let r = state::proxied(bound)[i - head.len()];
            let h = devenv::host_name(r.service, project);
            let a = caddy::dial(runtime, project, r.target);
            assert(all[i] == mine[i - head.len()]);
            assert(all[i] == host_to_address(h, a));
        }
    }
}

/// TCP routes with distinct ports on the host are dialled at distinct
/// addresses, whatever their ports inside the namespace, and the port on the
/// host is what stands behind the colon.
pub proof fn dialled_by_host_port(
    a: BoundRoute,
    b: BoundRoute,
    runtime: Seq<char>,
    project: Seq<char>,
    other: Seq<char>,
    at: Seq<char>,
    h: u16,
    k: u16,
    g: u16,
    m: u16,
)
    requires
        a.target == (BoundTarget::Tcp { host_port: h, guest_port: g }),
        b.target == (BoundTarget::Tcp { host_port: k, guest_port: m }),
        reached_at(a, runtime, project, at),
    ensures
        text::number(at.skip(10), 65535) == Some(h as nat),
        at.take(10) == "127.0.0.1:"@,
        reached_at(b, runtime, other, at) <==> h == k,
        caddy::dial(runtime, project, a.target@) == at,
        h != k ==> caddy::dial(runtime, project, a.target@) != caddy::dial(runtime, other, b.target@),
{
    reveal_strlit("127.0.0.1:");
    text::decimal_reads_back(h as nat, 65535);
    text::decimal_reads_back(k as nat, 65535);
    assert(at.skip(10) == text::decimal(h as nat));
    assert(at.take(10) == "127.0.0.1:"@);
    let there = "127.0.0.1:"@ + text::decimal(k as nat);
    assert(there.skip(10) == text::decimal(k as nat));
}

// ---------------------------------------------------------------------------
// Into the namespace
// ---------------------------------------------------------------------------
/// Whether a list of positions goes up and stays below `n`.
pub open spec fn goes_up(at: Seq<int>, n: int) -> bool {
    &&& forall|k: int| 0 <= k < at.len() ==> 0 <= #[trigger] at[k] < n
    &&& forall|k: int, l: int| 0 <= k < l < at.len() ==> #[trigger] at[k] < #[trigger] at[l]
}

/// Whether `f` forwards the port of a route: it is listened for on the host,
/// and the helper is told the process and the port inside its namespace.
pub open spec fn forwards_route(f: Forward, r: BoundRoute, netns_pid: u32) -> bool {
    match r.target {
        BoundTarget::Tcp { host_port, guest_port } => {
            &&& f.host_port == host_port
            &&& f.args@.len() == 3
            &&& f.args@[0]@ == "--netns-proxy"@
            &&& f.args@[1]@ == text::decimal(netns_pid as nat)
            &&& f.args@[2]@ == text::decimal(guest_port as nat)
        },
        BoundTarget::Unix { .. } => false,
    }
}

/// Whether the forwards are those of the TCP routes at the given positions,
/// and there are no other TCP routes.
pub open spec fn forwards_at(
    list: Seq<Forward>,
    bound: Seq<BoundRoute>,
    netns_pid: u32,
    at: Seq<int>,
) -> bool {
    &&& at.len() == list.len()
    &&& goes_up(at, bound.len() as int)
    &&& forall|k: int|
        0 <= k < list.len() ==> forwards_route(#[trigger] list[k], bound[at[k]], netns_pid)
    &&& forall|j: int|
        0 <= j < bound.len() && (#[trigger] bound[j]).target is Tcp ==> at.contains(j)
}

proof fn lemma_forwards(list: Seq<Forward>, bound: Seq<BoundRoute>, netns_pid: u32) -> (at: Seq<int>)
    requires
        netns::forwards_of(list) == netns::forwards(state::routes(bound), netns_pid),
    ensures
        forwards_at(list, bound, netns_pid, at),
    decreases bound.len(),
{
    let model = state::routes(bound);
    let said = netns::forwards_of(list);
    if bound.len() == 0 {
        assert(said.len() == 0);
        Seq::empty()
    } else {
        let front = bound.drop_last();
        let last = bound.last();
        let n = front.len() as int;
        assert(state::routes(front) == model.drop_last());
        assert(model.last() == last@);
        assert(bound[n] == last);
        assert(forall|j: int| 0 <= j < n ==> front[j] == bound[j]);
        if last.target is Tcp {
            let rest = list.drop_last();
            assert(said.len() > 0);
            assert(netns::forwards_of(rest) == said.drop_last());
            assert(said.drop_last() == netns::forwards(model.drop_last(), netns_pid));
            let before = lemma_forwards(rest, front, netns_pid);
            let at = before.push(n);
            let f = list.last();
            assert(said.last() == (f.host_port, text::views(f.args@)));
            let args = text::views(f.args@);
            assert(args.len() == 3);
            assert(args[0] == f.args@[0]@);
            assert(args[1] == f.args@[1]@);
            assert(args[2] == f.args@[2]@);
            assert(forwards_route(f, last, netns_pid));
            assert forall|k: int| 0 <= k < list.len() implies forwards_route(
                #[trigger] list[k],
                bound[at[k]],
                netns_pid,
            ) by {
                if k < rest.len() {
                    assert(rest[k] == list[k]);
                    assert(at[k] == before[k]);
                }
            }
            assert forall|j: int|
                0 <= j < bound.len() && (#[trigger] bound[j]).target is Tcp implies at.contains(
                j,
            ) by {
                if j < n {
                    assert(front[j].target is Tcp);
                    let k = before.index_of(j);
                    assert(at[k] == j);
                } else {
                    assert(at[before.len() as int] == n);
                }
            }
            at
        } else {
            let at = lemma_forwards(list, front, netns_pid);
            assert forall|k: int| 0 <= k < list.len() implies forwards_route(
                #[trigger] list[k],
                bound[at[k]],
                netns_pid,
            ) by {
                assert(0 <= at[k] < n);
            }
            assert forall|j: int|
                0 <= j < bound.len() && (#[trigger] bound[j]).target is Tcp implies at.contains(
                j,
            ) by {
                assert(j < n);
                assert(front[j].target is Tcp);
            }
            at
        }
    }
}

/// Every TCP route, proxied or not, has its port on the host forwarded to its
/// port inside the namespace, once and in order, and nothing else is.
pub proof fn every_port_is_forwarded(bound: &Vec<BoundRoute>, netns_pid: u32, r: Vec<Forward>)
    requires
        call_ensures(netns::start_proxies, (bound, netns_pid), r),
    ensures
        exists|at: Seq<int>| #[trigger] forwards_at(r@, bound@, netns_pid, at),
{
    let at = lemma_forwards(r@, bound@, netns_pid);
    assert(forwards_at(r@, bound@, netns_pid, at));
}

/// The ports that are listened for on the host are those that were leased for
/// the project.
pub proof fn listened_ports(bound: &Vec<BoundRoute>, netns_pid: u32, r: Vec<Forward>, port: u16)
    requires
        call_ensures(netns::start_proxies, (bound, netns_pid), r),
    ensures
        (exists|k: int| 0 <= k < r@.len() && (#[trigger] r@[k]).host_port == port)
            <==> state::host_ports(state::routes(bound@)).contains(port),
        (exists|k: int| 0 <= k < r@.len() && (#[trigger] r@[k]).host_port == port) <==> exists|
            j: int,
        |
            0 <= j < bound@.len() && ((#[trigger] bound@[j]).target matches BoundTarget::Tcp {
                host_port,
                ..
            } && host_port == port),
{
    let at = lemma_forwards(r@, bound@, netns_pid);
    let model = state::routes(bound@);
    assert(forall|j: int| 0 <= j < bound@.len() ==> model[j] == bound@[j]@);
    if exists|k: int| 0 <= k < r@.len() && (#[trigger] r@[k]).host_port == port {
        let k = choose|k: int| 0 <= k < r@.len() && (#[trigger] r@[k]).host_port == port;
        let j = at[k];
        assert(forwards_route(r@[k], bound@[j], netns_pid));
        assert(state::host_port(model[j]) == Some(port));
        assert(bound@[j].target is Tcp);
    }
    if state::host_ports(model).contains(port) {
        let j = choose|j: int|
            0 <= j < model.len() && state::host_port(#[trigger] model[j]) == Some(port);
        assert(bound@[j].target is Tcp);
        let k = at.index_of(j);
        assert(forwards_route(r@[k], bound@[at[k]], netns_pid));
        assert(r@[k].host_port == port);
    }
    if exists|j: int|
        0 <= j < bound@.len() && ((#[trigger] bound@[j]).target matches BoundTarget::Tcp {
            host_port,
            ..
        } && host_port == port) {
        let j = choose|j: int|
            0 <= j < bound@.len() && ((#[trigger] bound@[j]).target matches BoundTarget::Tcp {
                host_port,
                ..
            } && host_port == port);
        assert(state::host_port(model[j]) == Some(port));
    }
}

/// The helper of a forward understands which process and which port it is
/// meant for.
pub proof fn helper_goes_where_it_is_sent(
    f: Forward,
    r: BoundRoute,
    netns_pid: u32,
    host: u16,
    guest: u16,
    heard: Option<Option<(u32, u16)>>,
)
    requires
        forwards_route(f, r, netns_pid),
        r.target == (BoundTarget::Tcp { host_port: host, guest_port: guest }),
        call_ensures(netns::parse_helper_mode, (&f.args,), heard),
    ensures
        heard == Some(Some((netns_pid, guest))),
{
    let args = text::views(f.args@);
    assert(args[0] == f.args@[0]@);
    assert(args[1] == f.args@[1]@);
    assert(args[2] == f.args@[2]@);
    text::decimal_reads_back(netns_pid as nat, 0xffff_ffff);
    text::decimal_reads_back(guest as nat, 65535);
}

// ---------------------------------------------------------------------------
// Addresses
// ---------------------------------------------------------------------------
proof fn lemma_port_behind_colon(a: Seq<char>, p: u16)
    ensures
        caddy::http_port(a + ":"@ + text::decimal(p as nat)) == p,
{
    let d = text::decimal(p as nat);
    reveal_strlit(":");
    text::decimal_reads_back(p as nat, 65535);
    assert(!d.contains(':')) by {
        if d.contains(':') {
            let i = d.index_of(':');
            assert(text::is_digit(d[i]));
        }
    }
    words::pieces_of_two(a, d, ':');
    words::one_piece(d, ':');
    assert(a + ":"@ + d == a.push(':') + d);
}

/// The port of an address is the one behind its last colon.
pub proof fn port_of_an_address(addr: &str, a: Seq<char>, p: u16, r: u16)
    requires
        call_ensures(caddy::http_port_from_addr, (addr,), r),
        addr@ == a + ":"@ + text::decimal(p as nat),
    ensures
        r == p,
{
    lemma_port_behind_colon(a, p);
}

/// An address without a colon, or with no number behind the last one, stands
/// for the port that is used by default.
pub proof fn port_by_default(addr: &str, a: Seq<char>, b: Seq<char>, i: int, r: u16)
    requires
        call_ensures(caddy::http_port_from_addr, (addr,), r),
        !addr@.contains(':') || {
            &&& addr@ == a + ":"@ + b
            &&& !b.contains(':')
            &&& b.len() > 0 ==> 0 <= i < b.len() && b[i] != '+' && !('0' <= b[i] <= '9')
        },
    ensures
        r == 2015,
{
    reveal_strlit(":");
    if !addr@.contains(':') {
        words::one_piece(addr@, ':');
    } else {
        assert(addr@ == a.push(':') + b);
        words::pieces_of_two(a, b, ':');
        words::one_piece(b, ':');
        let d = text::unsigned_part(b);
        if b.len() > 0 {
            let k = if b[0] == '+' {
                i - 1
            } else {
                i
            };
            assert(d[k] == b[i]);
            assert(!text::is_digit(d[k]));
        }
    }
}

/// The port for HTTPS is never a privileged one, and it is the next one to an
/// unprivileged port for HTTP.
pub proof fn port_for_https(addr: &str, p: u16, r: u16)
    requires
        call_ensures(caddy::http_port_from_addr, (addr,), p),
        call_ensures(caddy::https_port_from_addr, (addr,), r),
    ensures
        r >= 1024,
        1024 <= p < 65535 ==> r == p + 1,
        p == 65535 ==> r == 65535,
        p < 1024 ==> r == 2016,
{
}

/// How a TCP service is shown behind what it goes by: the port on the host,
/// and the port inside the namespace where that is another one.
pub open spec fn shown_tcp(from: Seq<char>, host: u16, guest: u16) -> Seq<char> {
    if host == guest {
        from + " → 127.0.0.1:"@ + text::decimal(host as nat)
    } else {
        from + " → 127.0.0.1:"@ + text::decimal(host as nat) + " (guest :"@ + text::decimal(
            guest as nat,
        ) + ")"@
    }
}

/// The address that is shown for a proxied service: its host name, with the
/// port unless that is the usual one.
pub open spec fn shown_url(service: Seq<char>, project: Seq<char>, port: u16) -> Seq<char> {
    if port == 80 {
        "http://"@ + public_name(service, project) + "/"@
    } else {
        "http://"@ + public_name(service, project) + ":"@ + text::decimal(port as nat) + "/"@
    }
}

/// How a route of a project is shown where the reverse proxy listens on `port`.
pub open spec fn shown(r: BoundRoute, project: Seq<char>, port: u16) -> Seq<char> {
    match r.target {
        BoundTarget::Unix { .. } => shown_url(r.service@, project, port),
        BoundTarget::Tcp { host_port, guest_port } => if r.proxy {
            shown_tcp(shown_url(r.service@, project, port), host_port, guest_port)
        } else {
            shown_tcp(r.service@, host_port, guest_port)
        },
    }
}

/// How one route is shown.
pub proof fn label_of_a_route(b: &BoundRoute, project: &str, port: u16, r: String)
    requires
        call_ensures(BoundRoute::status_label, (b, project, port), r),
    ensures
        r@ == shown(*b, project@, port),
{
}

/// Every running project is reported, in order, with its process, the whole
/// seconds since it was started, and each of its routes under the port that
/// the reverse proxy listens on.
pub proof fn status_shows_where_to_go(
    daemon: &AppState,
    now: u64,
    r: Vec<ProjectRuntime>,
    a: Seq<char>,
    p: u16,
    i: int,
)
    requires
        call_ensures(AppState::status, (daemon, now), r),
        daemon.caddy.http_addr@ == a + ":"@ + text::decimal(p as nat)
            || (daemon.caddy.http_addr@.len() == 0 && p == 2015),
        0 <= i < daemon.projects@.len(),
    ensures
        r@.len() == daemon.projects@.len(),
        r@[i].name@ == daemon.projects@[i].name@,
        r@[i].pid == daemon.projects@[i].pid,
        r@[i].netns_pid == daemon.projects@[i].netns_pid,
        now < daemon.projects@[i].started_at ==> r@[i].uptime_secs == 0,
        now >= daemon.projects@[i].started_at ==> r@[i].uptime_secs * 1_000_000_000 <= now
            - daemon.projects@[i].started_at < (r@[i].uptime_secs + 1) * 1_000_000_000,
        r@[i].routes@.len() == daemon.projects@[i].bound@.len(),
        forall|j: int|
            0 <= j < r@[i].routes@.len() ==> (#[trigger] r@[i].routes@[j])@ == shown(
                daemon.projects@[i].bound@[j],
                daemon.projects@[i].name@,
                p,
            ),
{
    lemma_port_behind_colon(a, p);
    let addr = daemon.caddy.http_addr@;
    reveal_strlit(":");
    let said = ipc::runtimes(r@);
    assert(said.len() == daemon.projects@.len());
    assert(said[i] == r@[i]@);
    assert(said[i] == state::report(daemon.projects@[i]@, addr, now));
    let listed = text::views(r@[i].routes@);
    assert(said[i].routes == listed);
    assert forall|j: int| 0 <= j < r@[i].routes@.len() implies (#[trigger] r@[i].routes@[j])@
        == shown(daemon.projects@[i].bound@[j], daemon.projects@[i].name@, p) by {
        assert(listed[j] == r@[i].routes@[j]@);
        assert(daemon.projects@[i]@.bound[j] == daemon.projects@[i].bound@[j]@);
    }
}

} // verus!
