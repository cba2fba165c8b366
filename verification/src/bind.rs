//! Giving the services of a project their ports.
use crate::devenv;
use crate::devenv::{ServiceDecl, ServiceKind};
use crate::ports;
use crate::ports::{PortLeases, Probe};
use crate::state;
use crate::state::{BoundRoute, BoundTarget};
use vstd::prelude::*;
use vstd::string::*;

verus! {

/// Whether a route is what a declared service becomes: same name, and a TCP
/// service keeps its preferred port inside the network namespace.
pub open spec fn is_bound_of(r: state::Route, d: devenv::Service) -> bool {
    &&& r.service == d.service
    &&& match (d.kind, r.target) {
        (devenv::Kind::Unix { socket_file: a }, state::Target::Unix { socket_file: b }) => a == b
            && r.proxy,
        (
            devenv::Kind::Tcp { preferred_port, proxy },
            state::Target::Tcp { host_port, guest_port },
        ) => r.proxy == proxy && guest_port == match preferred_port {
            Some(p) => p,
            None => host_port,
        },
        _ => false,
    }
}

/// The port at which the search for a host port starts; 0 for any port.
pub open spec fn first_choice(d: devenv::Service) -> u16 {
    match d.kind {
        devenv::Kind::Tcp { preferred_port: Some(p), .. } => p,
        _ => 0,
    }
}

/// The message on a service that gets no port.
pub open spec fn no_port(service: Seq<char>, reason: Seq<char>) -> Seq<char> {
    "TCP port alloc for `"@ + service + "`: "@ + reason
}

/// Leases the host port of one service.
fn bind_one<F: Fn(u16) -> Probe>(leases: &mut PortLeases, decl: &ServiceDecl, probe: &F) -> (r:
    Result<BoundRoute, String>)
    requires
        forall|p: u16| probe.requires((p,)),
    ensures
        match r {
            Ok(route) => {
                &&& is_bound_of(route@, decl@)
                &&& match state::host_port(route@) {
                    Some(p) => {
                        &&& ports::lease_outcome(Ok(p), first_choice(decl@), old(leases)@, *probe)
                        &&& final(leases)@ == old(leases)@.insert(p)
                        &&& !old(leases)@.contains(p)
                    },
                    None => final(leases)@ == old(leases)@,
                }
            },
            Err(m) => {
                &&& decl@.kind is Tcp
                &&& final(leases)@ == old(leases)@
                &&& exists|e: String| #[trigger]
                    ports::lease_outcome(Err(e), first_choice(decl@), old(leases)@, *probe) && m@
                        == no_port(decl@.service, e@)
            },
        },
{
    match &decl.kind {
        ServiceKind::Unix { socket_file } => Ok(
            BoundRoute {
                service: decl.service.clone(),
                target: BoundTarget::Unix { socket_file: socket_file.clone() },
                proxy: true,
            },
        ),
        ServiceKind::Tcp { preferred_port, proxy } => {
            let got = match preferred_port {
                Some(start) => leases.allocate_preferred(*start, probe),
                None => leases.allocate(probe),
            };
            assert(ports::lease_outcome(got, first_choice(decl@), old(leases)@, *probe));
            match got {
                Ok(host_port) => {
                    let guest_port: u16 = match preferred_port {
                        Some(p) => *p,
                        None => host_port,
                    };
                    Ok(
                        BoundRoute {
                            service: decl.service.clone(),
                            target: BoundTarget::Tcp { host_port, guest_port },
                            proxy: *proxy,
                        },
                    )
                },
                Err(e) => {
                    Err(
                        "TCP port alloc for `".to_owned().concat(decl.service.as_str()).concat(
                            "`: ",
                        ).concat(e.as_str()),
                    )
                },
            }
        },
    }
}

proof fn lemma_ports_push(list: Seq<state::Route>, r: state::Route)
    ensures
        state::host_ports(list.push(r)) == match state::host_port(r) {
            Some(p) => state::host_ports(list).insert(p),
            None => state::host_ports(list),
        },
{
    let all = list.push(r);
    assert(all[list.len() as int] == r);
    assert forall|p: u16| #[trigger] state::host_ports(all).contains(p) <==> (
    state::host_ports(list).contains(p) || state::host_port(r) == Some(p)) by {
        if state::host_ports(list).contains(p) {
            let i = choose|i: int|
                0 <= i < list.len() && state::host_port(#[trigger] list[i]) == Some(p);
            assert(all[i] == list[i]);
        }
        if state::host_ports(all).contains(p) {
            let i = choose|i: int|
                0 <= i < all.len() && state::host_port(#[trigger] all[i]) == Some(p);
            if i < list.len() {
                assert(list[i] == all[i]);
            }
        }
    }
    match state::host_port(r) {
        Some(p) => {
            assert(state::host_ports(all) == state::host_ports(list).insert(p));
        },
        None => {
            assert(state::host_ports(all) == state::host_ports(list));
        },
    }
}

/// Gives up the host ports of a list of routes.
pub fn release_bound_ports(leases: &mut PortLeases, bound: &Vec<BoundRoute>)
    ensures
        final(leases)@ == old(leases)@.difference(state::host_ports(state::routes(bound@))),
{
    let ghost all = state::routes(bound@);
    assert(state::host_ports(all.take(0)) == Set::<u16>::empty());
    for i in 0..bound.len()
        invariant
            all == state::routes(bound@),
            leases@ == old(leases)@.difference(state::host_ports(all.take(i as int))),
    {
        assert(all.take(i + 1) == all.take(i as int).push(all[i as int]));
        proof {
            lemma_ports_push(all.take(i as int), all[i as int]);
        }
        if let Some(port) = bound[i].tcp_port() {
            leases.release(port);
        }
        assert(leases@ == old(leases)@.difference(state::host_ports(all.take(i + 1))));
    }
    assert(all.take(all.len() as int) == all);
}

/// Whether the first `n` declared services became `bound`, each with the
/// outcome of a search against `leased` and the ports of those in front.
pub open spec fn is_binding<F: Fn(u16) -> Probe>(
    bound: Seq<state::Route>,
    services: Seq<devenv::Service>,
    leased: Set<u16>,
    probe: F,
) -> bool {
    &&& bound.len() <= services.len()
    &&& forall|i: int|
        0 <= i < bound.len() ==> #[trigger] is_bound_at(bound, services, leased, probe, i)
}

/// Whether the `i`-th service became the `i`-th route.
pub open spec fn is_bound_at<F: Fn(u16) -> Probe>(
    bound: Seq<state::Route>,
    services: Seq<devenv::Service>,
    leased: Set<u16>,
    probe: F,
    i: int,
) -> bool {
    &&& is_bound_of(bound[i], services[i])
    &&& match state::host_port(bound[i]) {
        Some(p) => {
            let taken = leased.union(state::host_ports(bound.take(i)));
            &&& !taken.contains(p)
            &&& ports::lease_outcome(Ok(p), first_choice(services[i]), taken, probe)
        },
        None => true,
    }
}

/// Whether `m` says why the service behind those in `bound`, a TCP service,
/// got no port.
pub open spec fn is_bind_failure<F: Fn(u16) -> Probe>(
    m: Seq<char>,
    bound: Seq<state::Route>,
    services: Seq<devenv::Service>,
    leased: Set<u16>,
    probe: F,
) -> bool {
    &&& is_binding(bound, services, leased, probe)
    &&& bound.len() < services.len()
    &&& services[bound.len() as int].kind is Tcp
    &&& exists|e: String| #[trigger]
        ports::lease_outcome(
            Err(e),
            first_choice(services[bound.len() as int]),
            leased.union(state::host_ports(bound)),
            probe,
        ) && m == no_port(services[bound.len() as int].service, e@)
}

/// The ports of bound services are distinct and were free.
pub proof fn bound_ports_fresh<F: Fn(u16) -> Probe>(
    bound: Seq<state::Route>,
    services: Seq<devenv::Service>,
    leased: Set<u16>,
    probe: F,
)
    requires
        is_binding(bound, services, leased, probe),
    ensures
        state::distinct_ports(bound),
        state::host_ports(bound).disjoint(leased),
{
    assert forall|i: int, j: int|
        0 <= i < j < bound.len() && state::host_port(
            #[trigger] bound[i],
        ) is Some implies state::host_port(bound[i]) != state::host_port(#[trigger] bound[j]) by {
        assert(is_bound_at(bound, services, leased, probe, j));
        if state::host_port(bound[i]) == state::host_port(bound[j]) {
            let p = state::host_port(bound[i])->0;
            assert(bound.take(j)[i] == bound[i]);
            assert(state::host_ports(bound.take(j)).contains(p));
        }
    }
    assert forall|p: u16| state::host_ports(bound).contains(p) implies !leased.contains(p) by {
        let i = choose|i: int|
            0 <= i < bound.len() && state::host_port(#[trigger] bound[i]) == Some(p);
        assert(is_bound_at(bound, services, leased, probe, i));
    }
}

/// A service with a preferred port is bound on the host at that port or one
/// of those that follow it, and inside the namespace at that port.
pub proof fn preferred_ports_kept<F: Fn(u16) -> Probe>(
    bound: Seq<state::Route>,
    services: Seq<devenv::Service>,
    leased: Set<u16>,
    probe: F,
    i: int,
    start: u16,
    proxy: bool,
)
    requires
        is_binding(bound, services, leased, probe),
        ports::is_honest(probe),
        0 <= i < bound.len(),
        services[i].kind == (devenv::Kind::Tcp { preferred_port: Some(start), proxy }),
        start > 0,
    ensures
        bound[i].target matches state::Target::Tcp { host_port, guest_port } && guest_port == start
            && start <= host_port < start + ports::PREFERRED_TRIES,
{
    assert(is_bound_at(bound, services, leased, probe, i));
    let p = state::host_port(bound[i])->0;
    ports::preferred_port_follows_start(
        p,
        start,
        leased.union(state::host_ports(bound.take(i))),
        probe,
    );
}

/// Whether binding all services can end in `r` and turn the leases `before`
/// into `after`.
pub open spec fn bind_outcome<F: Fn(u16) -> Probe>(
    r: Result<Vec<BoundRoute>, String>,
    services: Seq<devenv::Service>,
    before: Set<u16>,
    after: Set<u16>,
    probe: F,
) -> bool {
    match r {
        Ok(v) => {
            &&& v@.len() == services.len()
            &&& is_binding(state::routes(v@), services, before, probe)
            &&& after == before.union(state::host_ports(state::routes(v@)))
        },
        Err(m) => {
            &&& after == before
            &&& exists|bound: Seq<state::Route>| #[trigger]
                is_bind_failure(m@, bound, services, before, probe)
        },
    }
}

/// Sockets need no port: where all services are sockets, they are bound
/// whatever the probe says, and the leases stay as they are.
pub proof fn sockets_always_bound<F: Fn(u16) -> Probe>(
    r: Result<Vec<BoundRoute>, String>,
    services: Seq<devenv::Service>,
    before: Set<u16>,
    after: Set<u16>,
    probe: F,
)
    requires
        bind_outcome(r, services, before, after, probe),
        forall|i: int| 0 <= i < services.len() ==> (#[trigger] services[i]).kind is Unix,
    ensures
        r is Ok,
        after == before,
{
    if let Ok(v) = r {
        let bound = state::routes(v@);
        assert forall|p: u16| !state::host_ports(bound).contains(p) by {
            if state::host_ports(bound).contains(p) {
                let i = choose|i: int|
                    0 <= i < bound.len() && state::host_port(#[trigger] bound[i]) == Some(p);
                assert(is_bound_at(bound, services, before, probe, i));
            }
        }
        assert(after == before);
    }
}

/// Leases the host ports of all services. If one gets none, those of the
/// others are given up.
pub fn bind_services<F: Fn(u16) -> Probe>(
    leases: &mut PortLeases,
    services: &Vec<ServiceDecl>,
    probe: &F,
) -> (r: Result<Vec<BoundRoute>, String>)
    requires
        forall|p: u16| probe.requires((p,)),
    ensures
        bind_outcome(
            r,
            devenv::services(services@),
            old(leases)@,
            final(leases)@,
            *probe,
        ),
{
    let ghost want = devenv::services(services@);
    let ghost leased = leases@;
    let mut bound: Vec<BoundRoute> = Vec::new();
    assert(state::host_ports(state::routes(bound@)) == Set::<u16>::empty());
    assert(leases@ == leased.union(state::host_ports(state::routes(bound@))));
    for i in 0..services.len()
        invariant
            forall|p: u16| probe.requires((p,)),
            want == devenv::services(services@),
            leased == old(leases)@,
            bound@.len() == i,
            is_binding(state::routes(bound@), want, leased, *probe),
            leases@ == leased.union(state::host_ports(state::routes(bound@))),
    {
        let ghost before = state::routes(bound@);
        assert(want[i as int] == services@[i as int]@);
        match bind_one(leases, &services[i], probe) {
            Ok(route) => {
                let ghost added = route@;
                bound.push(route);
                let ghost after = state::routes(bound@);
                assert(after == before.push(added));
                proof {
                    lemma_ports_push(before, added);
                    assert forall|j: int| 0 <= j < after.len() implies #[trigger] is_bound_at(
                        after,
                        want,
                        leased,
                        *probe,
                        j,
                    ) by {
                        assert(after.take(j) == before.take(j));
                        if j < before.len() {
                            assert(is_bound_at(before, want, leased, *probe, j));
                        } else {
                            assert(after.take(j) == before);
                        }
                    }
                    assert(leases@ == leased.union(state::host_ports(after)));
                }
            },
            Err(m) => {
                release_bound_ports(leases, &bound);
                let r = Err(m);
                proof {
                    bound_ports_fresh(before, want, leased, *probe);
                    assert(leases@ == leased);
                    assert(is_bind_failure(r->Err_0@, before, want, leased, *probe));
                    assert(exists|bound: Seq<state::Route>| #[trigger]
                        is_bind_failure(r->Err_0@, bound, want, leased, *probe));
                }
                return r;
            },
        }
    }
    Ok(bound)
}

} // verus!
