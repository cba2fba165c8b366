//! Who holds which port on the host.
//!
//! A port is held by a running project, or by a claim: the routes of a
//! project that is on its way up or down. These laws say that starting and
//! stopping projects, in whatever order the steps of several of them fall,
//! never lets two of them hold the same port.
use crate::bind;
use crate::devenv;
use crate::ports::Probe;
use crate::state;
use vstd::prelude::*;

verus! {

/// The running projects are orderly, and every port of a claim is leased and
/// held by nothing else.
pub open spec fn is_balanced(
    projects: Seq<state::Running>,
    leased: Set<u16>,
    claims: Seq<Seq<state::Route>>,
) -> bool {
    &&& state::is_orderly(projects, leased)
    &&& forall|k: int| 0 <= k < claims.len() ==> state::holds_ports(#[trigger] claims[k], leased)
    &&& forall|k: int, l: int|
        0 <= k < l < claims.len() ==> state::host_ports(#[trigger] claims[k]).disjoint(
            state::host_ports(#[trigger] claims[l]),
        )
    &&& forall|i: int, k: int|
        0 <= i < projects.len() && 0 <= k < claims.len() ==> state::host_ports(
            (#[trigger] projects[i]).bound,
        ).disjoint(state::host_ports(#[trigger] claims[k]))
}

/// Two routes of running projects that share a host port are the same route
/// of the same project.
pub proof fn host_ports_never_shared(
    projects: Seq<state::Running>,
    leased: Set<u16>,
    i: int,
    a: int,
    j: int,
    b: int,
)
    requires
        state::is_orderly(projects, leased),
        0 <= i < projects.len(),
        0 <= a < projects[i].bound.len(),
        0 <= j < projects.len(),
        0 <= b < projects[j].bound.len(),
        state::host_port(projects[i].bound[a]) is Some,
        state::host_port(projects[i].bound[a]) == state::host_port(projects[j].bound[b]),
    ensures
        i == j,
        a == b,
        leased.contains(state::host_port(projects[i].bound[a])->0),
{
    let p = state::host_port(projects[i].bound[a])->0;
    assert(state::host_ports(projects[i].bound).contains(p));
    assert(state::host_ports(projects[j].bound).contains(p));
    assert(state::holds_ports(projects[i].bound, leased));
    if i < j {
        assert(state::host_ports(projects[i].bound).disjoint(state::host_ports(projects[j].bound)));
    } else if j < i {
        assert(state::host_ports(projects[j].bound).disjoint(state::host_ports(projects[i].bound)));
    } else if a < b {
        assert(state::host_port(projects[i].bound[a]) != state::host_port(projects[i].bound[b]));
    } else if b < a {
        assert(state::host_port(projects[i].bound[b]) != state::host_port(projects[i].bound[a]));
    }
}

/// Binding the services of a project adds a claim.
pub proof fn binding_adds_a_claim<F: Fn(u16) -> Probe>(
    projects: Seq<state::Running>,
    leased: Set<u16>,
    claims: Seq<Seq<state::Route>>,
    bound: Seq<state::Route>,
    services: Seq<devenv::Service>,
    probe: F,
)
    requires
        is_balanced(projects, leased, claims),
        bind::is_binding(bound, services, leased, probe),
    ensures
        is_balanced(projects, leased.union(state::host_ports(bound)), claims.push(bound)),
{
    bind::bound_ports_fresh(bound, services, leased, probe);
    let more = leased.union(state::host_ports(bound));
    let all = claims.push(bound);
    assert forall|i: int| 0 <= i < projects.len() implies state::holds_ports(
        (#[trigger] projects[i]).bound,
        more,
    ) && state::host_ports(projects[i].bound).disjoint(state::host_ports(bound)) by {
        assert(state::holds_ports(projects[i].bound, leased));
    }
    assert forall|k: int| 0 <= k < all.len() implies state::holds_ports(
        #[trigger] all[k],
        more,
    ) by {
        if k < claims.len() {
            assert(state::holds_ports(claims[k], leased));
        }
    }
    assert forall|k: int, l: int| 0 <= k < l < all.len() implies state::host_ports(
        #[trigger] all[k],
    ).disjoint(state::host_ports(#[trigger] all[l])) by {
        assert(state::holds_ports(claims[k], leased));
        if l < claims.len() {
            assert(state::host_ports(claims[k]).disjoint(state::host_ports(claims[l])));
        }
    }
    assert forall|i: int, k: int|
        0 <= i < projects.len() && 0 <= k < all.len() implies state::host_ports(
        (#[trigger] projects[i]).bound,
    ).disjoint(state::host_ports(#[trigger] all[k])) by {
        if k < claims.len() {
            assert(state::host_ports(projects[i].bound).disjoint(state::host_ports(claims[k])));
        }
    }
}

/// Giving up the ports of a claim ends it and touches nobody else's ports.
pub proof fn giving_up_ends_a_claim(
    projects: Seq<state::Running>,
    leased: Set<u16>,
    claims: Seq<Seq<state::Route>>,
    k: int,
)
    requires
        is_balanced(projects, leased, claims),
        0 <= k < claims.len(),
    ensures
        is_balanced(
            projects,
            leased.difference(state::host_ports(claims[k])),
            claims.remove(k),
        ),
{
    let less = leased.difference(state::host_ports(claims[k]));
    let rest = claims.remove(k);
    assert forall|i: int| 0 <= i < projects.len() implies state::holds_ports(
        (#[trigger] projects[i]).bound,
        less,
    ) by {
        assert(state::holds_ports(projects[i].bound, leased));
        assert(state::host_ports(projects[i].bound).disjoint(state::host_ports(claims[k])));
    }
    assert forall|l: int| 0 <= l < rest.len() implies state::holds_ports(#[trigger] rest[l], less) by {
        let m = if l < k { l } else { l + 1 };
        assert(rest[l] == claims[m]);
        assert(state::holds_ports(claims[m], leased));
        if m < k {
            assert(state::host_ports(claims[m]).disjoint(state::host_ports(claims[k])));
        } else {
            assert(state::host_ports(claims[k]).disjoint(state::host_ports(claims[m])));
        }
    }
    lemma_rest_of_claims(projects, leased, claims, k);
}

proof fn lemma_rest_of_claims(
    projects: Seq<state::Running>,
    leased: Set<u16>,
    claims: Seq<Seq<state::Route>>,
    k: int,
)
    requires
        is_balanced(projects, leased, claims),
        0 <= k < claims.len(),
    ensures
        is_balanced(projects, leased, claims.remove(k)),
{
    let rest = claims.remove(k);
    assert forall|l: int| 0 <= l < rest.len() implies state::holds_ports(
        #[trigger] rest[l],
        leased,
    ) by {
        let m = if l < k { l } else { l + 1 };
        assert(rest[l] == claims[m]);
    }
    assert forall|a: int, b: int| 0 <= a < b < rest.len() implies state::host_ports(
        #[trigger] rest[a],
    ).disjoint(state::host_ports(#[trigger] rest[b])) by {
        let m = if a < k { a } else { a + 1 };
        let n = if b < k { b } else { b + 1 };
        assert(rest[a] == claims[m]);
        assert(rest[b] == claims[n]);
    }
    assert forall|i: int, l: int|
        0 <= i < projects.len() && 0 <= l < rest.len() implies state::host_ports(
        (#[trigger] projects[i]).bound,
    ).disjoint(state::host_ports(#[trigger] rest[l])) by {
        let m = if l < k { l } else { l + 1 };
        assert(rest[l] == claims[m]);
    }
}

/// A project that comes up takes its claim over, where none of its name runs.
pub proof fn coming_up_takes_the_claim_over(
    projects: Seq<state::Running>,
    leased: Set<u16>,
    claims: Seq<Seq<state::Route>>,
    k: int,
    p: state::Running,
)
    requires
        is_balanced(projects, leased, claims),
        0 <= k < claims.len(),
        p.bound == claims[k],
        forall|i: int| 0 <= i < projects.len() ==> (#[trigger] projects[i]).name != p.name,
    ensures
        is_balanced(projects.push(p), leased, claims.remove(k)),
{
    lemma_rest_of_claims(projects, leased, claims, k);
    let all = projects.push(p);
    let rest = claims.remove(k);
    assert forall|i: int, j: int| 0 <= i < j < all.len() implies state::host_ports(
        (#[trigger] all[i]).bound,
    ).disjoint(state::host_ports((#[trigger] all[j]).bound)) by {
        assert(all[i] == projects[i]);
        if j < projects.len() {
            assert(all[j] == projects[j]);
        } else {
            assert(state::host_ports(projects[i].bound).disjoint(state::host_ports(claims[k])));
        }
    }
    assert forall|i: int| 0 <= i < all.len() implies state::holds_ports(
        (#[trigger] all[i]).bound,
        leased,
    ) by {
        if i < projects.len() {
            assert(all[i] == projects[i]);
        }
    }
    assert forall|i: int, l: int|
        0 <= i < all.len() && 0 <= l < rest.len() implies state::host_ports(
        (#[trigger] all[i]).bound,
    ).disjoint(state::host_ports(#[trigger] rest[l])) by {
        let m = if l < k { l } else { l + 1 };
        assert(rest[l] == claims[m]);
        if i < projects.len() {
            assert(all[i] == projects[i]);
        } else if m < k {
            assert(state::host_ports(claims[m]).disjoint(state::host_ports(claims[k])));
        } else {
            assert(state::host_ports(claims[k]).disjoint(state::host_ports(claims[m])));
        }
    }
}

/// A project that is taken out of the running ones leaves a claim behind,
/// which `giving_up_ends_a_claim` ends.
pub proof fn going_down_leaves_a_claim(
    projects: Seq<state::Running>,
    leased: Set<u16>,
    claims: Seq<Seq<state::Route>>,
    i: int,
)
    requires
        is_balanced(projects, leased, claims),
        0 <= i < projects.len(),
    ensures
        is_balanced(projects.remove(i), leased, claims.push(projects[i].bound)),
{
    let rest = projects.remove(i);
    let all = claims.push(projects[i].bound);
    assert forall|a: int| 0 <= a < rest.len() implies state::holds_ports(
        (#[trigger] rest[a]).bound,
        leased,
    ) by {
        let m = if a < i { a } else { a + 1 };
        assert(rest[a] == projects[m]);
    }
    assert forall|a: int, b: int| 0 <= a < b < rest.len() implies (#[trigger] rest[a]).name != (
    #[trigger] rest[b]).name && state::host_ports(rest[a].bound).disjoint(
        state::host_ports(rest[b].bound),
    ) by {
        let m = if a < i { a } else { a + 1 };
        let n = if b < i { b } else { b + 1 };
        assert(rest[a] == projects[m]);
        assert(rest[b] == projects[n]);
    }
    assert forall|k: int| 0 <= k < all.len() implies state::holds_ports(
        #[trigger] all[k],
        leased,
    ) by {
        if k < claims.len() {
            assert(all[k] == claims[k]);
        } else {
            assert(state::holds_ports(projects[i].bound, leased));
        }
    }
    assert forall|k: int, l: int| 0 <= k < l < all.len() implies state::host_ports(
        #[trigger] all[k],
    ).disjoint(state::host_ports(#[trigger] all[l])) by {
        assert(all[k] == claims[k]);
        if l < claims.len() {
            assert(all[l] == claims[l]);
        } else {
            assert(state::host_ports(projects[i].bound).disjoint(state::host_ports(claims[k])));
        }
    }
    assert forall|a: int, k: int|
        0 <= a < rest.len() && 0 <= k < all.len() implies state::host_ports(
        (#[trigger] rest[a]).bound,
    ).disjoint(state::host_ports(#[trigger] all[k])) by {
        let m = if a < i { a } else { a + 1 };
        assert(rest[a] == projects[m]);
        if k < claims.len() {
            assert(all[k] == claims[k]);
        } else if m < i {
            assert(state::host_ports(projects[m].bound).disjoint(
                state::host_ports(projects[i].bound),
            ));
        } else {
            assert(state::host_ports(projects[i].bound).disjoint(
                state::host_ports(projects[m].bound),
            ));
        }
    }
}

/// Where those projects stand in a list whose process is alive, or those whose
/// process is not.
spec fn places(polls: Seq<state::ChildPoll>, n: nat, alive: bool) -> Seq<int>
    decreases n,
{
    if n == 0 {
        Seq::empty()
    } else {
        let rest = places(polls, (n - 1) as nat, alive);
        if (polls[n - 1] is Alive) == alive {
            rest.push(n - 1)
        } else {
            rest
        }
    }
}

proof fn lemma_places(projects: Seq<state::Running>, polls: Seq<state::ChildPoll>, alive: bool)
    ensures
        ({
            let found = state::with_process(projects, polls, alive);
            let at = places(polls, projects.len(), alive);
            &&& found.len() == at.len()
            &&& forall|k: int|
                0 <= k < at.len() ==> 0 <= #[trigger] at[k] < projects.len() && found[k]
                    == projects[at[k]] && (polls[at[k]] is Alive) == alive
            &&& forall|k: int, l: int| 0 <= k < l < at.len() ==> #[trigger] at[k] < #[trigger] at[l]
        }),
    decreases projects.len(),
{
    if projects.len() > 0 {
        lemma_places(projects.drop_last(), polls, alive);
    }
}

/// Each project that is taken out since its process ended leaves a claim
/// behind.
pub proof fn reaping_leaves_claims(
    projects: Seq<state::Running>,
    leased: Set<u16>,
    claims: Seq<Seq<state::Route>>,
    polls: Seq<state::ChildPoll>,
)
    requires
        is_balanced(projects, leased, claims),
        polls.len() == projects.len(),
    ensures
        is_balanced(
            state::with_process(projects, polls, true),
            leased,
            claims + state::with_process(projects, polls, false).map_values(
                |p: state::Running| p.bound,
            ),
        ),
{
    lemma_places(projects, polls, true);
    lemma_places(projects, polls, false);
    let kept = state::with_process(projects, polls, true);
    let dead = state::with_process(projects, polls, false);
    let at = places(polls, projects.len(), true);
    let from = places(polls, projects.len(), false);
    let n = claims.len();
    let all = claims + dead.map_values(|p: state::Running| p.bound);
    assert forall|a: int| 0 <= a < kept.len() implies state::holds_ports(
        (#[trigger] kept[a]).bound,
        leased,
    ) by {
        assert(kept[a] == projects[at[a]]);
    }
    assert forall|a: int, b: int| 0 <= a < b < kept.len() implies (#[trigger] kept[a]).name != (
    #[trigger] kept[b]).name && state::host_ports(kept[a].bound).disjoint(
        state::host_ports(kept[b].bound),
    ) by {
        assert(kept[a] == projects[at[a]]);
        assert(kept[b] == projects[at[b]]);
    }
    assert forall|k: int| 0 <= k < all.len() implies state::holds_ports(
        #[trigger] all[k],
        leased,
    ) by {
        if k < n {
            assert(all[k] == claims[k]);
        } else {
            assert(all[k] == projects[from[k - n]].bound);
        }
    }
    assert forall|k: int, l: int| 0 <= k < l < all.len() implies state::host_ports(
        #[trigger] all[k],
    ).disjoint(state::host_ports(#[trigger] all[l])) by {
        if l < n {
            assert(all[k] == claims[k]);
            assert(all[l] == claims[l]);
        } else if k < n {
            assert(all[k] == claims[k]);
            assert(all[l] == projects[from[l - n]].bound);
        } else {
            assert(from[k - n] < from[l - n]);
            assert(all[k] == projects[from[k - n]].bound);
            assert(all[l] == projects[from[l - n]].bound);
        }
    }
    assert forall|a: int, k: int|
        0 <= a < kept.len() && 0 <= k < all.len() implies state::host_ports(
        (#[trigger] kept[a]).bound,
    ).disjoint(state::host_ports(#[trigger] all[k])) by {
        assert(kept[a] == projects[at[a]]);
        if k < n {
            assert(all[k] == claims[k]);
        } else {
            let m = from[k - n];
            assert(all[k] == projects[m].bound);
            if at[a] < m {
                assert(state::host_ports(projects[at[a]].bound).disjoint(
                    state::host_ports(projects[m].bound),
                ));
            } else {
                assert(state::host_ports(projects[m].bound).disjoint(
                    state::host_ports(projects[at[a]].bound),
                ));
            }
        }
    }
}

/// Binding the services of a project and giving them up again leaves the
/// leases as they were.
pub proof fn giving_up_undoes_binding<F: Fn(u16) -> Probe>(
    leased: Set<u16>,
    bound: Seq<state::Route>,
    services: Seq<devenv::Service>,
    probe: F,
)
    requires
        bind::is_binding(bound, services, leased, probe),
    ensures
        leased.union(state::host_ports(bound)).difference(state::host_ports(bound)) == leased,
{
    bind::bound_ports_fresh(bound, services, leased, probe);
    assert(leased.union(state::host_ports(bound)).difference(state::host_ports(bound)) =~= leased);
}

} // verus!
