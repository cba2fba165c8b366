//! Leases on host ports.
use crate::text;
use std::collections::HashSet;
use vstd::prelude::*;
use vstd::string::*;

verus! {

broadcast use vstd::std_specs::hash::group_hash_axioms;

/// What trying to listen on a port of 127.0.0.1 came to. Port 0 asks the
/// system for any free port.
#[derive(Debug, Clone, PartialEq, Eq)]
pub enum Probe {
    /// Listening works; the port that was listened on.
    Bound(u16),
    /// The port cannot be listened on.
    Busy(String),
    /// Listening worked, but not finding out on which port.
    Broken(String),
}

/// How many times any free port is asked for.
pub const ANY_TRIES: u16 = 64;

/// How many ports are tried from the preferred one upward.
pub const PREFERRED_TRIES: u16 = 1024;

/// The TCP ports that running projects hold on the host.
#[derive(Debug)]
pub struct PortLeases {
    leased: HashSet<u16>,
}

impl View for PortLeases {
    type V = Set<u16>;

    closed spec fn view(&self) -> Set<u16> {
        self.leased@
    }
}

impl Default for PortLeases {
    fn default() -> (r: Self)
        ensures
            r@ == Set::<u16>::empty(),
    {
        PortLeases { leased: HashSet::new() }
    }
}

/// The message when asking for any free port gave leased ones only.
pub open spec fn none_free() -> Seq<char> {
    "failed to allocate a free TCP port on 127.0.0.1"@
}

/// The message when no port from `start` upward could be leased.
pub open spec fn none_free_from(start: u16) -> Seq<char> {
    "failed to allocate a free TCP port on 127.0.0.1 starting at "@ + text::decimal(start as nat)
}

/// Whether asking for any free port can end in `r`: the first port that was
/// not leased yet, an answer that was no port, or as many leased ports as
/// there are tries.
pub open spec fn any_outcome<F: Fn(u16) -> Probe>(
    r: Result<u16, String>,
    leased: Set<u16>,
    probe: F,
) -> bool {
    match r {
        Ok(port) => {
            &&& !leased.contains(port)
            &&& probe.ensures((0u16,), Probe::Bound(port))
        },
        Err(m) => {
            ||| probe.ensures((0u16,), Probe::Busy(m))
            ||| probe.ensures((0u16,), Probe::Broken(m))
            ||| {
                &&& m@ == none_free()
                &&& exists|answers: Seq<u16>|
                    answers.len() == ANY_TRIES && #[trigger] all_leased(answers, leased)
                        && forall|i: int|
                        0 <= i < answers.len() ==> probe.ensures(
                            (0u16,),
                            Probe::Bound(#[trigger] answers[i]),
                        )
            }
        },
    }
}

/// Whether every port of a list is leased.
pub open spec fn all_leased(ports: Seq<u16>, leased: Set<u16>) -> bool {
    forall|i: int| 0 <= i < ports.len() ==> leased.contains(#[trigger] ports[i])
}

/// Whether a port was passed over: it is leased, cannot be listened on, or
/// what was listened on is leased.
pub open spec fn passed_over<F: Fn(u16) -> Probe>(port: u16, leased: Set<u16>, probe: F) -> bool {
    ||| leased.contains(port)
    ||| exists|m: String| #[trigger] probe.ensures((port,), Probe::Busy(m))
    ||| exists|q: u16| #[trigger] probe.ensures((port,), Probe::Bound(q)) && leased.contains(q)
}

/// How many ports there are to try from `start` upward.
pub open spec fn tries_from(start: u16) -> int {
    if start + PREFERRED_TRIES <= 0x1_0000 {
        PREFERRED_TRIES as int
    } else {
        0x1_0000 - start
    }
}

/// Whether the search from `start` upward can end in `r` at the `n`-th port:
/// those below were passed over.
pub open spec fn preferred_outcome<F: Fn(u16) -> Probe>(
    r: Result<u16, String>,
    start: u16,
    leased: Set<u16>,
    probe: F,
    n: int,
) -> bool {
    &&& 0 <= n <= tries_from(start)
    &&& forall|p: u16|
        start <= p < start + n ==> #[trigger] passed_over(p, leased, probe)
    &&& match r {
        Ok(port) => {
            &&& n < tries_from(start)
            &&& !leased.contains((start + n) as u16)
            &&& !leased.contains(port)
            &&& probe.ensures(((start + n) as u16,), Probe::Bound(port))
        },
        Err(m) => {
            ||| n == tries_from(start) && m@ == none_free_from(start)
            ||| {
                &&& n < tries_from(start)
                &&& !leased.contains((start + n) as u16)
                &&& probe.ensures(((start + n) as u16,), Probe::Broken(m))
            }
        },
    }
}

/// Whether leasing a port from `start` upward, or any port if `start` is 0,
/// can end in `r`.
pub open spec fn lease_outcome<F: Fn(u16) -> Probe>(
    r: Result<u16, String>,
    start: u16,
    leased: Set<u16>,
    probe: F,
) -> bool {
    if start == 0 {
        any_outcome(r, leased, probe)
    } else {
        exists|n: int| #[trigger] preferred_outcome(r, start, leased, probe, n)
    }
}

/// The leases after an attempt: one more if it succeeded.
pub open spec fn leases_after(r: Result<u16, String>, leased: Set<u16>) -> Set<u16> {
    match r {
        Ok(port) => leased.insert(port),
        Err(_) => leased,
    }
}

impl PortLeases {
    /// Leases any free port.
    pub fn allocate<F: Fn(u16) -> Probe>(&mut self, probe: &F) -> (r: Result<u16, String>)
        requires
            forall|p: u16| probe.requires((p,)),
        ensures
            lease_outcome(r, 0, old(self)@, *probe),
            final(self)@ == leases_after(r, old(self)@),
    {
        let ghost mut answers = Seq::<u16>::empty();
        for i in 0..ANY_TRIES
            invariant
                forall|p: u16| probe.requires((p,)),
                self@ == old(self)@,
                answers.len() == i,
                all_leased(answers, self@),
                forall|j: int|
                    0 <= j < answers.len() ==> probe.ensures(
                        (0u16,),
                        Probe::Bound(#[trigger] answers[j]),
                    ),
        {
            match probe(0) {
                Probe::Bound(port) => {
                    if self.leased.insert(port) {
                        return Ok(port);
                    }
                    assert(self@ == old(self)@);
                    proof {
                        answers = answers.push(port);
                    }
                },
                Probe::Busy(m) => {
                    return Err(m);
                },
                Probe::Broken(m) => {
                    return Err(m);
                },
            }
        }
        assert(all_leased(answers, old(self)@));
        Err("failed to allocate a free TCP port on 127.0.0.1".to_owned())
    }

    /// Leases the first port from `start` upward that is neither leased nor
    /// in use.
    pub fn allocate_preferred<F: Fn(u16) -> Probe>(&mut self, start: u16, probe: &F) -> (r: Result<
        u16,
        String,
    >)
        requires
            forall|p: u16| probe.requires((p,)),
        ensures
            lease_outcome(r, start, old(self)@, *probe),
            final(self)@ == leases_after(r, old(self)@),
    {
        if start == 0 {
            return self.allocate(probe);
        }
        let tries: u16 = if start as u32 + PREFERRED_TRIES as u32 <= 0x1_0000 {
            PREFERRED_TRIES
        } else {
            (0x1_0000 - start as u32) as u16
        };
        for i in 0..tries
            invariant
                start > 0,
                tries == tries_from(start),
                forall|p: u16| probe.requires((p,)),
                self@ == old(self)@,
                forall|p: u16|
                    start <= p < start + i ==> #[trigger] passed_over(p, old(self)@, *probe),
        {
            let port: u16 = start + i;
            let ghost n = i as int;
            assert((start + n) as u16 == port);
            if !self.leased.contains(&port) {
                match probe(port) {
                    Probe::Bound(got) => {
                        if self.leased.insert(got) {
                            assert(preferred_outcome(Ok(got), start, old(self)@, *probe, n));
                            return Ok(got);
                        }
                        assert(self@ == old(self)@);
                        assert(passed_over(port, old(self)@, *probe));
                    },
                    Probe::Busy(m) => {
                        assert(passed_over(port, old(self)@, *probe));
                    },
                    Probe::Broken(m) => {
                        assert(preferred_outcome(Err(m), start, old(self)@, *probe, n));
                        return Err(m);
                    },
                }
            }
            assert(passed_over(port, old(self)@, *probe));
        }
        let m = "failed to allocate a free TCP port on 127.0.0.1 starting at ".to_owned().concat(
            text::decimal_text(start as u64).as_str(),
        );
        assert(preferred_outcome(Err(m), start, old(self)@, *probe, tries as int));
        Err(m)
    }

    /// Gives a lease up.
    pub fn release(&mut self, port: u16)
        ensures
            final(self)@ == old(self)@.remove(port),
    {
        self.leased.remove(&port);
    }

    /// Whether a port is leased.
    pub fn contains(&self, port: u16) -> (r: bool)
        ensures
            r == self@.contains(port),
    {
        self.leased.contains(&port)
    }
}

/// Whether listening on a given port means listening on that port.
pub open spec fn is_honest<F: Fn(u16) -> Probe>(probe: F) -> bool {
    forall|p: u16, q: u16| p != 0 && #[trigger] probe.ensures((p,), Probe::Bound(q)) ==> q == p
}

/// A port that is leased from a preferred one upward is that port or one of
/// those that follow it.
pub proof fn preferred_port_follows_start<F: Fn(u16) -> Probe>(
    port: u16,
    start: u16,
    leased: Set<u16>,
    probe: F,
)
    requires
        start > 0,
        is_honest(probe),
        lease_outcome(Ok(port), start, leased, probe),
    ensures
        start <= port < start + PREFERRED_TRIES,
        !leased.contains(port),
        forall|p: u16| start <= p < port ==> #[trigger] passed_over(p, leased, probe),
{
    let n = choose|n: int| #[trigger] preferred_outcome(Ok(port), start, leased, probe, n);
    assert(port == start + n);
}

} // verus!
