//! Stopping the processes of a project.
use crate::text;
use crate::words;
use std::collections::HashSet;
use vstd::prelude::*;
use vstd::string::*;
use vstd::utf8::*;

verus! {

broadcast use vstd::std_specs::hash::group_hash_axioms;

/// The process group to signal for the group that a process leads. Groups 0
/// and 1 are those of the daemon and of init: they are never signalled.
pub fn signal_group(pid: u32) -> (r: Result<i32, String>)
    ensures
        match r {
            Ok(pgid) => 1 < pid <= i32::MAX && pgid == pid,
            Err(m) => {
                &&& pid <= 1 || pid > i32::MAX
                &&& m@ == "refusing to signal process group "@ + text::decimal(pid as nat)
            },
        },
{
    if pid <= 1 || pid > i32::MAX as u32 {
        Err(
            "refusing to signal process group ".to_owned().concat(
                text::decimal_text(pid as u64).as_str(),
            ),
        )
    } else {
        Ok(pid as i32)
    }
}

/// Those processes of a list that may be signalled, in order: not 0 and 1.
pub open spec fn may_signal(pids: Seq<u32>) -> Seq<u32> {
    pids.filter(|p: u32| p > 1)
}

/// Those processes of a list that may be signalled, in order.
pub fn signal_pids(pids: &Vec<u32>) -> (r: Vec<u32>)
    ensures
        r@ == may_signal(pids@),
{
    let mut r: Vec<u32> = Vec::new();
    proof {
        reveal(Seq::filter);
    }
    for i in 0..pids.len()
        invariant
            r@ == may_signal(pids@.take(i as int)),
    {
        proof {
            reveal(Seq::filter);
        }
        assert(pids@.take(i + 1).drop_last() == pids@.take(i as int));
        assert(pids@.take(i + 1).last() == pids@[i as int]);
        if pids[i] > 1 {
            r.push(pids[i]);
        }
    }
    assert(pids@.take(pids@.len() as int) == pids@);
    r
}

// ---------------------------------------------------------------------------
// Descendants
// ---------------------------------------------------------------------------
/// The processes that a list of children names. What is no number is skipped.
pub open spec fn named_children(list: Seq<Seq<char>>) -> Seq<u32>
    decreases list.len(),
{
    if list.len() == 0 {
        Seq::empty()
    } else {
        let rest = named_children(list.drop_last());
        match text::number(list.last(), 0xffff_ffff) {
            Some(p) => rest.push(p as u32),
            None => rest,
        }
    }
}

/// The processes that the text of a list of children names.
pub open spec fn children_in(raw: Seq<char>) -> Seq<u32> {
    named_children(words::words(raw))
}

fn read_children(raw: &str) -> (r: Vec<u32>)
    ensures
        r@ == children_in(raw@),
{
    let names = words::split_words(&text::to_chars(raw));
    let ghost all = text::views(names@);
    let mut r: Vec<u32> = Vec::new();
    for i in 0..names.len()
        invariant
            all == text::views(names@),
            r@ == named_children(all.take(i as int)),
    {
        assert(all.take(i + 1).drop_last() == all.take(i as int));
        if let Some(p) = text::parse_number(&text::to_chars(names[i].as_str()), 0xffff_ffff) {
            r.push(p as u32);
        }
    }
    assert(all.take(all.len() as int) == all);
    r
}

/// Whether asking for the children of a process can have given `kids`: those
/// that the text names, or none if there is no text.
pub open spec fn can_have<F: Fn(u32) -> Option<String>>(pid: u32, kids: Seq<u32>, children: F) -> bool {
    ||| children.ensures((pid,), None) && kids.len() == 0
    ||| exists|raw: String| #[trigger] children.ensures((pid,), Some(raw)) && kids == children_in(
        raw@,
    )
}

/// Whether every child that was reported for `pid` is the root or in the list.
pub open spec fn is_explored<F: Fn(u32) -> Option<String>>(
    pid: u32,
    root: u32,
    list: Seq<u32>,
    children: F,
) -> bool {
    exists|kids: Seq<u32>| #[trigger]
        can_have(pid, kids, children) && forall|i: int|
            0 <= i < kids.len() ==> #[trigger] kids[i] == root || list.contains(kids[i])
}

/// Whether `pid` was reported as a child of the root or of one of the first
/// `n` of the list.
pub open spec fn is_reported<F: Fn(u32) -> Option<String>>(
    pid: u32,
    root: u32,
    list: Seq<u32>,
    n: int,
    children: F,
) -> bool {
    exists|parent: u32, kids: Seq<u32>|
        (parent == root || list.take(n).contains(parent)) && #[trigger] can_have(
            parent,
            kids,
            children,
        ) && kids.contains(pid)
}

/// Whether a list is the descendants of `root`: each once and without the
/// root, each reported as a child of the root or of one further to the front,
/// and with no child of any of them missing.
pub open spec fn are_descendants<F: Fn(u32) -> Option<String>>(
    root: u32,
    list: Seq<u32>,
    children: F,
) -> bool {
    &&& list.no_duplicates()
    &&& !list.contains(root)
    &&& forall|n: int|
        0 <= n < list.len() ==> is_reported(#[trigger] list[n], root, list, n, children)
    &&& is_explored(root, root, list, children)
    &&& forall|n: int|
        0 <= n < list.len() ==> is_explored(#[trigger] list[n], root, list, children)
}

proof fn lemma_few(list: Seq<u32>)
    requires
        list.no_duplicates(),
    ensures
        list.len() <= 0x1_0000_0000,
{
    let ints = list.map_values(|p: u32| p as int);
    assert forall|i: int, j: int| 0 <= i < ints.len() && 0 <= j < ints.len() && i != j implies ints[i]
        != ints[j] by {
        assert(list[i] != list[j]);
    }
    ints.unique_seq_to_set();
    let all = vstd::set_lib::set_int_range(0, 0x1_0000_0000);
    vstd::set_lib::lemma_int_range(0, 0x1_0000_0000);
    assert forall|x: int| ints.to_set().contains(x) implies all.contains(x) by {
        let i = ints.index_of(x);
        assert(ints[i] == x);
        assert(ints[i] == list[i] as int);
    }
    vstd::set_lib::lemma_len_subset(ints.to_set(), all);
}

proof fn lemma_explored_push<F: Fn(u32) -> Option<String>>(
    pid: u32,
    root: u32,
    list: Seq<u32>,
    more: u32,
    children: F,
)
    requires
        is_explored(pid, root, list, children),
    ensures
        is_explored(pid, root, list.push(more), children),
{
    let kids = choose|kids: Seq<u32>| #[trigger]
        can_have(pid, kids, children) && forall|i: int|
            0 <= i < kids.len() ==> #[trigger] kids[i] == root || list.contains(kids[i]);
    assert forall|i: int| 0 <= i < kids.len() implies #[trigger] kids[i] == root || list.push(
        more,
    ).contains(kids[i]) by {
        if list.contains(kids[i]) {
            let k = list.index_of(kids[i]);
            assert(list.push(more)[k] == kids[i]);
        }
    }
    assert(can_have(pid, kids, children));
}

/// Every descendant of a process, given how to ask for the children of a
/// process. It has to be asked while the processes are alive.
pub fn collect_descendants<F: Fn(u32) -> Option<String>>(root: u32, children: &F) -> (r: Vec<u32>)
    requires
        forall|p: u32| children.requires((p,)),
    ensures
        are_descendants(root, r@, *children),
{
    let mut list: Vec<u32> = Vec::new();
    let mut seen: HashSet<u32> = HashSet::new();
    seen.insert(root);
    let mut queue: Vec<u32> = Vec::new();
    queue.push(root);
    assert(queue@[0] == root);
    while queue.len() > 0
        invariant
            forall|p: u32| children.requires((p,)),
            list@.no_duplicates(),
            forall|x: u32| #[trigger] seen@.contains(x) <==> x == root || list@.contains(x),
            !list@.contains(root),
            forall|n: int|
                0 <= n < list@.len() ==> is_reported(#[trigger] list@[n], root, list@, n, *children),
            forall|k: int| 0 <= k < queue@.len() ==> seen@.contains(#[trigger] queue@[k]),
            forall|x: u32| #[trigger]
                seen@.contains(x) && !queue@.contains(x) ==> is_explored(x, root, list@, *children),
        decreases 2 * (0x1_0000_0000 - list@.len()) + queue@.len(),
    {
        let ghost full = queue@;
        let pid: u32 = queue[queue.len() - 1];
        queue.pop();
        proof {
            assert(queue@ == full.drop_last());
            assert forall|x: u32| #[trigger]
                seen@.contains(x) && !queue@.contains(x) && x != pid implies is_explored(
                x,
                root,
                list@,
                *children,
            ) by {
                if full.contains(x) {
                    let k = full.index_of(x);
                    if k < queue@.len() {
                        assert(queue@[k] == x);
                    }
                }
            }
            assert forall|k: int| 0 <= k < queue@.len() implies seen@.contains(
                #[trigger] queue@[k],
            ) by {
                assert(seen@.contains(full[k]));
            }
            assert(seen@.contains(full[full.len() - 1]));
        }
        let ghost measure = 2 * (0x1_0000_0000 - list@.len()) + queue@.len();
        proof {
            lemma_few(list@);
        }
        assert(seen@.contains(pid));
        let kids: Vec<u32> = match children(pid) {
            Some(raw) => read_children(raw.as_str()),
            None => Vec::new(),
        };
        assert(can_have(pid, kids@, *children));
        for j in 0..kids.len()
            invariant
                can_have(pid, kids@, *children),
                seen@.contains(pid),
                list@.no_duplicates(),
                forall|x: u32| #[trigger] seen@.contains(x) <==> x == root || list@.contains(x),
                !list@.contains(root),
                forall|n: int|
                    0 <= n < list@.len() ==> is_reported(
                        #[trigger] list@[n],
                        root,
                        list@,
                        n,
                        *children,
                    ),
                forall|k: int| 0 <= k < queue@.len() ==> seen@.contains(#[trigger] queue@[k]),
                forall|x: u32| #[trigger]
                    seen@.contains(x) && !queue@.contains(x) && x != pid ==> is_explored(
                        x,
                        root,
                        list@,
                        *children,
                    ),
                forall|i: int|
                    0 <= i < j ==> #[trigger] kids@[i] == root || list@.contains(kids@[i]),
                2 * (0x1_0000_0000 - list@.len()) + queue@.len() <= measure,
        {
            let child: u32 = kids[j];
            let ghost before = list@;
            let ghost waiting = queue@;
            let ghost known = seen@;
            if seen.insert(child) {
                list.push(child);
                queue.push(child);
                proof {
                    assert(list@ == before.push(child));
                    assert(queue@ == waiting.push(child));
                    assert(!known.contains(child));
                    assert forall|x: u32| #[trigger]
                        seen@.contains(x) <==> x == root || list@.contains(x) by {
                        if before.contains(x) {
                            let k = before.index_of(x);
                            assert(list@[k] == x);
                        }
                        if list@.contains(x) {
                            let k = list@.index_of(x);
                            if k < before.len() {
                                assert(before[k] == x);
                            }
                        }
                        assert(list@[before.len() as int] == child);
                        assert(known.contains(x) <==> x == root || before.contains(x));
                    }
                    assert forall|n: int| 0 <= n < list@.len() implies is_reported(
                        #[trigger] list@[n],
                        root,
                        list@,
                        n,
                        *children,
                    ) by {
                        if n < before.len() {
                            assert(list@.take(n) == before.take(n));
                            assert(before[n] == list@[n]);
                        } else {
                            assert(list@.take(n) == before);
                            assert(kids@.contains(child));
                            assert(pid == root || before.contains(pid));
                        }
                    }
                    assert forall|x: u32| #[trigger]
                        seen@.contains(x) && !queue@.contains(x) && x != pid implies is_explored(
                        x,
                        root,
                        list@,
                        *children,
                    ) by {
                        assert(queue@[waiting.len() as int] == child);
                        assert(x != child);
                        assert(known.contains(x));
                        if waiting.contains(x) {
                            let k = waiting.index_of(x);
                            assert(queue@[k] == x);
                        }
                        lemma_explored_push(x, root, before, child, *children);
                    }
                    assert forall|i: int| 0 <= i < j + 1 implies #[trigger] kids@[i] == root
                        || list@.contains(kids@[i]) by {
                        if i < j && before.contains(kids@[i]) {
                            let k = before.index_of(kids@[i]);
                            assert(list@[k] == kids@[i]);
                        }
                        if i == j {
                            assert(list@[before.len() as int] == child);
                        }
                    }
                    assert forall|k: int| 0 <= k < queue@.len() implies seen@.contains(
                        #[trigger] queue@[k],
                    ) by {
                        if k < waiting.len() {
                            assert(known.contains(waiting[k]));
                        }
                    }
                }
            } else {
                assert(seen@ =~= known);
            }
        }
        proof {
            lemma_few(list@);
            assert(is_explored(pid, root, list@, *children));
        }
    }
    proof {
        assert(queue@.len() == 0);
        assert(seen@.contains(root));
        assert forall|n: int| 0 <= n < list@.len() implies is_explored(
            #[trigger] list@[n],
            root,
            list@,
            *children,
        ) by {
            assert(seen@.contains(list@[n]));
        }
    }
    list
}

// ---------------------------------------------------------------------------
// Waiting
// ---------------------------------------------------------------------------
/// Those of a list whose flag is set, in order.
pub open spec fn flagged(list: Seq<u32>, flags: Seq<bool>) -> Seq<u32>
    decreases list.len(),
{
    if list.len() == 0 {
        Seq::empty()
    } else {
        let rest = flagged(list.drop_last(), flags);
        if flags[list.len() - 1] {
            rest.push(list.last())
        } else {
            rest
        }
    }
}

proof fn lemma_flagged_push(list: Seq<u32>, flags: Seq<bool>, flag: bool)
    requires
        flags.len() >= list.len(),
    ensures
        flagged(list, flags.push(flag)) == flagged(list, flags),
    decreases list.len(),
{
    if list.len() > 0 {
        lemma_flagged_push(list.drop_last(), flags, flag);
    }
}

/// Whether asking after each process can have given these flags.
pub open spec fn are_answers<F: Fn(u32) -> bool>(list: Seq<u32>, flags: Seq<bool>, alive: F) -> bool {
    &&& flags.len() == list.len()
    &&& forall|i: int| 0 <= i < list.len() ==> alive.ensures((#[trigger] list[i],), flags[i])
}

/// Those processes of a list that are alive, in order, given how to ask after
/// one.
pub fn still_alive<F: Fn(u32) -> bool>(pids: &Vec<u32>, alive: &F) -> (r: Vec<u32>)
    requires
        forall|p: u32| alive.requires((p,)),
    ensures
        exists|flags: Seq<bool>| #[trigger]
            are_answers(pids@, flags, *alive) && r@ == flagged(pids@, flags),
{
    let mut r: Vec<u32> = Vec::new();
    let ghost mut flags = Seq::<bool>::empty();
    for i in 0..pids.len()
        invariant
            forall|p: u32| alive.requires((p,)),
            flags.len() == i,
            forall|j: int| 0 <= j < i ==> alive.ensures((#[trigger] pids@[j],), flags[j]),
            r@ == flagged(pids@.take(i as int), flags),
    {
        assert(pids@.take(i + 1).drop_last() == pids@.take(i as int));
        let flag = alive(pids[i]);
        proof {
            lemma_flagged_push(pids@.take(i as int), flags, flag);
            flags = flags.push(flag);
        }
        if flag {
            r.push(pids[i]);
        }
    }
    assert(pids@.take(pids@.len() as int) == pids@);
    assert(are_answers(pids@, flags, *alive));
    r
}

/// Whether to look again for processes that are to go, after `elapsed_ms` of
/// `deadline_ms`.
pub fn keep_waiting(alive: &Vec<u32>, elapsed_ms: u64, deadline_ms: u64) -> (r: bool)
    ensures
        r == (alive@.len() > 0 && elapsed_ms < deadline_ms),
{
    alive.len() > 0 && elapsed_ms < deadline_ms
}

// ---------------------------------------------------------------------------
// Stragglers
// ---------------------------------------------------------------------------
/// The entry in the environment by which the processes of a project are
/// known.
pub open spec fn marker(runtime: Seq<char>) -> Seq<char> {
    "NEALS_RUNTIME="@ + runtime
}

/// Whether an environment, a list of entries that end with a zero byte, holds
/// an entry at the bytes from `a` to `b`.
pub open spec fn entry_at(env: Seq<u8>, entry: Seq<u8>, a: int, b: int) -> bool {
    &&& 0 <= a <= b <= env.len()
    &&& a == 0 || env[a - 1] == 0
    &&& b == env.len() || env[b] == 0
    &&& env.subrange(a, b) == entry
    &&& !entry.contains(0)
}

/// Whether an environment holds an entry.
pub open spec fn has_entry(env: Seq<u8>, entry: Seq<u8>) -> bool {
    exists|a: int, b: int| #[trigger] entry_at(env, entry, a, b)
}

fn matches_at(env: &Vec<u8>, entry: &[u8], a: usize, b: usize) -> (r: bool)
    requires
        a <= b <= env@.len(),
    ensures
        r == (env@.subrange(a as int, b as int) == entry@),
{
    let ghost part = env@.subrange(a as int, b as int);
    if entry.len() != b - a {
        assert(part.len() != entry@.len());
        return false;
    }
    for i in 0..entry.len()
        invariant
            a <= b <= env@.len(),
            entry@.len() == b - a,
            part == env@.subrange(a as int, b as int),
            forall|j: int| 0 <= j < i ==> part[j] == entry@[j],
    {
        if env[a + i] != entry[i] {
            assert(part[i as int] != entry@[i as int]);
            return false;
        }
    }
    assert(part == entry@);
    true
}

/// Whether an environment holds an entry.
fn holds_entry(env: &Vec<u8>, entry: &[u8]) -> (r: bool)
    ensures
        r == has_entry(env@, entry@),
{
    let mut start: usize = 0;
    for i in 0..env.len()
        invariant
            start <= i <= env@.len(),
            start == 0 || env@[start - 1] == 0,
            forall|j: int| start <= j < i ==> #[trigger] env@[j] != 0,
            forall|a: int, b: int| a < start ==> !#[trigger] entry_at(env@, entry@, a, b),
    {
        if env[i] == 0 {
            let ghost part = env@.subrange(start as int, i as int);
            if matches_at(env, entry, start, i) {
                assert(!entry@.contains(0)) by {
                    if entry@.contains(0) {
                        let k = entry@.index_of(0);
                        assert(part[k] == env@[start + k]);
                    }
                }
                assert(entry_at(env@, entry@, start as int, i as int));
                return true;
            }
            assert forall|a: int, b: int| a < i + 1 implies !#[trigger] entry_at(
                env@,
                entry@,
                a,
                b,
            ) by {
                if a >= start && entry_at(env@, entry@, a, b) {
                    if a > start {
                        assert(env@[a - 1] != 0);
                    } else if b > i {
                        assert(env@.subrange(a, b)[i - a] == 0);
                        assert(entry@[i - a] == 0);
                    } else if b < i {
                        assert(env@[b] != 0);
                    }
                }
            }
            start = i + 1;
        }
    }
    let end: usize = env.len();
    let ghost part = env@.subrange(start as int, end as int);
    if matches_at(env, entry, start, end) {
        assert(!entry@.contains(0)) by {
            if entry@.contains(0) {
                let k = entry@.index_of(0);
                assert(part[k] == env@[start + k]);
            }
        }
        assert(entry_at(env@, entry@, start as int, end as int));
        true
    } else {
        assert forall|a: int, b: int| !#[trigger] entry_at(env@, entry@, a, b) by {
            if a >= start && entry_at(env@, entry@, a, b) {
                if a > start {
                    assert(env@[a - 1] != 0);
                } else if b < end {
                    assert(env@[b] != 0);
                }
            }
        }
        false
    }
}

/// Whether a name in the directory of processes can stand for a straggler, and
/// for which process: it is a number above 1, and the environment of that
/// process holds the marker.
pub open spec fn can_be_straggler<F: Fn(u32) -> Option<Vec<u8>>>(
    name: Seq<char>,
    found: Option<u32>,
    entry: Seq<u8>,
    environ: F,
) -> bool {
    match (text::number(name, 0xffff_ffff), found) {
        (None, f) => f is None,
        (Some(n), f) => if n <= 1 {
            f is None
        } else {
            ||| f is None && environ.ensures((n as u32,), None)
            ||| exists|env: Vec<u8>| #[trigger]
                environ.ensures((n as u32,), Some(env)) && f == if has_entry(env@, entry) {
                    Some(n as u32)
                } else {
                    None
                }
        },
    }
}

/// The processes that were found, in order.
pub open spec fn found_pids(list: Seq<Option<u32>>) -> Seq<u32>
    decreases list.len(),
{
    if list.len() == 0 {
        Seq::empty()
    } else {
        match list.last() {
            Some(p) => found_pids(list.drop_last()).push(p),
            None => found_pids(list.drop_last()),
        }
    }
}

/// Whether each name can have given what was found for it.
pub open spec fn are_findings<F: Fn(u32) -> Option<Vec<u8>>>(
    names: Seq<Seq<char>>,
    found: Seq<Option<u32>>,
    entry: Seq<u8>,
    environ: F,
) -> bool {
    &&& found.len() == names.len()
    &&& forall|i: int|
        0 <= i < names.len() ==> can_be_straggler(#[trigger] names[i], found[i], entry, environ)
}

fn check_straggler<F: Fn(u32) -> Option<Vec<u8>>>(name: &str, entry: &[u8], environ: &F) -> (r:
    Option<u32>)
    requires
        forall|p: u32| environ.requires((p,)),
    ensures
        can_be_straggler(name@, r, entry@, *environ),
{
    let pid = match text::parse_number(&text::to_chars(name), 0xffff_ffff) {
        Some(p) => p as u32,
        None => {
            return None;
        },
    };
    if pid <= 1 {
        return None;
    }
    match environ(pid) {
        None => None,
        Some(env) => if holds_entry(&env, entry) {
            Some(pid)
        } else {
            None
        },
    }
}

/// The processes that still carry the marker of a project, given the names in
/// the directory of processes and how to read the environment of one.
pub fn find_stragglers<F: Fn(u32) -> Option<Vec<u8>>>(
    names: &Vec<String>,
    runtime: &str,
    environ: &F,
) -> (r: Vec<u32>)
    requires
        forall|p: u32| environ.requires((p,)),
    ensures
        exists|found: Seq<Option<u32>>| #[trigger]
            are_findings(
                text::views(names@),
                found,
                encode_utf8(marker(runtime@)),
                *environ,
            ) && r@ == found_pids(found),
{
    let mark = "NEALS_RUNTIME=".to_owned().concat(runtime);
    let entry = mark.as_str().as_bytes();
    let ghost all = text::views(names@);
    let mut r: Vec<u32> = Vec::new();
    let ghost mut found = Seq::<Option<u32>>::empty();
    for i in 0..names.len()
        invariant
            forall|p: u32| environ.requires((p,)),
            all == text::views(names@),
            entry@ == encode_utf8(marker(runtime@)),
            found.len() == i,
            forall|j: int|
                0 <= j < i ==> can_be_straggler(#[trigger] all[j], found[j], entry@, *environ),
            r@ == found_pids(found),
    {
        let hit = check_straggler(names[i].as_str(), entry, environ);
        let ghost before = found;
        proof {
            found = found.push(hit);
            assert(found.drop_last() == before);
        }
        if let Some(pid) = hit {
            r.push(pid);
        }
    }
    assert(are_findings(all, found, encode_utf8(marker(runtime@)), *environ));
    r
}

/// The notice on `n` stragglers.
pub open spec fn sweeping(n: nat, runtime: Seq<char>) -> Seq<char> {
    "sweeping "@ + text::decimal(n) + " stray process(es) still carrying "@ + marker(runtime)
}

/// The notice on stragglers, if there are any.
pub fn sweep_notice(strays: &Vec<u32>, runtime: &str) -> (r: Option<String>)
    ensures
        match r {
            None => strays@.len() == 0,
            Some(m) => strays@.len() > 0 && m@ == sweeping(strays@.len(), runtime@),
        },
{
    if strays.len() == 0 {
        None
    } else {
        let mark = "NEALS_RUNTIME=".to_owned().concat(runtime);
        Some(
            "sweeping ".to_owned().concat(text::decimal_text(strays.len() as u64).as_str()).concat(
                " stray process(es) still carrying ",
            ).concat(mark.as_str()),
        )
    }
}

// ---------------------------------------------------------------------------
// Stopping a project
// ---------------------------------------------------------------------------
/// What is being waited for.
#[derive(Debug, Clone, Copy, PartialEq, Eq, Structural)]
pub enum StopStage {
    Terminated,
    Collecting,
    Killed,
    Leaving,
    Finished,
}

/// What to do next.
#[derive(Debug, PartialEq, Eq)]
pub enum StopAction {
    /// Ask the group and these processes to end, then give the process that
    /// was spawned two seconds.
    Terminate(Vec<u32>),
    /// Collect the descendants once more.
    Collect,
    /// Kill the group, these processes and the one that was spawned, then give
    /// that one two seconds.
    Kill(Vec<u32>),
    /// Give these processes three seconds to go.
    AwaitGone(Vec<u32>),
    /// Kill `pids` and give `left` two seconds to go.
    KillSurvivors { pids: Vec<u32>, left: Vec<u32>, notice: String },
    Finish,
}

/// A project whose processes are being stopped.
#[derive(Debug)]
pub struct StopFlow {
    /// Its descendants before anything was signalled. Those in a session of
    /// their own are not reached through the group.
    pub marked: Vec<u32>,
    pub stage: StopStage,
}

/// A copy of a list of processes.
fn copy_pids(list: &Vec<u32>) -> (r: Vec<u32>)
    ensures
        r@ == list@,
{
    let mut r: Vec<u32> = Vec::new();
    for i in 0..list.len()
        invariant
            r@ == list@.take(i as int),
    {
        r.push(list[i]);
        assert(list@.take(i + 1) == list@.take(i as int).push(list@[i as int]));
    }
    assert(list@.take(list@.len() as int) == list@);
    r
}

impl StopFlow {
    /// Starts to stop a project with these descendants.
    pub fn begin(marked: Vec<u32>) -> (r: (StopFlow, StopAction))
        ensures
            r.0.stage == StopStage::Terminated,
            r.0.marked@ == marked@,
            r.1 matches StopAction::Terminate(pids) && pids@ == may_signal(marked@),
    {
        let pids = signal_pids(&marked);
        (StopFlow { marked, stage: StopStage::Terminated }, StopAction::Terminate(pids))
    }

    /// Whether the process that was spawned has ended in time.
    pub fn on_wait(&mut self, exited: bool) -> (r: StopAction)
        requires
            old(self).stage == StopStage::Terminated,
        ensures
            final(self).marked@ == old(self).marked@,
            if exited {
                &&& final(self).stage == StopStage::Leaving
                &&& r matches StopAction::AwaitGone(pids) && pids@ == old(self).marked@
            } else {
                &&& final(self).stage == StopStage::Collecting
                &&& r is Collect
            },
    {
        if exited {
            self.stage = StopStage::Leaving;
            StopAction::AwaitGone(copy_pids(&self.marked))
        } else {
            self.stage = StopStage::Collecting;
            StopAction::Collect
        }
    }

    /// The descendants at this point, among them those that came up since.
    pub fn on_collected(&mut self, more: &Vec<u32>) -> (r: StopAction)
        requires
            old(self).stage == StopStage::Collecting,
        ensures
            final(self).marked@ == old(self).marked@,
            final(self).stage == StopStage::Killed,
            r matches StopAction::Kill(pids) && pids@ == may_signal(old(self).marked@ + more@),
    {
        let mut all = copy_pids(&self.marked);
        let mut rest = copy_pids(more);
        all.append(&mut rest);
        assert(all@ == self.marked@ + more@);
        self.stage = StopStage::Killed;
        StopAction::Kill(signal_pids(&all))
    }

    /// The time after killing is over.
    pub fn on_killed(&mut self) -> (r: StopAction)
        requires
            old(self).stage == StopStage::Killed,
        ensures
            final(self).marked@ == old(self).marked@,
            final(self).stage == StopStage::Leaving,
            r matches StopAction::AwaitGone(pids) && pids@ == old(self).marked@,
    {
        self.stage = StopStage::Leaving;
        StopAction::AwaitGone(copy_pids(&self.marked))
    }

    /// Those processes that are still there.
    pub fn on_gone(&mut self, survivors: &Vec<u32>) -> (r: StopAction)
        requires
            old(self).stage == StopStage::Leaving,
        ensures
            final(self).marked@ == old(self).marked@,
            final(self).stage == StopStage::Finished,
            if survivors@.len() == 0 {
                r is Finish
            } else {
                &&& r matches StopAction::KillSurvivors { pids, left, notice }
                &&& pids@ == may_signal(survivors@)
                &&& left@ == survivors@
                &&& notice@ == "project tree did not exit after TERM; killing "@ + text::decimal(
                    survivors@.len(),
                ) + " straggler(s)"@
            },
    {
        self.stage = StopStage::Finished;
        if survivors.len() == 0 {
            StopAction::Finish
        } else {
            let notice = "project tree did not exit after TERM; killing ".to_owned().concat(
                text::decimal_text(survivors.len() as u64).as_str(),
            ).concat(" straggler(s)");
            let left = copy_pids(survivors);
            StopAction::KillSurvivors { pids: signal_pids(survivors), left, notice }
        }
    }
}

/// What to do next while the stragglers of a project are swept up.
#[derive(Debug, Clone, PartialEq, Eq)]
pub enum SweepAction {
    /// Ask `pids` to end and give `strays` two seconds to go.
    Terminate { notice: String, pids: Vec<u32>, strays: Vec<u32> },
    /// Kill `pids` and give `left` two seconds to go.
    Kill { pids: Vec<u32>, left: Vec<u32> },
    /// Nothing more.
    Finish,
}

/// How far the sweep of a project has come.
#[derive(Debug, Clone, Copy, PartialEq, Eq, Structural)]
pub enum SweepStage {
    Terminated,
    Killed,
    Finished,
}

/// The stragglers of a project being swept up.
#[derive(Debug)]
pub struct SweepFlow {
    pub stage: SweepStage,
}

impl SweepFlow {
    /// Starts to sweep up these stragglers.
    pub fn begin(strays: &Vec<u32>, runtime: &str) -> (r: (SweepFlow, SweepAction))
        ensures
            if strays@.len() == 0 {
                r.0.stage == SweepStage::Finished && r.1 is Finish
            } else {
                &&& r.0.stage == SweepStage::Terminated
                &&& r.1 matches SweepAction::Terminate { notice, pids, strays: all }
                &&& notice@ == sweeping(strays@.len(), runtime@)
                &&& pids@ == may_signal(strays@)
                &&& all@ == strays@
            },
    {
        match sweep_notice(strays, runtime) {
            None => (SweepFlow { stage: SweepStage::Finished }, SweepAction::Finish),
            Some(notice) => (
                SweepFlow { stage: SweepStage::Terminated },
                SweepAction::Terminate {
                    notice,
                    pids: signal_pids(strays),
                    strays: copy_pids(strays),
                },
            ),
        }
    }

    /// Those that are still there after the wait.
    pub fn on_gone(&mut self, alive: &Vec<u32>) -> (r: SweepAction)
        requires
            old(self).stage == SweepStage::Terminated,
        ensures
            if alive@.len() == 0 {
                final(self).stage == SweepStage::Finished && r is Finish
            } else {
                &&& final(self).stage == SweepStage::Killed
                &&& r matches SweepAction::Kill { pids, left }
                &&& pids@ == may_signal(alive@)
                &&& left@ == alive@
            },
    {
        if alive.len() == 0 {
            self.stage = SweepStage::Finished;
            SweepAction::Finish
        } else {
            self.stage = SweepStage::Killed;
            SweepAction::Kill { pids: signal_pids(alive), left: copy_pids(alive) }
        }
    }

    /// The wait after killing is over.
    pub fn on_killed(&mut self) -> (r: SweepAction)
        requires
            old(self).stage == SweepStage::Killed,
        ensures
            final(self).stage == SweepStage::Finished,
            r is Finish,
    {
        self.stage = SweepStage::Finished;
        SweepAction::Finish
    }
}

} // verus!
