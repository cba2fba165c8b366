//! The processes of a project: which they are, and how they are stopped.
use crate::laws::texts;
use crate::process;
use crate::process::{StopAction, StopFlow, StopStage, SweepAction, SweepFlow, SweepStage};
use crate::text;
use crate::words;
use vstd::prelude::*;
use vstd::string::*;
use vstd::utf8::*;

verus! {

/// A group is signalled under the number of the process that leads it, and
/// neither that of the daemon nor that of init ever is.
pub proof fn group_to_signal(pid: u32, r: Result<i32, String>)
    requires
        call_ensures(process::signal_group, (pid,), r),
    ensures
        r matches Ok(g) ==> g == pid && g > 1,
        r is Ok <==> 1 < pid <= 0x7fff_ffff,
{
}

/// Of a list of processes all are signalled but 0 and 1, in order.
pub proof fn processes_to_signal(pids: &Vec<u32>, r: Vec<u32>, p: u32)
    requires
        call_ensures(process::signal_pids, (pids,), r),
    ensures
        r@.contains(p) <==> pids@.contains(p) && p > 1,
        (forall|i: int| 0 <= i < pids@.len() ==> #[trigger] pids@[i] > 1) ==> r@ == pids@,
{
    lemma_may_signal(pids@, p);
}

proof fn lemma_may_signal(pids: Seq<u32>, p: u32)
    ensures
        process::may_signal(pids).contains(p) <==> pids.contains(p) && p > 1,
        (forall|i: int| 0 <= i < pids.len() ==> #[trigger] pids[i] > 1) ==> process::may_signal(
            pids,
        ) == pids,
    decreases pids.len(),
{
    reveal(Seq::filter);
    if pids.len() > 0 {
        let front = pids.drop_last();
        lemma_may_signal(front, p);
        let rest = process::may_signal(front);
        let all = process::may_signal(pids);
        let n = pids.len() - 1;
        assert(pids[n] == pids.last());
        assert(forall|i: int| 0 <= i < n ==> front[i] == pids[i]);
        if all.contains(p) {
            let i = all.index_of(p);
            if i < rest.len() {
                assert(rest[i] == p);
                let k = front.index_of(p);
                assert(pids[k] == p);
            }
        }
        if pids.contains(p) && p > 1 {
            let i = pids.index_of(p);
            if i < n {
                assert(front[i] == p);
                let k = rest.index_of(p);
                assert(all[k] == p);
            } else {
                assert(all[rest.len() as int] == p);
            }
        }
        if forall|i: int| 0 <= i < pids.len() ==> #[trigger] pids[i] > 1 {
            assert forall|i: int| 0 <= i < front.len() implies #[trigger] front[i] > 1 by {
                assert(pids[i] > 1);
            }
            assert(front.push(pids.last()) == pids);
        }
    }
}

// ---------------------------------------------------------------------------
// Names in a text
// ---------------------------------------------------------------------------
/// Whether a word stands in a text, with white space or an end on either side.
pub open spec fn has_word(s: Seq<char>, w: Seq<char>) -> bool {
    exists|a: Seq<char>, b: Seq<char>| #[trigger] word_between(s, a, w, b)
}

/// Whether a text is a word with `a` in front of it and `b` behind it.
pub open spec fn word_between(s: Seq<char>, a: Seq<char>, w: Seq<char>, b: Seq<char>) -> bool {
    &&& s == a + w + b
    &&& w.len() > 0
    &&& forall|i: int| 0 <= i < w.len() ==> !text::is_space(#[trigger] w[i])
    &&& a.len() == 0 || text::is_space(a.last())
    &&& b.len() == 0 || text::is_space(b[0])
}

proof fn lemma_word_is_found(s: Seq<char>, a: Seq<char>, w: Seq<char>, b: Seq<char>)
    requires
        word_between(s, a, w, b),
    ensures
        words::words(s).contains(w),
{
    let t = w + b;
    assert(words::no_space(w));
    words::lemma_word_len(w, b);
    assert(t[0] == w[0]);
    assert(t.take(w.len() as int) == w);
    let tail = words::words(t.skip(w.len() as int));
    assert(words::words(t) == seq![w] + tail);
    assert(words::words(t)[0] == w);
    if a.len() == 0 {
        assert(s == t);
    } else {
        let front = a.drop_last();
        let c = a.last();
        assert(s == front + seq![c] + t);
        texts::lemma_words_of_two(front, c, t);
        let x = words::words(front);
        let y = words::words(t);
        assert((x + y)[x.len() as int] == w);
    }
}

proof fn lemma_found_is_word(s: Seq<char>, w: Seq<char>)
    requires
        words::words(s).contains(w),
    ensures
        has_word(s, w),
    decreases s.len(),
{
    let all = words::words(s);
    if s.len() == 0 {
    } else if text::is_space(s[0]) {
        lemma_found_is_word(s.skip(1), w);
        let (a, b) = choose|a: Seq<char>, b: Seq<char>| #[trigger]
            word_between(s.skip(1), a, w, b);
        let c = seq![s[0]] + a;
        assert(s == seq![s[0]] + s.skip(1));
        assert(s == c + w + b);
        if a.len() > 0 {
            assert(c.last() == a.last());
        } else {
            assert(c.last() == s[0]);
        }
        assert(word_between(s, c, w, b));
    } else {
        texts::lemma_word_is(s);
        let n = words::word_len(s) as int;
        let first = s.take(n);
        let rest = s.skip(n);
        let none = Seq::<char>::empty();
        assert(all == seq![first] + words::words(rest));
        let k = all.index_of(w);
        if k == 0 {
            assert(all[0] == first);
            assert(s == none + first + rest);
            assert forall|i: int| 0 <= i < first.len() implies !text::is_space(
                #[trigger] first[i],
            ) by {}
            if rest.len() > 0 {
                assert(rest[0] == s[n]);
            }
            assert(word_between(s, none, w, rest));
        } else {
            assert(all[k] == words::words(rest)[k - 1]);
            assert(words::words(rest).contains(w));
            lemma_found_is_word(rest, w);
            let (a, b) = choose|a: Seq<char>, b: Seq<char>| #[trigger] word_between(rest, a, w, b);
            let c = first + a;
            assert(s == first + rest);
            assert(s == c + w + b);
            if a.len() > 0 {
                assert(c.last() == a.last());
            } else {
                assert(rest[0] == w[0]);
                assert(rest.len() > 0);
                assert(rest[0] == s[n]);
                assert(!text::is_space(w[0]));
            }
            assert(word_between(s, c, w, b));
        }
    }
}

/// Whether a text is digits and stands for a process.
pub open spec fn writes_process(d: Seq<char>, p: u32) -> bool {
    &&& d.len() > 0
    &&& forall|i: int| 0 <= i < d.len() ==> '0' <= #[trigger] d[i] <= '9'
    &&& texts::reads(d) == p
}

/// Whether a text of digits, with at most a plus sign in front, stands for a
/// process.
pub open spec fn names_process(w: Seq<char>, p: u32) -> bool {
    if w.len() > 0 && w[0] == '+' {
        writes_process(w.skip(1), p)
    } else {
        writes_process(w, p)
    }
}

proof fn lemma_writes_process(d: Seq<char>, p: u32)
    ensures
        writes_process(d, p) <==> d.len() > 0 && text::all_digits(d) && text::digits_value(d) == p,
{
    texts::lemma_reads(d);
    if text::all_digits(d) {
        assert forall|i: int| 0 <= i < d.len() implies '0' <= #[trigger] d[i] <= '9' by {
            assert(text::is_digit(d[i]));
        }
    }
}

proof fn lemma_names_process(w: Seq<char>, p: u32)
    ensures
        names_process(w, p) <==> text::number(w, 0xffff_ffff) == Some(p as nat),
{
    lemma_writes_process(text::unsigned_part(w), p);
}

/// Whether a list of children, as the system writes it, names a process.
pub open spec fn lists_child(raw: Seq<char>, p: u32) -> bool {
    exists|w: Seq<char>| #[trigger] has_word(raw, w) && names_process(w, p)
}

proof fn lemma_named_children(list: Seq<Seq<char>>, p: u32)
    ensures
        process::named_children(list).contains(p) <==> exists|i: int|
            0 <= i < list.len() && names_process(#[trigger] list[i], p),
    decreases list.len(),
{
    let all = process::named_children(list);
    if list.len() > 0 {
        let front = list.drop_last();
        let n = list.len() - 1;
        let rest = process::named_children(front);
        lemma_named_children(front, p);
        lemma_names_process(list[n], p);
        assert(forall|i: int| 0 <= i < n ==> front[i] == list[i]);
        assert(list[n] == list.last());
        if rest.contains(p) {
            let k = rest.index_of(p);
            assert(all[k] == p);
            let i = choose|i: int| 0 <= i < front.len() && names_process(#[trigger] front[i], p);
            assert(names_process(list[i], p));
        }
        if all.contains(p) && !rest.contains(p) {
            let k = all.index_of(p);
            if k < rest.len() {
                assert(rest[k] == p);
            }
            assert(names_process(list[n], p));
        }
        if exists|i: int| 0 <= i < list.len() && names_process(#[trigger] list[i], p) {
            let i = choose|i: int| 0 <= i < list.len() && names_process(#[trigger] list[i], p);
            if i < n {
                assert(names_process(front[i], p));
            } else {
                assert(all[rest.len() as int] == p);
            }
        }
    }
}

proof fn lemma_lists_child(raw: Seq<char>, p: u32)
    ensures
        lists_child(raw, p) <==> process::children_in(raw).contains(p),
{
    let list = words::words(raw);
    lemma_named_children(list, p);
    if lists_child(raw, p) {
        let w = choose|w: Seq<char>| #[trigger] has_word(raw, w) && names_process(w, p);
        let (a, b) = choose|a: Seq<char>, b: Seq<char>| #[trigger] word_between(raw, a, w, b);
        lemma_word_is_found(raw, a, w, b);
        let i = list.index_of(w);
        assert(names_process(list[i], p));
    }
    if process::children_in(raw).contains(p) {
        let i = choose|i: int| 0 <= i < list.len() && names_process(#[trigger] list[i], p);
        assert(list.contains(list[i]));
        lemma_found_is_word(raw, list[i]);
    }
}

// ---------------------------------------------------------------------------
// Descendants
// ---------------------------------------------------------------------------
/// Whether asking for children is answered from a table.
pub open spec fn answers_from<F: Fn(u32) -> Option<String>>(
    children: F,
    table: spec_fn(u32) -> Option<Seq<char>>,
) -> bool {
    forall|p: u32, a: Option<String>| #[trigger]
        children.ensures((p,), a) ==> match (a, table(p)) {
            (Some(x), Some(y)) => x@ == y,
            (None, None) => true,
            _ => false,
        }
}

/// Whether `p` is a child of `parent` by the table.
pub open spec fn is_child(table: spec_fn(u32) -> Option<Seq<char>>, parent: u32, p: u32) -> bool {
    table(parent) matches Some(raw) && lists_child(raw, p)
}

/// Whether a line of descent goes from one process to another, each the child
/// of the one in front.
pub open spec fn is_line(
    table: spec_fn(u32) -> Option<Seq<char>>,
    line: Seq<u32>,
    from: u32,
    to: u32,
) -> bool {
    &&& line.len() > 0
    &&& line[0] == from
    &&& line.last() == to
    &&& forall|i: int| 0 < i < line.len() ==> is_child(table, line[i - 1], #[trigger] line[i])
}

/// Whether a process descends from another.
pub open spec fn descends(table: spec_fn(u32) -> Option<Seq<char>>, from: u32, to: u32) -> bool {
    exists|line: Seq<u32>| #[trigger] is_line(table, line, from, to)
}

proof fn lemma_kids<F: Fn(u32) -> Option<String>>(
    children: F,
    table: spec_fn(u32) -> Option<Seq<char>>,
    parent: u32,
    kids: Seq<u32>,
    p: u32,
)
    requires
        answers_from(children, table),
        process::can_have(parent, kids, children),
    ensures
        kids.contains(p) <==> is_child(table, parent, p),
{
    if children.ensures((parent,), None) && kids.len() == 0 {
        assert(table(parent) is None);
    } else {
        let raw = choose|raw: String| #[trigger]
            children.ensures((parent,), Some(raw)) && kids == process::children_in(raw@);
        assert(table(parent) == Some(raw@));
        lemma_lists_child(raw@, p);
    }
}

proof fn lemma_line_to<F: Fn(u32) -> Option<String>>(
    children: F,
    table: spec_fn(u32) -> Option<Seq<char>>,
    root: u32,
    list: Seq<u32>,
    n: int,
)
    requires
        answers_from(children, table),
        process::are_descendants(root, list, children),
        0 <= n < list.len(),
    ensures
        descends(table, root, list[n]),
    decreases n,
{
    let p = list[n];
    assert(process::is_reported(p, root, list, n, children));
    let (parent, kids) = choose|parent: u32, kids: Seq<u32>|
        (parent == root || list.take(n).contains(parent)) && #[trigger] process::can_have(
            parent,
            kids,
            children,
        ) && kids.contains(p);
    lemma_kids(children, table, parent, kids, p);
    assert(is_child(table, parent, p));
    if parent == root {
        let line = seq![root];
        assert(is_line(table, line, root, root));
        lemma_line_push(table, line, root, root, p);
    } else {
        let k = list.take(n).index_of(parent);
        assert(list.take(n)[k] == parent);
        lemma_line_to(children, table, root, list, k);
        let line = choose|line: Seq<u32>| #[trigger] is_line(table, line, root, list[k]);
        lemma_line_push(table, line, root, parent, p);
    }
}

proof fn lemma_line_push(
    table: spec_fn(u32) -> Option<Seq<char>>,
    line: Seq<u32>,
    from: u32,
    parent: u32,
    p: u32,
)
    requires
        is_line(table, line, from, parent),
        is_child(table, parent, p),
    ensures
        descends(table, from, p),
{
    let more = line.push(p);
    assert forall|i: int| 0 < i < more.len() implies is_child(
        table,
        more[i - 1],
        #[trigger] more[i],
    ) by {
        if i < line.len() {
            assert(more[i] == line[i]);
            assert(more[i - 1] == line[i - 1]);
            assert(is_child(table, line[i - 1], line[i]));
        } else {
            assert(more[i - 1] == line.last());
        }
    }
    assert(more[0] == line[0]);
    assert(is_line(table, more, from, p));
}

proof fn lemma_line_inside<F: Fn(u32) -> Option<String>>(
    children: F,
    table: spec_fn(u32) -> Option<Seq<char>>,
    root: u32,
    list: Seq<u32>,
    line: Seq<u32>,
    i: int,
)
    requires
        answers_from(children, table),
        process::are_descendants(root, list, children),
        is_line(table, line, root, line.last()),
        0 <= i < line.len(),
    ensures
        line[i] == root || list.contains(line[i]),
    decreases i,
{
    if i > 0 {
        lemma_line_inside(children, table, root, list, line, i - 1);
        let parent = line[i - 1];
        assert(is_child(table, line[i - 1], line[i]));
        if parent != root {
            let n = list.index_of(parent);
            assert(process::is_explored(list[n], root, list, children));
        }
        assert(process::is_explored(parent, root, list, children));
        let kids = choose|kids: Seq<u32>| #[trigger]
            process::can_have(parent, kids, children) && forall|i: int|
                0 <= i < kids.len() ==> #[trigger] kids[i] == root || list.contains(kids[i]);
        lemma_kids(children, table, parent, kids, line[i]);
        let k = kids.index_of(line[i]);
        assert(kids[k] == line[i]);
    }
}

/// The descendants of a process are all those that a line of descent leads
/// to, the process itself left out, each of them once.
pub proof fn descendants_of_a_process<F: Fn(u32) -> Option<String>>(
    root: u32,
    children: &F,
    r: Vec<u32>,
    table: spec_fn(u32) -> Option<Seq<char>>,
    p: u32,
)
    requires
        call_ensures(process::collect_descendants::<F>, (root, children), r),
        answers_from(*children, table),
    ensures
        r@.contains(p) <==> p != root && descends(table, root, p),
        r@.no_duplicates(),
{
    if r@.contains(p) {
        let n = r@.index_of(p);
        lemma_line_to(*children, table, root, r@, n);
    }
    if p != root && descends(table, root, p) {
        let line = choose|line: Seq<u32>| #[trigger] is_line(table, line, root, p);
        lemma_line_inside(*children, table, root, r@, line, line.len() - 1);
    }
}

/// Of a list of processes those are left that are alive.
pub proof fn processes_alive<F: Fn(u32) -> bool>(
    pids: &Vec<u32>,
    alive: &F,
    r: Vec<u32>,
    living: Set<u32>,
    p: u32,
)
    requires
        call_ensures(process::still_alive::<F>, (pids, alive), r),
        forall|q: u32, b: bool| #[trigger] alive.ensures((q,), b) ==> b == living.contains(q),
    ensures
        r@.contains(p) <==> pids@.contains(p) && living.contains(p),
{
    let flags = choose|flags: Seq<bool>| #[trigger]
        process::are_answers(pids@, flags, *alive) && r@ == process::flagged(pids@, flags);
    assert forall|i: int| 0 <= i < pids@.len() implies flags[i] == living.contains(
        #[trigger] pids@[i],
    ) by {
        assert(alive.ensures((pids@[i],), flags[i]));
    }
    lemma_flagged(pids@, flags, living, p);
}

proof fn lemma_flagged(list: Seq<u32>, flags: Seq<bool>, living: Set<u32>, p: u32)
    requires
        flags.len() >= list.len(),
        forall|i: int| 0 <= i < list.len() ==> flags[i] == living.contains(#[trigger] list[i]),
    ensures
        process::flagged(list, flags).contains(p) <==> list.contains(p) && living.contains(p),
    decreases list.len(),
{
    let all = process::flagged(list, flags);
    if list.len() > 0 {
        let front = list.drop_last();
        let n = list.len() - 1;
        assert(forall|i: int| 0 <= i < n ==> front[i] == list[i]);
        assert(list[n] == list.last());
        assert forall|i: int| 0 <= i < front.len() implies flags[i] == living.contains(
            #[trigger] front[i],
        ) by {
            assert(flags[i] == living.contains(list[i]));
        }
        lemma_flagged(front, flags, living, p);
        let rest = process::flagged(front, flags);
        assert(flags[n] == living.contains(list[n]));
        if rest.contains(p) {
            let k = rest.index_of(p);
            assert(all[k] == p);
            let i = front.index_of(p);
            assert(list[i] == p);
        }
        if all.contains(p) && !rest.contains(p) {
            let k = all.index_of(p);
            if k < rest.len() {
                assert(rest[k] == p);
            }
        }
        if list.contains(p) && living.contains(p) {
            let i = list.index_of(p);
            if i < n {
                assert(front[i] == p);
            } else {
                assert(all[rest.len() as int] == p);
            }
        }
    }
}

/// Processes are waited for while some are left and there is time.
pub proof fn waiting_for_processes(alive: &Vec<u32>, elapsed: u64, deadline: u64, r: bool)
    requires
        call_ensures(process::keep_waiting, (alive, elapsed, deadline), r),
    ensures
        r <==> alive@.len() > 0 && elapsed < deadline,
{
}

// ---------------------------------------------------------------------------
// Stragglers
// ---------------------------------------------------------------------------
/// Whether an environment holds an entry whole, between zero bytes or ends.
pub open spec fn carries(env: Seq<u8>, entry: Seq<u8>) -> bool {
    exists|x: Seq<u8>, y: Seq<u8>| #[trigger] carries_between(env, x, entry, y)
}

/// Whether an environment is an entry with `x` in front of it and `y` behind.
pub open spec fn carries_between(env: Seq<u8>, x: Seq<u8>, entry: Seq<u8>, y: Seq<u8>) -> bool {
    &&& env == x + entry + y
    &&& x.len() == 0 || x.last() == 0
    &&& y.len() == 0 || y[0] == 0
    &&& !entry.contains(0)
}

proof fn lemma_carries(env: Seq<u8>, entry: Seq<u8>)
    ensures
        carries(env, entry) <==> process::has_entry(env, entry),
{
    if carries(env, entry) {
        let (x, y) = choose|x: Seq<u8>, y: Seq<u8>| #[trigger] carries_between(env, x, entry, y);
        let a = x.len() as int;
        let b = a + entry.len();
        assert(env.subrange(a, b) == entry);
        assert(process::entry_at(env, entry, a, b));
    }
    if process::has_entry(env, entry) {
        let (a, b) = choose|a: int, b: int| #[trigger] process::entry_at(env, entry, a, b);
        let x = env.take(a);
        let y = env.skip(b);
        assert(env == x + entry + y);
        assert(carries_between(env, x, entry, y));
    }
}

/// Whether reading an environment is answered from a table.
pub open spec fn reads_from<F: Fn(u32) -> Option<Vec<u8>>>(
    environ: F,
    table: spec_fn(u32) -> Option<Seq<u8>>,
) -> bool {
    forall|p: u32, a: Option<Vec<u8>>| #[trigger]
        environ.ensures((p,), a) ==> match (a, table(p)) {
            (Some(x), Some(y)) => x@ == y,
            (None, None) => true,
            _ => false,
        }
}

/// Whether a process is a straggler: its number is above 1, and its
/// environment holds the entry.
pub open spec fn is_stray(
    table: spec_fn(u32) -> Option<Seq<u8>>,
    entry: Seq<u8>,
    p: u32,
) -> bool {
    p > 1 && (table(p) matches Some(env) && carries(env, entry))
}

proof fn lemma_stray<F: Fn(u32) -> Option<Vec<u8>>>(
    name: Seq<char>,
    found: Option<u32>,
    entry: Seq<u8>,
    environ: F,
    table: spec_fn(u32) -> Option<Seq<u8>>,
    p: u32,
)
    requires
        process::can_be_straggler(name, found, entry, environ),
        reads_from(environ, table),
    ensures
        found == Some(p) <==> names_process(name, p) && is_stray(table, entry, p),
{
    lemma_names_process(name, p);
    if let Some(n) = text::number(name, 0xffff_ffff) {
        let q = n as u32;
        lemma_names_process(name, q);
        if n > 1 {
            if found is None && environ.ensures((q,), None) {
                assert(table(q) is None);
            } else {
                let env = choose|env: Vec<u8>| #[trigger]
                    environ.ensures((q,), Some(env)) && found == if process::has_entry(
                        env@,
                        entry,
                    ) {
                        Some(q)
                    } else {
                        None
                    };
                assert(table(q) == Some(env@));
                lemma_carries(env@, entry);
            }
        }
    }
}

proof fn lemma_found_pids(list: Seq<Option<u32>>, p: u32)
    ensures
        process::found_pids(list).contains(p) <==> list.contains(Some(p)),
    decreases list.len(),
{
    let all = process::found_pids(list);
    if list.len() > 0 {
        let front = list.drop_last();
        let n = list.len() - 1;
        let rest = process::found_pids(front);
        lemma_found_pids(front, p);
        assert(list[n] == list.last());
        if rest.contains(p) {
            let k = rest.index_of(p);
            assert(all[k] == p);
            let i = front.index_of(Some(p));
            assert(list[i] == Some(p));
        }
        if all.contains(p) && !rest.contains(p) {
            let k = all.index_of(p);
            if k < rest.len() {
                assert(rest[k] == p);
            }
        }
        if list.contains(Some(p)) {
            let i = list.index_of(Some(p));
            if i < n {
                assert(front[i] == Some(p));
            } else {
                assert(all[rest.len() as int] == p);
            }
        }
    }
}

/// The stragglers of a project are those processes, among the ones that are
/// listed, whose environment says that they belong to it.
pub proof fn stragglers_of_a_project<F: Fn(u32) -> Option<Vec<u8>>>(
    names: &Vec<String>,
    runtime: &str,
    environ: &F,
    r: Vec<u32>,
    table: spec_fn(u32) -> Option<Seq<u8>>,
    p: u32,
)
    requires
        call_ensures(process::find_stragglers::<F>, (names, runtime, environ), r),
        reads_from(*environ, table),
    ensures
        r@.contains(p) <==> is_stray(table, encode_utf8("NEALS_RUNTIME="@ + runtime@), p) && (
        exists|i: int| 0 <= i < names@.len() && names_process((#[trigger] names@[i])@, p)),
{
    let entry = encode_utf8("NEALS_RUNTIME="@ + runtime@);
    let all = text::views(names@);
    let found = choose|found: Seq<Option<u32>>| #[trigger]
        process::are_findings(
            all,
            found,
            encode_utf8(process::marker(runtime@)),
            *environ,
        ) && r@ == process::found_pids(found);
    lemma_found_pids(found, p);
    assert(all.len() == names@.len());
    assert forall|i: int| 0 <= i < names@.len() implies (found[i] == Some(p) <==> names_process(
        (#[trigger] names@[i])@,
        p,
    ) && is_stray(table, entry, p)) by {
        assert(all[i] == names@[i]@);
        lemma_stray(all[i], found[i], entry, *environ, table, p);
    }
    if found.contains(Some(p)) {
        let i = found.index_of(Some(p));
        assert(names_process(names@[i]@, p));
    }
    if exists|i: int| 0 <= i < names@.len() && names_process((#[trigger] names@[i])@, p) {
        let i = choose|i: int| 0 <= i < names@.len() && names_process((#[trigger] names@[i])@, p);
        if is_stray(table, entry, p) {
            assert(found[i] == Some(p));
        }
    }
}

// ---------------------------------------------------------------------------
// Stopping
// ---------------------------------------------------------------------------
/// Whether a list holds those of another that may be signalled, and no others.
pub open spec fn signals(list: Seq<u32>, of: Seq<u32>) -> bool {
    forall|p: u32| #[trigger] list.contains(p) <==> of.contains(p) && p > 1
}

proof fn lemma_signals(list: Seq<u32>, of: Seq<u32>)
    requires
        list == process::may_signal(of),
    ensures
        signals(list, of),
{
    assert forall|p: u32| #[trigger] list.contains(p) <==> of.contains(p) && p > 1 by {
        lemma_may_signal(of, p);
    }
}

/// A project is asked to end, with all its descendants, and they are kept in
/// mind.
pub proof fn asked_to_end(marked: Vec<u32>, r: (StopFlow, StopAction))
    requires
        call_ensures(StopFlow::begin, (marked,), r),
    ensures
        r.0.marked@ == marked@,
        r.0.stage == StopStage::Terminated,
        r.1 matches StopAction::Terminate(pids) && signals(pids@, marked@),
{
    if let StopAction::Terminate(pids) = r.1 {
        lemma_signals(pids@, marked@);
    }
}

/// A project that ends in time is waited for, with all its descendants. One
/// that does not is killed, with those that it had and those that came since,
/// and then waited for.
pub proof fn ended_or_killed(flow: &mut StopFlow, exited: bool, more: &Vec<u32>, r: StopAction)
    requires
        call_ensures(StopFlow::on_wait, (flow, exited), r) || call_ensures(
            StopFlow::on_collected,
            (flow, more),
            r,
        ) || call_ensures(StopFlow::on_killed, (flow,), r),
    ensures
        final(flow).marked@ == old(flow).marked@,
        call_ensures(StopFlow::on_wait, (flow, exited), r) && exited ==> final(flow).stage
            == StopStage::Leaving && (r matches StopAction::AwaitGone(pids) && pids@ == old(
            flow,
        ).marked@),
        call_ensures(StopFlow::on_wait, (flow, exited), r) && !exited ==> final(flow).stage
            == StopStage::Collecting && r is Collect,
        call_ensures(StopFlow::on_collected, (flow, more), r) ==> final(flow).stage
            == StopStage::Killed && (r matches StopAction::Kill(pids) && signals(
            pids@,
            old(flow).marked@ + more@,
        )),
        call_ensures(StopFlow::on_killed, (flow,), r) ==> final(flow).stage == StopStage::Leaving
            && (r matches StopAction::AwaitGone(pids) && pids@ == old(flow).marked@),
{
    if call_ensures(StopFlow::on_collected, (flow, more), r) {
        if let StopAction::Kill(pids) = r {
            lemma_signals(pids@, old(flow).marked@ + more@);
        }
    }
}

/// Whoever is still there in the end is killed; with nobody there the project
/// is stopped.
pub proof fn survivors_are_killed(flow: &mut StopFlow, survivors: &Vec<u32>, r: StopAction)
    requires
        call_ensures(StopFlow::on_gone, (flow, survivors), r),
    ensures
        final(flow).stage == StopStage::Finished,
        r is Finish <==> survivors@.len() == 0,
        survivors@.len() > 0 ==> (r matches StopAction::KillSurvivors { pids, left, notice }
            && signals(pids@, survivors@) && left@ == survivors@),
{
    if let StopAction::KillSurvivors { pids, left, notice } = r {
        if survivors@.len() > 0 {
            lemma_signals(pids@, survivors@);
        }
    }
}

/// Stragglers are asked to end, and those that are left are killed. Without
/// any there is nothing to do.
pub proof fn stragglers_are_swept_up(
    strays: &Vec<u32>,
    runtime: &str,
    r: (SweepFlow, SweepAction),
)
    requires
        call_ensures(SweepFlow::begin, (strays, runtime), r),
    ensures
        strays@.len() == 0 ==> r.1 is Finish && r.0.stage == SweepStage::Finished,
        strays@.len() > 0 ==> r.0.stage == SweepStage::Terminated && (
        r.1 matches SweepAction::Terminate { notice, pids, strays: all } && signals(
            pids@,
            strays@,
        ) && all@ == strays@ && notice@ == "sweeping "@ + text::decimal(strays@.len())
            + " stray process(es) still carrying "@ + ("NEALS_RUNTIME="@ + runtime@)),
{
    if let SweepAction::Terminate { notice, pids, strays: all } = r.1 {
        if strays@.len() > 0 {
            lemma_signals(pids@, strays@);
        }
    }
}

/// What is left of the stragglers is killed.
pub proof fn stragglers_are_killed(flow: &mut SweepFlow, alive: &Vec<u32>, r: SweepAction)
    requires
        call_ensures(SweepFlow::on_gone, (flow, alive), r),
    ensures
        alive@.len() == 0 ==> r is Finish && final(flow).stage == SweepStage::Finished,
        alive@.len() > 0 ==> final(flow).stage == SweepStage::Killed && (
        r matches SweepAction::Kill { pids, left } && signals(pids@, alive@) && left@ == alive@),
{
    if let SweepAction::Kill { pids, left } = r {
        if alive@.len() > 0 {
            lemma_signals(pids@, alive@);
        }
    }
}

/// Stragglers are announced with their number and what they are known by, if
/// there are any.
pub proof fn announced_stragglers(strays: &Vec<u32>, runtime: &str, r: Option<String>)
    requires
        call_ensures(process::sweep_notice, (strays, runtime), r),
    ensures
        r is None <==> strays@.len() == 0,
        r matches Some(m) ==> m@ == "sweeping "@ + text::decimal(strays@.len())
            + " stray process(es) still carrying "@ + ("NEALS_RUNTIME="@ + runtime@),
{
}

} // verus!
