//! Ways of writing the same bindings.
//!
//! `a = { b = v; c = w; };` and `a.b = v; a.c = w;` bind the same, and so do
//! the bindings of a set in another order. Comments and layout are no part of
//! a tree to begin with.
use crate::nix;
use vstd::prelude::*;

verus! {

/// A binding with `front` put in front of its path.
pub open spec fn put_below(front: Seq<nix::NixKey>, e: nix::NixEntry) -> nix::NixEntry {
    nix::NixEntry {
        path: match e.path {
            Some(p) => Some(front + p),
            None => None,
        },
        value: e.value,
    }
}

/// A binding below `front`, written without nested sets. One without a path
/// or a value binds nothing.
pub open spec fn entry_opened(front: Seq<nix::NixKey>, e: nix::NixEntry) -> Seq<nix::NixEntry>
    decreases e,
{
    match (e.path, e.value) {
        (Some(p), Some(nix::NixExpr::Attrs(inner))) => all_opened(front + p, inner),
        (Some(_), Some(_)) => seq![put_below(front, e)],
        _ => Seq::empty(),
    }
}

/// The bindings of a set below `front`, written without nested sets.
pub open spec fn all_opened(front: Seq<nix::NixKey>, entries: Seq<nix::NixEntry>) -> Seq<
    nix::NixEntry,
>
    decreases entries,
{
    if entries.len() == 0 {
        Seq::empty()
    } else {
        all_opened(front, entries.subrange(0, entries.len() - 1)) + entry_opened(
            front,
            entries[entries.len() - 1],
        )
    }
}

/// The bindings of an expression, written without nested sets.
pub open spec fn opened(e: Option<nix::NixExpr>) -> Seq<nix::NixEntry> {
    match e {
        Some(expr) => match nix::top_set(expr) {
            Some(set) => all_opened(Seq::empty(), set),
            None => Seq::empty(),
        },
        None => Seq::empty(),
    }
}

/// Whether two expressions bind the same, up to nesting and order.
pub open spec fn same_writing(a: Option<nix::NixExpr>, b: Option<nix::NixExpr>) -> bool {
    opened(a).to_multiset() == opened(b).to_multiset()
}

// ---------------------------------------------------------------------------
// Nesting
// ---------------------------------------------------------------------------
proof fn lemma_opened_two(
    front: Seq<nix::NixKey>,
    a: Seq<nix::NixEntry>,
    b: Seq<nix::NixEntry>,
)
    ensures
        all_opened(front, a + b) == all_opened(front, a) + all_opened(front, b),
    decreases b.len(),
{
    let whole = a + b;
    if b.len() == 0 {
        assert(whole == a);
    } else {
        let rest = b.subrange(0, b.len() - 1);
        lemma_opened_two(front, a, rest);
        assert(whole.subrange(0, whole.len() - 1) == a + rest);
        assert(whole[whole.len() - 1] == b[b.len() - 1]);
    }
}

proof fn lemma_opened_one(front: Seq<nix::NixKey>, e: nix::NixEntry)
    ensures
        all_opened(front, seq![e]) == entry_opened(front, e),
{
    let one = seq![e];
    assert(one.subrange(0, 0) == Seq::<nix::NixEntry>::empty());
    assert(all_opened(front, Seq::<nix::NixEntry>::empty()) == Seq::<nix::NixEntry>::empty());
    assert(one[one.len() - 1] == e);
}

proof fn lemma_opened_below(
    front: Seq<nix::NixKey>,
    path: Seq<nix::NixKey>,
    inner: Seq<nix::NixEntry>,
)
    ensures
        all_opened(front + path, inner) == all_opened(
            front,
            inner.map_values(|e: nix::NixEntry| put_below(path, e)),
        ),
    decreases inner.len(),
{
    let f = |e: nix::NixEntry| put_below(path, e);
    let dotted = inner.map_values(f);
    if inner.len() > 0 {
        let rest = inner.subrange(0, inner.len() - 1);
        let last = inner[inner.len() - 1];
        lemma_opened_below(front, path, rest);
        assert(rest.map_values(f) == dotted.subrange(0, dotted.len() - 1));
        assert(dotted[dotted.len() - 1] == put_below(path, last));
        if let Some(p) = last.path {
            assert(front + path + p == front + (path + p));
            assert(put_below(front + path, last) == put_below(front, put_below(path, last)));
        }
        assert(entry_opened(front + path, last) == entry_opened(front, put_below(path, last)));
        assert(all_opened(front, dotted) == all_opened(front, rest.map_values(f)) + entry_opened(
            front,
            put_below(path, last),
        ));
    }
}

/// Writing `a.b = v; a.c = w;` for `a = { b = v; c = w; };`, in the midst of
/// other bindings, leaves what is written without nested sets as it is.
pub proof fn dotted_for_nested(
    front: Seq<nix::NixKey>,
    before: Seq<nix::NixEntry>,
    path: Seq<nix::NixKey>,
    inner: Seq<nix::NixEntry>,
    after: Seq<nix::NixEntry>,
)
    ensures
        all_opened(
            front,
            before + seq![
                nix::NixEntry { path: Some(path), value: Some(nix::NixExpr::Attrs(inner)) },
            ] + after,
        ) == all_opened(
            front,
            before + inner.map_values(|e: nix::NixEntry| put_below(path, e)) + after,
        ),
{
    let nested = nix::NixEntry { path: Some(path), value: Some(nix::NixExpr::Attrs(inner)) };
    let dotted = inner.map_values(|e: nix::NixEntry| put_below(path, e));
    lemma_opened_two(front, before + seq![nested], after);
    lemma_opened_two(front, before, seq![nested]);
    lemma_opened_one(front, nested);
    lemma_opened_two(front, before + dotted, after);
    lemma_opened_two(front, before, dotted);
    lemma_opened_below(front, path, inner);
}

proof fn lemma_names_of_two(a: Seq<nix::NixKey>, b: Seq<nix::NixKey>)
    ensures
        nix::path_names(a + b) == match (nix::path_names(a), nix::path_names(b)) {
            (Some(x), Some(y)) => Some(x + y),
            _ => None,
        },
{
    let whole = a + b;
    assert(forall|i: int| 0 <= i < a.len() ==> whole[i] == a[i]);
    assert(forall|i: int| 0 <= i < b.len() ==> whole[a.len() + i] == b[i]);
    if nix::path_names(a) is None {
        let i = choose|i: int| 0 <= i < a.len() && nix::key_name(#[trigger] a[i]) is None;
        assert(nix::key_name(whole[i]) is None);
    } else if nix::path_names(b) is None {
        let i = choose|i: int| 0 <= i < b.len() && nix::key_name(#[trigger] b[i]) is None;
        assert(nix::key_name(whole[a.len() + i]) is None);
    } else {
        assert forall|i: int| 0 <= i < whole.len() implies nix::key_name(
            #[trigger] whole[i],
        ) is Some by {
            if i < a.len() {
                assert(nix::key_name(a[i]) is Some);
            } else {
                assert(nix::key_name(b[i - a.len()]) is Some);
            }
        }
        assert(nix::path_names(whole)->0 == nix::path_names(a)->0 + nix::path_names(b)->0);
    }
}

proof fn lemma_found_two(
    a: Seq<nix::NixEntry>,
    b: Seq<nix::NixEntry>,
    prefix: Seq<Seq<char>>,
)
    ensures
        nix::all_found(a + b, prefix) == nix::all_found(a, prefix) + nix::all_found(b, prefix),
    decreases b.len(),
{
    let whole = a + b;
    if b.len() == 0 {
        assert(whole == a);
    } else {
        let rest = b.subrange(0, b.len() - 1);
        lemma_found_two(a, rest, prefix);
        assert(whole.subrange(0, whole.len() - 1) == a + rest);
        assert(whole[whole.len() - 1] == b[b.len() - 1]);
    }
}

proof fn lemma_found_one(e: nix::NixEntry, prefix: Seq<Seq<char>>)
    ensures
        nix::all_found(seq![e], prefix) == nix::entry_found(e, prefix),
{
    let one = seq![e];
    assert(one.subrange(0, 0) == Seq::<nix::NixEntry>::empty());
    assert(nix::all_found(Seq::<nix::NixEntry>::empty(), prefix) == Seq::<nix::Found>::empty());
    assert(one[one.len() - 1] == e);
}

/// What is found below the names of `front`, which need not all be spelled
/// out.
spec fn found_below(
    entries: Seq<nix::NixEntry>,
    front: Seq<nix::NixKey>,
    prefix: Seq<Seq<char>>,
) -> Seq<nix::Found> {
    match nix::path_names(front) {
        Some(names) => nix::all_found(entries, prefix + names),
        None => Seq::empty(),
    }
}

proof fn lemma_entry_opened_found(
    front: Seq<nix::NixKey>,
    e: nix::NixEntry,
    prefix: Seq<Seq<char>>,
)
    ensures
        nix::all_found(entry_opened(front, e), prefix) == match nix::path_names(front) {
            Some(names) => nix::entry_found(e, prefix + names),
            None => Seq::empty(),
        },
    decreases e,
{
    if let (Some(p), Some(value)) = (e.path, e.value) {
        lemma_names_of_two(front, p);
        if let (Some(x), Some(y)) = (nix::path_names(front), nix::path_names(p)) {
            assert(prefix + x + y == prefix + (x + y));
        }
        if let nix::NixExpr::Attrs(inner) = value {
            assert(decreases_to!(e => e.value->0));
            lemma_opened_found(front + p, inner, prefix);
        } else {
            lemma_found_one(put_below(front, e), prefix);
        }
    }
}

proof fn lemma_opened_found(
    front: Seq<nix::NixKey>,
    entries: Seq<nix::NixEntry>,
    prefix: Seq<Seq<char>>,
)
    ensures
        nix::all_found(all_opened(front, entries), prefix) == found_below(entries, front, prefix),
    decreases entries,
{
    if entries.len() > 0 {
        let rest = entries.subrange(0, entries.len() - 1);
        let last = entries[entries.len() - 1];
        lemma_opened_found(front, rest, prefix);
        lemma_entry_opened_found(front, last, prefix);
        lemma_found_two(all_opened(front, rest), entry_opened(front, last), prefix);
    }
}

proof fn lemma_all_opened_found(entries: Seq<nix::NixEntry>)
    ensures
        nix::all_found(all_opened(Seq::empty(), entries), Seq::empty()) == nix::all_found(
            entries,
            Seq::empty(),
        ),
{
    let none = Seq::<nix::NixKey>::empty();
    let top = Seq::<Seq<char>>::empty();
    lemma_opened_found(none, entries, top);
    assert(nix::path_names(none)->0 == top);
    assert(top + top == top);
}

/// What is found in an expression.
spec fn found_in(e: Option<nix::NixExpr>) -> Seq<nix::Found> {
    match e {
        Some(expr) => match nix::top_set(expr) {
            Some(set) => nix::all_found(set, Seq::empty()),
            None => Seq::empty(),
        },
        None => Seq::empty(),
    }
}

proof fn lemma_found_in(e: Option<nix::NixExpr>)
    ensures
        nix::all_found(opened(e), Seq::empty()) == found_in(e),
        nix::neals_literals(e) == match nix::literals(found_in(e)) {
            Err(m) => Err(m),
            Ok(list) => Ok(nix::under_neals(list)),
        },
{
    if let Some(expr) = e {
        if let Some(set) = nix::top_set(expr) {
            lemma_all_opened_found(set);
        }
    }
}

/// Whether attribute sets are nested or written out with dots matters neither
/// for the literals that are read, nor for their order, nor for the reason
/// against them.
pub proof fn nesting_irrelevant(a: Option<nix::NixExpr>, b: Option<nix::NixExpr>)
    requires
        opened(a) == opened(b),
    ensures
        nix::neals_literals(a) == nix::neals_literals(b),
{
    lemma_found_in(a);
    lemma_found_in(b);
}

// ---------------------------------------------------------------------------
// Order
// ---------------------------------------------------------------------------
proof fn lemma_found_without(a: Seq<nix::NixEntry>, i: int, prefix: Seq<Seq<char>>)
    requires
        0 <= i < a.len(),
    ensures
        nix::all_found(a, prefix).to_multiset() == nix::all_found(
            a.remove(i),
            prefix,
        ).to_multiset().add(nix::entry_found(a[i], prefix).to_multiset()),
{
    let front = a.take(i);
    let back = a.skip(i + 1);
    let x = nix::all_found(front, prefix);
    let y = nix::entry_found(a[i], prefix);
    let z = nix::all_found(back, prefix);
    assert(a == front + seq![a[i]] + back);
    assert(a.remove(i) == front + back);
    lemma_found_two(front + seq![a[i]], back, prefix);
    lemma_found_two(front, seq![a[i]], prefix);
    lemma_found_one(a[i], prefix);
    lemma_found_two(front, back, prefix);
    vstd::seq_lib::lemma_multiset_commutative(x + y, z);
    vstd::seq_lib::lemma_multiset_commutative(x, y);
    vstd::seq_lib::lemma_multiset_commutative(x, z);
    assert(x.to_multiset().add(y.to_multiset()).add(z.to_multiset()) =~= x.to_multiset().add(
        z.to_multiset(),
    ).add(y.to_multiset()));
}

proof fn lemma_found_shuffled(
    a: Seq<nix::NixEntry>,
    b: Seq<nix::NixEntry>,
    prefix: Seq<Seq<char>>,
)
    requires
        a.to_multiset() == b.to_multiset(),
    ensures
        nix::all_found(a, prefix).to_multiset() == nix::all_found(b, prefix).to_multiset(),
    decreases b.len(),
{
    broadcast use vstd::seq_lib::group_to_multiset_ensures;

    assert(a.len() == a.to_multiset().len());
    assert(b.len() == b.to_multiset().len());
    if b.len() > 0 {
        let last = b.len() - 1;
        assert(b.contains(b[last]));
        assert(b.to_multiset().count(b[last]) > 0);
        assert(a.to_multiset().count(b[last]) > 0);
        assert(a.contains(b[last]));
        let i = a.index_of(b[last]);
        assert(a.remove(i).to_multiset() == a.to_multiset().remove(a[i]));
        assert(b.remove(last).to_multiset() == b.to_multiset().remove(b[last]));
        lemma_found_shuffled(a.remove(i), b.remove(last), prefix);
        lemma_found_without(a, i, prefix);
        lemma_found_without(b, last, prefix);
    }
}

/// Whether every value found is a literal and no path is found twice.
spec fn is_fine(found: Seq<nix::Found>) -> bool {
    &&& forall|i: int| 0 <= i < found.len() ==> (#[trigger] found[i]).what is Ok
    &&& forall|i: int, j: int|
        0 <= i < j < found.len() ==> (#[trigger] found[i]).path != (#[trigger] found[j]).path
}

proof fn lemma_literals(found: Seq<nix::Found>)
    ensures
        nix::literals(found) is Ok <==> is_fine(found),
        nix::literals(found) matches Ok(list) ==> {
            &&& list.len() == found.len()
            &&& forall|i: int|
                0 <= i < list.len() ==> (#[trigger] list[i]).path == found[i].path && found[i].what
                    == Ok::<nix::Lit, Seq<char>>(list[i].value)
        },
    decreases found.len(),
{
    if found.len() > 0 {
        let front = found.drop_last();
        let last = found.last();
        let n = front.len() as int;
        lemma_literals(front);
        assert(forall|i: int| 0 <= i < n ==> front[i] == found[i]);
        assert(found[n] == last);
        if let Ok(list) = nix::literals(front) {
            nix::lemma_value_at(list, last.path);
            if let Some(v) = nix::value_at(list, last.path) {
                let k = choose|k: int|
                    0 <= k < list.len() && (#[trigger] list[k]).path == last.path && list[k].value
                        == v;
                assert(found[k].path == found[n].path);
            } else {
                assert forall|i: int, j: int| 0 <= i < j < found.len() implies (
                #[trigger] found[i]).path != (#[trigger] found[j]).path by {
                    assert(front[i] == found[i]);
                    if j < n {
                        assert(front[j] == found[j]);
                    } else {
                        assert(list[i].path == found[i].path);
                    }
                }
            }
        } else if is_fine(found) {
            assert(is_fine(front));
        }
    }
}

proof fn lemma_fine_shuffled(a: Seq<nix::Found>, b: Seq<nix::Found>)
    requires
        a.to_multiset() == b.to_multiset(),
        is_fine(a),
    ensures
        is_fine(b),
{
    broadcast use vstd::seq_lib::group_to_multiset_ensures;

    assert forall|i: int| 0 <= i < b.len() implies (#[trigger] b[i]).what is Ok by {
        assert(b.contains(b[i]));
        assert(b.to_multiset().count(b[i]) > 0);
        assert(a.to_multiset().count(b[i]) > 0);
        assert(a.contains(b[i]));
        let k = a.index_of(b[i]);
        assert(a[k].what is Ok);
    }
    assert forall|i: int, j: int| 0 <= i < j < b.len() implies (#[trigger] b[i]).path != (
    #[trigger] b[j]).path by {
        let x = b[i];
        let y = b[j];
        let rest = b.remove(j);
        assert(rest[i] == x);
        assert(rest.contains(x));
        assert(rest.to_multiset() == b.to_multiset().remove(y));
        assert(b.contains(y));
        assert(b.to_multiset().count(y) > 0);
        assert(a.to_multiset().count(y) > 0);
        assert(a.contains(y));
        let m = a.index_of(y);
        let others = a.remove(m);
        assert(others.to_multiset() == a.to_multiset().remove(y));
        assert(rest.to_multiset().count(x) > 0);
        assert(others.to_multiset().count(x) > 0);
        assert(others.contains(x));
        let k = others.index_of(x);
        let l = if k < m { k } else { k + 1 };
        assert(others[k] == a[l]);
        assert(a[l] == x);
        assert(a[m] == y);
        if l < m {
            assert(a[l].path != a[m].path);
        } else {
            assert(a[m].path != a[l].path);
        }
    }
}

proof fn lemma_literals_shuffled(a: Seq<nix::Found>, b: Seq<nix::Found>, x: nix::Bound)
    requires
        a.to_multiset() == b.to_multiset(),
        nix::literals(a) is Ok,
        nix::literals(a)->Ok_0.contains(x),
    ensures
        nix::literals(b) is Ok,
        nix::literals(b)->Ok_0.contains(x),
{
    broadcast use vstd::seq_lib::group_to_multiset_ensures;

    lemma_literals(a);
    lemma_literals(b);
    lemma_fine_shuffled(a, b);
    let list = nix::literals(a)->Ok_0;
    let other = nix::literals(b)->Ok_0;
    let i = list.index_of(x);
    assert(list[i] == x);
    assert(a.contains(a[i]));
    assert(a.to_multiset().count(a[i]) > 0);
    assert(b.to_multiset().count(a[i]) > 0);
    assert(b.contains(a[i]));
    let k = b.index_of(a[i]);
    assert(other[k] == x);
}

proof fn lemma_under_neals_holds(list: Seq<nix::Bound>, x: nix::Bound)
    ensures
        nix::under_neals(list).contains(x) <==> list.contains(
            nix::Bound { path: seq!["neals"@] + x.path, value: x.value },
        ),
    decreases list.len(),
{
    let long = nix::Bound { path: seq!["neals"@] + x.path, value: x.value };
    let r = nix::under_neals(list);
    assert(long.path.skip(1) == x.path);
    assert(long.path[0] == "neals"@);
    if list.len() > 0 {
        let front = list.drop_last();
        let last = list.last();
        let n = front.len() as int;
        lemma_under_neals_holds(front, x);
        let rest = nix::under_neals(front);
        assert(forall|i: int| 0 <= i < n ==> front[i] == list[i]);
        assert(list[n] == last);
        if last.path.len() > 0 && last.path[0] == "neals"@ {
            let short = nix::Bound { path: last.path.skip(1), value: last.value };
            assert(seq!["neals"@] + last.path.skip(1) == last.path);
            assert(r == rest.push(short));
            assert(r[rest.len() as int] == short);
            assert(forall|i: int| 0 <= i < rest.len() ==> r[i] == rest[i]);
        }
        if r.contains(x) {
            let k = r.index_of(x);
            if k < rest.len() {
                assert(rest[k] == x);
                assert(front.contains(long));
                let i = front.index_of(long);
                assert(list[i] == long);
            } else {
                assert(list[n] == long);
            }
        }
        if list.contains(long) {
            let i = list.index_of(long);
            if i < n {
                assert(front[i] == long);
                assert(rest.contains(x));
                let k = rest.index_of(x);
                assert(r[k] == x);
            } else {
                assert(r[rest.len() as int] == x);
            }
        }
    }
}

proof fn lemma_literals_kept(a: Option<nix::NixExpr>, b: Option<nix::NixExpr>, x: nix::Bound)
    requires
        same_writing(a, b),
        nix::neals_literals(a) is Ok,
        nix::neals_literals(a)->Ok_0.contains(x),
    ensures
        nix::neals_literals(b) is Ok,
        nix::neals_literals(b)->Ok_0.contains(x),
{
    lemma_found_in(a);
    lemma_found_in(b);
    lemma_found_shuffled(opened(a), opened(b), Seq::empty());
    let long = nix::Bound { path: seq!["neals"@] + x.path, value: x.value };
    lemma_under_neals_holds(nix::literals(found_in(a))->Ok_0, x);
    lemma_literals_shuffled(found_in(a), found_in(b), long);
    lemma_under_neals_holds(nix::literals(found_in(b))->Ok_0, x);
}

/// Neither nesting nor order matters for whether the literals of an
/// expression are accepted, nor for which they are.
pub proof fn writing_irrelevant(a: Option<nix::NixExpr>, b: Option<nix::NixExpr>)
    requires
        same_writing(a, b),
    ensures
        nix::neals_literals(a) is Ok <==> nix::neals_literals(b) is Ok,
        (nix::neals_literals(a), nix::neals_literals(b)) matches (Ok(l), Ok(m)) ==> {
            &&& nix::distinct_paths(l)
            &&& nix::distinct_paths(m)
            &&& forall|x: nix::Bound| #[trigger] l.contains(x) <==> m.contains(x)
        },
{
    lemma_found_in(a);
    lemma_found_in(b);
    lemma_found_shuffled(opened(a), opened(b), Seq::empty());
    lemma_literals(found_in(a));
    lemma_literals(found_in(b));
    if nix::neals_literals(a) is Ok {
        lemma_fine_shuffled(found_in(a), found_in(b));
    }
    if nix::neals_literals(b) is Ok {
        lemma_fine_shuffled(found_in(b), found_in(a));
    }
    nix::neals_literals_distinct(a);
    nix::neals_literals_distinct(b);
    if let (Ok(l), Ok(m)) = (nix::neals_literals(a), nix::neals_literals(b)) {
        assert forall|x: nix::Bound| #[trigger] l.contains(x) <==> m.contains(x) by {
            if l.contains(x) {
                lemma_literals_kept(a, b, x);
            }
            if m.contains(x) {
                lemma_literals_kept(b, a, x);
            }
        }
    }
}

} // verus!
