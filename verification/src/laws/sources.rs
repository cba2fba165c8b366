//! What a source text binds below `neals`.
use crate::nix;
use crate::nix::{Binding, Lit, NixEntry, NixExpr, NixKey, NixLit, NixStr, StrElement};
use crate::text;
use vstd::prelude::*;
use vstd::string::*;
use vstd::utf8::*;

verus! {

/// Pieces of text, one behind the other.
pub open spec fn glued(parts: Seq<Option<Seq<char>>>) -> Seq<char>
    decreases parts.len(),
{
    if parts.len() == 0 {
        Seq::empty()
    } else {
        glued(parts.drop_last()) + parts.last()->0
    }
}

/// Whether a string spells a text out: nothing is interpolated, nothing stray
/// stands in it, and it is not too long to be read.
pub open spec fn spells(s: NixStr, t: Seq<char>) -> bool {
    &&& forall|i: int| 0 <= i < s.elements.len() ==> #[trigger] s.elements[i] != StrElement::Stray
    &&& s.quote == Some("''"@) ==> s.size <= 0x7fff_ffff
    &&& forall|i: int| 0 <= i < s.parts.len() ==> #[trigger] s.parts[i] is Some
    &&& glued(s.parts) == t
}

proof fn lemma_glued(parts: Seq<Option<Seq<char>>>)
    ensures
        glued(parts) == parts.fold_left(
            Seq::empty(),
            |acc: Seq<char>, p: Option<Seq<char>>| acc + p->0,
        ),
    decreases parts.len(),
{
    if parts.len() > 0 {
        lemma_glued(parts.drop_last());
    }
}

proof fn lemma_spells(s: NixStr, t: Seq<char>)
    ensures
        spells(s, t) <==> nix::literal_text(s) == Some(t),
{
    lemma_glued(s.parts);
    if s.elements.contains(StrElement::Stray) {
        let i = s.elements.index_of(StrElement::Stray);
        assert(s.elements[i] == StrElement::Stray);
    } else {
        assert forall|i: int| 0 <= i < s.elements.len() implies #[trigger] s.elements[i]
            != StrElement::Stray by {
            assert(s.elements.contains(s.elements[i]));
        }
    }
    if s.parts.contains(None) {
        let i = s.parts.index_of(None);
        assert(s.parts[i] is None);
    } else {
        assert forall|i: int| 0 <= i < s.parts.len() implies #[trigger] s.parts[i] is Some by {
            assert(s.parts.contains(s.parts[i]));
        }
    }
}

/// Whether a part of a path is that name.
pub open spec fn is_key(k: NixKey, name: Seq<char>) -> bool {
    match k {
        NixKey::Name(n) => n == Some(name),
        NixKey::Quoted(s) => spells(s, name),
        NixKey::Dynamic => false,
    }
}

/// Whether a path is those names.
pub open spec fn is_path(keys: Seq<NixKey>, names: Seq<Seq<char>>) -> bool {
    &&& keys.len() == names.len()
    &&& forall|i: int| 0 <= i < keys.len() ==> is_key(#[trigger] keys[i], names[i])
}

proof fn lemma_is_key(k: NixKey, name: Seq<char>)
    ensures
        is_key(k, name) <==> nix::key_name(k) == Some(name),
{
    if let NixKey::Quoted(s) = k {
        lemma_spells(s, name);
    }
}

proof fn lemma_is_path(keys: Seq<NixKey>, names: Seq<Seq<char>>)
    ensures
        is_path(keys, names) <==> nix::path_names(keys) == Some(names),
{
    if is_path(keys, names) {
        assert forall|i: int| 0 <= i < keys.len() implies nix::key_name(#[trigger] keys[i])
            == Some(names[i]) by {
            lemma_is_key(keys[i], names[i]);
        }
        assert(keys.map_values(|k: NixKey| nix::key_name(k)->0) =~= names);
    }
    if nix::path_names(keys) == Some(names) {
        let all = keys.map_values(|k: NixKey| nix::key_name(k)->0);
        assert(all == names);
        assert forall|i: int| 0 <= i < keys.len() implies is_key(#[trigger] keys[i], names[i]) by {
            assert(nix::key_name(keys[i]) is Some);
            assert(all[i] == nix::key_name(keys[i])->0);
            lemma_is_key(keys[i], names[i]);
        }
    }
}

/// Whether a set binds a path to an expression that is no set, sets within it
/// opened up.
pub open spec fn reaches(entries: Seq<NixEntry>, path: Seq<Seq<char>>, e: NixExpr) -> bool
    decreases entries,
{
    entries.len() > 0 && (entry_reaches(entries[entries.len() - 1], path, e) || reaches(
        entries.subrange(0, entries.len() - 1),
        path,
        e,
    ))
}

/// Whether one binding does.
pub open spec fn entry_reaches(b: NixEntry, path: Seq<Seq<char>>, e: NixExpr) -> bool
    decreases b,
{
    match (b.path, b.value) {
        (Some(keys), Some(NixExpr::Attrs(inner))) => {
            let n = keys.len() as int;
            &&& n <= path.len()
            &&& is_path(keys, path.take(n))
            &&& reaches(inner, path.skip(n), e)
        },
        (Some(keys), Some(value)) => is_path(keys, path) && value == e,
        _ => false,
    }
}

/// Whether an expression is a literal, and which.
pub open spec fn is_literal(e: NixExpr, v: Lit) -> bool {
    match v {
        Lit::Str(t) => e matches NixExpr::Quoted(s) && spells(s, t),
        Lit::Int(n) => e == NixExpr::Integer(Some(n)),
        Lit::Bool(b) => e matches NixExpr::Name(Some(x)) && x == if b {
            "true"@
        } else {
            "false"@
        },
    }
}

proof fn lemma_is_literal(path: Seq<Seq<char>>, e: NixExpr, v: Lit)
    requires
        !(e is Attrs),
    ensures
        is_literal(e, v) <==> nix::value_found(path, e) == Some(Ok::<Lit, Seq<char>>(v)),
{
    reveal_strlit("true");
    reveal_strlit("false");
    assert("true"@.len() == 4);
    assert("false"@.len() == 5);
    if let NixExpr::Quoted(s) = e {
        if let Lit::Str(t) = v {
            lemma_spells(s, t);
        }
    }
}

/// Whether something found is what an expression gives at a path.
spec fn gives(f: nix::Found, path: Seq<Seq<char>>, e: NixExpr) -> bool {
    &&& f.path == path
    &&& nix::value_found(path, e) == Some(f.what)
}

proof fn lemma_below(entries: Seq<NixEntry>, prefix: Seq<Seq<char>>, k: int)
    requires
        0 <= k < nix::all_found(entries, prefix).len(),
    ensures
        prefix.len() <= nix::all_found(entries, prefix)[k].path.len(),
        nix::all_found(entries, prefix)[k].path.take(prefix.len() as int) == prefix,
    decreases entries,
{
    let n = entries.len() - 1;
    let front = entries.subrange(0, n);
    let head = nix::all_found(front, prefix);
    let all = nix::all_found(entries, prefix);
    if k < head.len() {
        lemma_below(front, prefix, k);
        assert(all[k] == head[k]);
    } else {
        lemma_entry_below(entries[n], prefix, k - head.len());
        assert(all[k] == nix::entry_found(entries[n], prefix)[k - head.len()]);
    }
}

proof fn lemma_entry_below(b: NixEntry, prefix: Seq<Seq<char>>, k: int)
    requires
        0 <= k < nix::entry_found(b, prefix).len(),
    ensures
        prefix.len() <= nix::entry_found(b, prefix)[k].path.len(),
        nix::entry_found(b, prefix)[k].path.take(prefix.len() as int) == prefix,
    decreases b,
{
    let all = nix::entry_found(b, prefix);
    if let (Some(keys), Some(value)) = (b.path, b.value) {
        if let Some(names) = nix::path_names(keys) {
            let full = prefix + names;
            if let NixExpr::Attrs(inner) = value {
                lemma_below(inner, full, k);
                let p = all[k].path;
                assert(p.take(prefix.len() as int) == p.take(full.len() as int).take(
                    prefix.len() as int,
                ));
                assert(full.take(prefix.len() as int) == prefix);
            } else {
                assert(all[k].path == full);
                assert(full.take(prefix.len() as int) == prefix);
            }
        }
    }
}

/// What is found at a path below `prefix` comes from an expression that is
/// reached there.
proof fn lemma_found_reached(
    entries: Seq<NixEntry>,
    prefix: Seq<Seq<char>>,
    k: int,
) -> (e: NixExpr)
    requires
        0 <= k < nix::all_found(entries, prefix).len(),
    ensures
        reaches(entries, nix::all_found(entries, prefix)[k].path.skip(prefix.len() as int), e),
        gives(nix::all_found(entries, prefix)[k], nix::all_found(entries, prefix)[k].path, e),
        !(e is Attrs),
    decreases entries,
{
    let n = entries.len() - 1;
    let front = entries.subrange(0, n);
    let head = nix::all_found(front, prefix);
    let all = nix::all_found(entries, prefix);
    let rel = all[k].path.skip(prefix.len() as int);
    if k < head.len() {
        assert(all[k] == head[k]);
        lemma_found_reached(front, prefix, k)
    } else {
        assert(all[k] == nix::entry_found(entries[n], prefix)[k - head.len()]);
        let e = lemma_entry_found_reached(entries[n], prefix, k - head.len());
        assert(entry_reaches(entries[n], rel, e));
        e
    }
}

proof fn lemma_entry_found_reached(b: NixEntry, prefix: Seq<Seq<char>>, k: int) -> (e: NixExpr)
    requires
        0 <= k < nix::entry_found(b, prefix).len(),
    ensures
        entry_reaches(b, nix::entry_found(b, prefix)[k].path.skip(prefix.len() as int), e),
        gives(nix::entry_found(b, prefix)[k], nix::entry_found(b, prefix)[k].path, e),
        !(e is Attrs),
    decreases b,
{
    let all = nix::entry_found(b, prefix);
    let keys = b.path->0;
    let value = b.value->0;
    let names = nix::path_names(keys)->0;
    let full = prefix + names;
    let p = all[k].path;
    let rel = p.skip(prefix.len() as int);
    lemma_is_path(keys, names);
    match value {
        NixExpr::Attrs(inner) => {
            let e = lemma_found_reached(inner, full, k);
            lemma_below(inner, full, k);
            let n = keys.len() as int;
            assert(n == names.len());
            assert(rel.take(n) == names) by {
                assert(p.take(full.len() as int) == full);
                assert forall|i: int| 0 <= i < n implies rel.take(n)[i] == names[i] by {
                    assert(p.take(full.len() as int)[prefix.len() + i] == full[prefix.len() + i]);
                }
            }
            assert(rel.skip(n) == p.skip(full.len() as int));
            e
        },
        _ => {
            assert(p == full);
            assert(rel == names);
            value
        },
    }
}

/// An expression that is reached and gives something is found.
proof fn lemma_reached_found(
    entries: Seq<NixEntry>,
    prefix: Seq<Seq<char>>,
    rel: Seq<Seq<char>>,
    e: NixExpr,
) -> (k: int)
    requires
        reaches(entries, rel, e),
        !(e is Attrs),
        nix::value_found(prefix + rel, e) is Some,
    ensures
        0 <= k < nix::all_found(entries, prefix).len(),
        gives(nix::all_found(entries, prefix)[k], prefix + rel, e),
    decreases entries,
{
    let n = entries.len() - 1;
    let front = entries.subrange(0, n);
    let head = nix::all_found(front, prefix);
    let all = nix::all_found(entries, prefix);
    if reaches(front, rel, e) {
        let k = lemma_reached_found(front, prefix, rel, e);
        assert(all[k] == head[k]);
        k
    } else {
        let k = lemma_entry_reached_found(entries[n], prefix, rel, e);
        assert(all[head.len() + k] == nix::entry_found(entries[n], prefix)[k]);
        head.len() + k
    }
}

proof fn lemma_entry_reached_found(
    b: NixEntry,
    prefix: Seq<Seq<char>>,
    rel: Seq<Seq<char>>,
    e: NixExpr,
) -> (k: int)
    requires
        entry_reaches(b, rel, e),
        !(e is Attrs),
        nix::value_found(prefix + rel, e) is Some,
    ensures
        0 <= k < nix::entry_found(b, prefix).len(),
        gives(nix::entry_found(b, prefix)[k], prefix + rel, e),
    decreases b,
{
    let keys = b.path->0;
    let value = b.value->0;
    match value {
        NixExpr::Attrs(inner) => {
            let n = keys.len() as int;
            let names = rel.take(n);
            lemma_is_path(keys, names);
            assert(prefix + rel == (prefix + names) + rel.skip(n));
            lemma_reached_found(inner, prefix + names, rel.skip(n), e)
        },
        _ => {
            lemma_is_path(keys, rel);
            assert(nix::entry_found(b, prefix)[0].path == prefix + rel);
            0
        },
    }
}

/// Literals are accepted exactly where nothing was refused and no path occurs
/// twice, and are then those that were found.
proof fn lemma_literals(found: Seq<nix::Found>)
    ensures
        nix::literals(found) is Ok <==> {
            &&& forall|k: int| 0 <= k < found.len() ==> (#[trigger] found[k]).what is Ok
            &&& forall|k: int, l: int|
                0 <= k < l < found.len() ==> (#[trigger] found[k]).path != (
                #[trigger] found[l]).path
        },
        nix::literals(found) matches Ok(list) ==> list.len() == found.len() && forall|k: int|
            0 <= k < found.len() ==> (#[trigger] list[k]).path == found[k].path && found[k].what
                == Ok::<Lit, Seq<char>>(list[k].value),
    decreases found.len(),
{
    if found.len() > 0 {
        let front = found.drop_last();
        let n = found.len() - 1;
        lemma_literals(front);
        assert(forall|k: int| 0 <= k < n ==> front[k] == found[k]);
        assert(found[n] == found.last());
        if let Ok(list) = nix::literals(front) {
            nix::lemma_value_at(list, found[n].path);
            if nix::literals(found) is Ok {
                assert forall|k: int, l: int| 0 <= k < l < found.len() implies (
                #[trigger] found[k]).path != (#[trigger] found[l]).path by {
                    if l == n {
                        assert(list[k].path == front[k].path);
                    } else {
                        assert(front[k].path != front[l].path);
                    }
                }
            }
            if nix::value_at(list, found[n].path) is Some {
                let i = choose|i: int|
                    0 <= i < list.len() && (#[trigger] list[i]).path == found[n].path && Some(
                        list[i].value,
                    ) == nix::value_at(list, found[n].path);
                assert(found[i].path == found[n].path);
            }
        } else {
            if forall|k: int| 0 <= k < found.len() ==> (#[trigger] found[k]).what is Ok {
                assert forall|k: int| 0 <= k < front.len() implies (
                #[trigger] front[k]).what is Ok by {
                    assert(found[k].what is Ok);
                }
                if forall|k: int, l: int|
                    0 <= k < l < found.len() ==> (#[trigger] found[k]).path != (
                    #[trigger] found[l]).path {
                    assert forall|k: int, l: int| 0 <= k < l < front.len() implies (
                    #[trigger] front[k]).path != (#[trigger] front[l]).path by {
                        assert(found[k].path != found[l].path);
                    }
                }
            }
        }
    }
}

proof fn lemma_under(list: Seq<nix::Bound>, path: Seq<Seq<char>>, v: Lit)
    ensures
        nix::under_neals(list).contains((nix::Bound { path, value: v })) <==> list.contains(
            (nix::Bound { path: seq!["neals"@] + path, value: v }),
        ),
    decreases list.len(),
{
    let b = nix::Bound { path, value: v };
    let full = nix::Bound { path: seq!["neals"@] + path, value: v };
    let kept = nix::under_neals(list);
    if list.len() > 0 {
        let front = list.drop_last();
        let n = list.len() - 1;
        let last = list.last();
        let rest = nix::under_neals(front);
        lemma_under(front, path, v);
        assert(list[n] == last);
        assert(full.path[0] == "neals"@);
        assert(full.path.skip(1) == path);
        if last.path.len() > 0 && last.path[0] == "neals"@ {
            assert(last.path == seq!["neals"@] + last.path.skip(1));
        }
        if rest.contains(b) {
            let k = rest.index_of(b);
            assert(kept[k] == b);
            let i = front.index_of(full);
            assert(list[i] == full);
        }
        if kept.contains(b) && !rest.contains(b) {
            let k = kept.index_of(b);
            if k < rest.len() {
                assert(rest[k] == b);
            }
            assert(list[n] == full);
        }
        if list.contains(full) {
            let i = list.index_of(full);
            if i < n {
                assert(front[i] == full);
            } else {
                assert(kept[rest.len() as int] == b);
            }
        }
    }
}

/// The set that an expression comes down to below functions, `with` and
/// `let … in`.
pub open spec fn comes_down_to(e: NixExpr, entries: Seq<NixEntry>) -> bool
    decreases e,
{
    match e {
        NixExpr::Attrs(s) => s == entries,
        NixExpr::Lambda(Some(b)) => comes_down_to(*b, entries),
        NixExpr::With(Some(b)) => comes_down_to(*b, entries),
        NixExpr::LetIn(Some(b)) => comes_down_to(*b, entries),
        _ => false,
    }
}

proof fn lemma_comes_down(e: NixExpr, entries: Seq<NixEntry>)
    ensures
        comes_down_to(e, entries) <==> nix::top_set(e) == Some(entries),
    decreases e,
{
    match e {
        NixExpr::Lambda(Some(b)) => lemma_comes_down(*b, entries),
        NixExpr::With(Some(b)) => lemma_comes_down(*b, entries),
        NixExpr::LetIn(Some(b)) => lemma_comes_down(*b, entries),
        _ => {},
    }
}

/// Whether a binding is of that path and value.
pub open spec fn is_binding(b: Binding, path: Seq<Seq<char>>, v: Lit) -> bool {
    &&& b.path@.len() == path.len()
    &&& forall|i: int| 0 <= i < path.len() ==> (#[trigger] b.path@[i])@ == path[i]
    &&& match (b.value, v) {
        (NixLit::Str(s), Lit::Str(t)) => s@ == t,
        (NixLit::Int(n), Lit::Int(m)) => n == m,
        (NixLit::Bool(x), Lit::Bool(y)) => x == y,
        _ => false,
    }
}

/// Whether a list holds a binding of that path and value.
pub open spec fn has_binding(list: Seq<Binding>, path: Seq<Seq<char>>, v: Lit) -> bool {
    exists|i: int| 0 <= i < list.len() && is_binding(#[trigger] list[i], path, v)
}

proof fn lemma_has_binding(list: Seq<Binding>, path: Seq<Seq<char>>, v: Lit)
    ensures
        has_binding(list, path, v) <==> nix::bounds(list).contains(
            (nix::Bound { path, value: v }),
        ),
{
    let all = nix::bounds(list);
    let b = nix::Bound { path, value: v };
    if has_binding(list, path, v) {
        let i = choose|i: int| 0 <= i < list.len() && is_binding(#[trigger] list[i], path, v);
        assert(text::views(list[i].path@) =~= path);
        assert(all[i] == b);
    }
    if all.contains(b) {
        let i = all.index_of(b);
        assert(all[i] == list[i]@);
        let p = text::views(list[i].path@);
        assert(p.len() == list[i].path@.len());
        assert forall|k: int| 0 <= k < path.len() implies (#[trigger] list[i].path@[k])@
            == path[k] by {
            assert(p[k] == list[i].path@[k]@);
        }
        assert(is_binding(list[i], path, v));
    }
}

/// The literals that a source is read for are those that its outermost set
/// binds below `neals`, however the paths are nested, and no others.
pub proof fn literals_of_a_source(
    src: &str,
    r: Result<Vec<Binding>, String>,
    list: Vec<Binding>,
    expr: NixExpr,
    entries: Seq<NixEntry>,
    path: Seq<Seq<char>>,
    v: Lit,
)
    requires
        call_ensures(nix::collect_neals_literals, (src,), r),
        r == Ok::<Vec<Binding>, String>(list),
        nix::source_tree(src@) == Some(expr),
        comes_down_to(expr, entries),
    ensures
        has_binding(list@, path, v) <==> exists|e: NixExpr| #[trigger]
            reaches(entries, seq!["neals"@] + path, e) && is_literal(e, v),
{
    lemma_comes_down(expr, entries);
    let none = Seq::<Seq<char>>::empty();
    let found = nix::all_found(entries, none);
    let all = nix::literals(found)->Ok_0;
    let full = seq!["neals"@] + path;
    lemma_literals(found);
    lemma_has_binding(list@, path, v);
    lemma_under(all, path, v);
    let b = nix::Bound { path: full, value: v };
    if all.contains(b) {
        let k = all.index_of(b);
        assert(found[k].path == full);
        let e = lemma_found_reached(entries, none, k);
        assert(full.skip(0) == full);
        lemma_is_literal(full, e, v);
        assert(reaches(entries, full, e));
    }
    if exists|e: NixExpr| #[trigger] reaches(entries, full, e) && is_literal(e, v) {
        let e = choose|e: NixExpr| #[trigger] reaches(entries, full, e) && is_literal(e, v);
        assert(!(e is Attrs));
        lemma_is_literal(full, e, v);
        assert(none + full == full);
        let k = lemma_reached_found(entries, none, full, e);
        assert(all[k] == b);
    }
}

/// A source without a set, or with none at all, binds nothing.
pub proof fn literals_of_no_set(src: &str, r: Result<Vec<Binding>, String>)
    requires
        call_ensures(nix::collect_neals_literals, (src,), r),
        encode_utf8(src@).len() <= 0xffff_ffff,
        nix::source_tree(src@) matches Some(e) ==> forall|s: Seq<NixEntry>|
            !#[trigger] comes_down_to(e, s),
    ensures
        r matches Ok(list) && list@.len() == 0,
{
    if let Some(e) = nix::source_tree(src@) {
        if let Some(s) = nix::top_set(e) {
            lemma_comes_down(e, s);
        }
    }
    if let Ok(list) = r {
        assert(nix::bounds(list@).len() == list@.len());
    }
}

/// A service, a route or a name below `neals` that is bound to something else
/// than a literal, and a number too large for one, are refused.
pub proof fn refused_sources(
    src: &str,
    r: Result<Vec<Binding>, String>,
    expr: NixExpr,
    entries: Seq<NixEntry>,
    path: Seq<Seq<char>>,
    e: NixExpr,
)
    requires
        call_ensures(nix::collect_neals_literals, (src,), r),
        encode_utf8(src@).len() <= 0xffff_ffff,
        nix::source_tree(src@) == Some(expr),
        comes_down_to(expr, entries),
        reaches(entries, path, e),
        e == NixExpr::Integer(None) || {
            &&& path.len() >= 3
            &&& path[0] == "neals"@
            &&& path[1] == "services"@ || path[1] == "route"@ || path[1] == "name"@
            &&& e is Lambda || e is With || e is LetIn || e is OtherLiteral || e is Other || (
            e matches NixExpr::Name(Some(x)) && x != "true"@ && x != "false"@) || (
            e matches NixExpr::Quoted(s) && s.parts.contains(None))
        },
    ensures
        r is Err,
{
    lemma_comes_down(expr, entries);
    let none = Seq::<Seq<char>>::empty();
    let found = nix::all_found(entries, none);
    lemma_literals(found);
    assert(none + path == path);
    assert(nix::value_found(path, e) matches Some(Err(_)));
    let k = lemma_reached_found(entries, none, path, e);
    assert(found[k].what is Err);
}

/// A source that is longer than can be counted is refused.
pub proof fn too_long_a_source(src: &str, r: Result<Vec<Binding>, String>)
    requires
        call_ensures(nix::collect_neals_literals, (src,), r),
        encode_utf8(src@).len() > 0xffff_ffff,
    ensures
        r matches Err(m) && m@ == "source is too long"@,
{
}

} // verus!
