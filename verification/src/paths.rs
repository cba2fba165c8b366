//! Unix paths as strings.
//!
//! Two paths are the same if their components are: repeated slashes, trailing
//! slashes and `.` in the middle make no difference.
use crate::text;
use crate::words;
use vstd::prelude::*;
use vstd::string::*;

verus! {

/// `rel` below `base`; an absolute `rel` stands on its own.
pub open spec fn below(base: Seq<char>, rel: Seq<char>) -> Seq<char> {
    if rel.len() > 0 && rel[0] == '/' {
        rel
    } else if base.len() == 0 || base.last() == '/' {
        base + rel
    } else {
        base + "/"@ + rel
    }
}

/// `rel` below `base`; an absolute `rel` stands on its own.
pub fn join_path(base: &str, rel: &str) -> (r: String)
    ensures
        r@ == below(base@, rel@),
{
    let rel_len: usize = rel.unicode_len();
    let base_len: usize = base.unicode_len();
    if rel_len > 0 && rel.get_char(0) == '/' {
        rel.to_owned()
    } else if base_len == 0 || base.get_char(base_len - 1) == '/' {
        base.to_owned().concat(rel)
    } else {
        base.to_owned().concat("/").concat(rel)
    }
}

/// The named components of a path: its pieces between slashes, without empty
/// ones and `.`.
pub open spec fn named(segments: Seq<Seq<char>>) -> Seq<Seq<char>>
    decreases segments.len(),
{
    if segments.len() == 0 {
        Seq::empty()
    } else {
        let rest = named(segments.drop_last());
        if segments.last() == ""@ || segments.last() == "."@ {
            rest
        } else {
            rest.push(segments.last())
        }
    }
}

/// What a path starts with, in front of its named components: the root, a
/// leading `.`, or nothing.
pub open spec fn anchor(path: Seq<char>) -> Seq<Seq<char>> {
    if path.len() > 0 && path[0] == '/' {
        seq!["/"@]
    } else if words::pieces(path, '/')[0] == "."@ {
        seq!["."@]
    } else {
        Seq::empty()
    }
}

/// The components of a path. The root is the component `/`.
pub open spec fn components(path: Seq<char>) -> Seq<Seq<char>> {
    anchor(path) + named(words::pieces(path, '/'))
}

/// Whether two paths lead through the same components.
pub open spec fn same_path(a: Seq<char>, b: Seq<char>) -> bool {
    components(a) == components(b)
}

/// The components of a path.
pub fn split_path(path: &str) -> (r: Vec<String>)
    ensures
        text::views(r@) == components(path@),
{
    let chars = text::to_chars(path);
    let segments = words::split_on(&chars, '/');
    let ghost all = text::views(segments@);
    let mut r: Vec<String> = Vec::new();
    assert(segments@[0]@ == all[0]);
    if chars.len() > 0 && chars[0] == '/' {
        r.push("/".to_owned());
    } else if text::same(segments[0].as_str(), ".") {
        r.push(".".to_owned());
    }
    assert(text::views(r@) == anchor(path@));
    assert(all.take(0) == Seq::<Seq<char>>::empty());
    assert(anchor(path@) + named(all.take(0)) == anchor(path@));
    for i in 0..segments.len()
        invariant
            all == text::views(segments@),
            text::views(r@) == anchor(path@) + named(all.take(i as int)),
    {
        assert(all.take(i + 1).drop_last() == all.take(i as int));
        let s = segments[i].as_str();
        if !text::same(s, "") && !text::same(s, ".") {
            let ghost before = text::views(r@);
            r.push(segments[i].clone());
            assert(text::views(r@) == before.push(all[i as int]));
            assert(before.push(all[i as int]) == anchor(path@) + named(all.take(i as int)).push(
                all[i as int],
            ));
        }
    }
    assert(all.take(all.len() as int) == all);
    r
}

/// Whether two paths lead through the same components.
pub fn is_same_path(a: &str, b: &str) -> (r: bool)
    ensures
        r == same_path(a@, b@),
{
    text::same_list(&split_path(a), &split_path(b))
}

/// The path that leads through the given components.
pub open spec fn rendered(parts: Seq<Seq<char>>) -> Seq<char> {
    if parts.len() > 0 && parts[0] == "/"@ {
        "/"@ + words::joined(parts.skip(1), "/"@)
    } else {
        words::joined(parts, "/"@)
    }
}

/// The path that leads through the given components.
pub fn render_path(parts: &Vec<String>) -> (r: String)
    ensures
        r@ == rendered(text::views(parts@)),
{
    if parts.len() > 0 && text::same(parts[0].as_str(), "/") {
        let rest = tail(parts);
        "/".to_owned().concat(words::join(&rest, "/").as_str())
    } else {
        words::join(parts, "/")
    }
}

/// The strings behind the first.
fn tail(parts: &Vec<String>) -> (r: Vec<String>)
    requires
        parts.len() > 0,
    ensures
        text::views(r@) == text::views(parts@).skip(1),
{
    let mut r: Vec<String> = Vec::new();
    let ghost all = text::views(parts@);
    for i in 1..parts.len()
        invariant
            parts.len() > 0,
            all == text::views(parts@),
            text::views(r@) == all.subrange(1, i as int),
    {
        let ghost before = text::views(r@);
        r.push(parts[i].clone());
        assert(text::views(r@) == before.push(all[i as int]));
        assert(all.subrange(1, i + 1) == all.subrange(1, i as int).push(all[i as int]));
    }
    assert(all.subrange(1, all.len() as int) == all.skip(1));
    r
}

/// The last component, if it is a name.
pub open spec fn last_name(path: Seq<char>) -> Option<Seq<char>> {
    let c = components(path);
    if c.len() == 0 || c.last() == "/"@ || c.last() == "."@ || c.last() == ".."@ {
        None
    } else {
        Some(c.last())
    }
}

/// The last component, if it is a name.
pub fn file_name(path: &str) -> (r: Option<String>)
    ensures
        match r {
            Some(n) => last_name(path@) == Some(n@),
            None => last_name(path@) is None,
        },
{
    let mut c = split_path(path);
    let ghost all = text::views(c@);
    match c.pop() {
        None => None,
        Some(n) => {
            assert(n@ == all.last());
            let s = n.as_str();
            if text::same(s, "/") || text::same(s, ".") || text::same(s, "..") {
                None
            } else {
                Some(n)
            }
        },
    }
}

/// The components of the directory that holds `path`. The root and the empty
/// path have none.
pub open spec fn parent_parts(path: Seq<char>) -> Option<Seq<Seq<char>>> {
    let c = components(path);
    if c.len() == 0 || c.last() == "/"@ {
        None
    } else {
        Some(c.drop_last())
    }
}

/// The directory that holds `path`.
pub open spec fn parent_path(path: Seq<char>) -> Option<Seq<char>> {
    match parent_parts(path) {
        Some(c) => Some(rendered(c)),
        None => None,
    }
}

/// The directory that holds `path`.
pub fn parent(path: &str) -> (r: Option<String>)
    ensures
        match r {
            Some(p) => parent_path(path@) == Some(p@),
            None => parent_path(path@) is None,
        },
{
    let mut c = split_path(path);
    let ghost all = text::views(c@);
    match c.pop() {
        None => None,
        Some(n) => {
            assert(n@ == all.last());
            assert(text::views(c@) == all.drop_last());
            if text::same(n.as_str(), "/") {
                None
            } else {
                Some(render_path(&c))
            }
        },
    }
}

/// `path` with its last component replaced by `name`, or `name` below `path`
/// if that component is no name.
pub open spec fn renamed(path: Seq<char>, name: Seq<char>) -> Seq<char> {
    if last_name(path) is Some {
        below(rendered(components(path).drop_last()), name)
    } else {
        below(path, name)
    }
}

/// `path` with its last component replaced by `name`.
pub fn with_file_name(path: &str, name: &str) -> (r: String)
    ensures
        r@ == renamed(path@, name@),
{
    match file_name(path) {
        Some(_) => match parent(path) {
            Some(p) => join_path(p.as_str(), name),
            None => join_path(path, name),
        },
        None => join_path(path, name),
    }
}

/// The components of `path` below `base`, if it lies there.
pub open spec fn inside(path: Seq<char>, base: Seq<char>) -> Option<Seq<Seq<char>>> {
    let p = components(path);
    let b = components(base);
    if b.len() <= p.len() && p.take(b.len() as int) == b {
        Some(p.skip(b.len() as int))
    } else {
        None
    }
}

/// The components of `path` below `base`, if it lies there.
pub fn strip_prefix(path: &str, base: &str) -> (r: Option<Vec<String>>)
    ensures
        match r {
            Some(rest) => inside(path@, base@) == Some(text::views(rest@)),
            None => inside(path@, base@) is None,
        },
{
    let p = split_path(path);
    let b = split_path(base);
    let ghost ps = text::views(p@);
    let ghost bs = text::views(b@);
    if b.len() > p.len() {
        return None;
    }
    for i in 0..b.len()
        invariant
            b.len() <= p.len(),
            ps == text::views(p@),
            bs == text::views(b@),
            ps == components(path@),
            bs == components(base@),
            forall|j: int| 0 <= j < i ==> ps[j] == bs[j],
    {
        if !text::same(p[i].as_str(), b[i].as_str()) {
            assert(ps.take(bs.len() as int)[i as int] != bs[i as int]);
            return None;
        }
    }
    assert(ps.take(bs.len() as int) == bs);
    let mut rest: Vec<String> = Vec::new();
    for i in b.len()..p.len()
        invariant
            b.len() <= p.len(),
            ps == text::views(p@),
            text::views(rest@) == ps.subrange(b@.len() as int, i as int),
    {
        let ghost before = text::views(rest@);
        rest.push(p[i].clone());
        assert(text::views(rest@) == before.push(ps[i as int]));
        assert(ps.subrange(b@.len() as int, i + 1) == ps.subrange(b@.len() as int, i as int).push(
            ps[i as int],
        ));
    }
    assert(ps.subrange(b@.len() as int, ps.len() as int) == ps.skip(bs.len() as int));
    Some(rest)
}

/// A name that is one component of a path.
pub open spec fn is_plain_name(name: Seq<char>) -> bool {
    &&& name.len() > 0
    &&& !name.contains('/')
    &&& name != "."@
    &&& name != ".."@
}

proof fn lemma_named_push(segments: Seq<Seq<char>>, last: Seq<char>)
    ensures
        named(segments.push(last)) == if last == ""@ || last == "."@ {
            named(segments)
        } else {
            named(segments).push(last)
        },
{
    assert(segments.push(last).drop_last() == segments);
}

/// A plain name below a directory is one more component.
pub proof fn components_below(base: Seq<char>, name: Seq<char>)
    requires
        is_plain_name(name),
    ensures
        components(below(base, name)) == components(base).push(name),
        last_name(below(base, name)) == Some(name),
        parent_parts(below(base, name)) == Some(components(base)),
{
    reveal_strlit("");
    reveal_strlit("/");
    reveal_strlit(".");
    let whole = below(base, name);
    words::one_piece(name, '/');
    if name[0] == '/' {
        assert(name.contains('/'));
    }
    assert(name != ""@);
    if base.len() == 0 {
        assert(whole == name);
        assert(!base.contains('/'));
        words::one_piece(base, '/');
        assert(base == ""@);
        let p = Seq::<Seq<char>>::empty();
        assert(words::pieces(base, '/') == p.push(""@));
        assert(words::pieces(whole, '/') == p.push(name));
        lemma_named_push(p, ""@);
        lemma_named_push(p, name);
    } else if base.last() == '/' {
        let front = base.drop_last();
        assert(base == front.push('/'));
        assert(whole == front.push('/') + name);
        words::pieces_of_two(front, name, '/');
        words::pieces_of_two(front, Seq::empty(), '/');
        assert(front.push('/') + Seq::<char>::empty() == base);
        let p = words::pieces(front, '/');
        assert(!Seq::<char>::empty().contains('/'));
        words::one_piece(Seq::empty(), '/');
        assert(Seq::<char>::empty() == ""@);
        assert(words::pieces(base, '/') == p.push(""@));
        assert(words::pieces(whole, '/') == p.push(name));
        lemma_named_push(p, ""@);
        lemma_named_push(p, name);
        assert(whole[0] == base[0]);
        assert(p.len() > 0);
        assert(p.push(""@)[0] == p[0]);
        assert(p.push(name)[0] == p[0]);
    } else {
        assert(whole == base.push('/') + name);
        words::pieces_of_two(base, name, '/');
        let p = words::pieces(base, '/');
        assert(words::pieces(whole, '/') == p.push(name));
        lemma_named_push(p, name);
        assert(whole[0] == base[0]);
        assert(p.len() > 0);
        assert(p.push(name)[0] == p[0]);
    }
    assert(anchor(whole) == anchor(base));
    assert(components(whole) == components(base).push(name));
    assert(components(base).push(name).drop_last() == components(base));
    assert(name != "/"@) by {
        assert("/"@.contains('/')) by {
            assert("/"@[0] == '/');
        }
    }
}

} // verus!
