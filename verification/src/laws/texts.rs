//! Numbers, names and paths as they are written.
use crate::paths;
use crate::quote;
use crate::text;
use crate::words;
use vstd::prelude::*;
use vstd::string::*;

verus! {

/// The number that a run of digits stands for, read from the left.
pub open spec fn reads(s: Seq<char>) -> nat
    decreases s.len(),
{
    if s.len() == 0 {
        0
    } else {
        10 * reads(s.drop_last()) + (s.last() as u32 - '0' as u32) as nat
    }
}

/// Whether `s` is a number as people write it: digits, and no zero in front.
pub open spec fn is_numeral(s: Seq<char>) -> bool {
    &&& s.len() > 0
    &&& forall|i: int| 0 <= i < s.len() ==> '0' <= #[trigger] s[i] <= '9'
    &&& s.len() > 1 ==> s[0] != '0'
}

proof fn lemma_decimal(n: nat)
    ensures
        is_numeral(text::decimal(n)),
        reads(text::decimal(n)) == n,
    decreases n,
{
    let s = text::decimal(n);
    if n < 10 {
        assert(s.drop_last() == Seq::<char>::empty());
        assert(s.last() == text::digit(n));
        assert(reads(s.drop_last()) == 0);
    } else {
        let t = text::decimal(n / 10);
        lemma_decimal(n / 10);
        assert(s.drop_last() == t);
        assert(s.last() == text::digit(n % 10));
        assert forall|i: int| 0 <= i < s.len() implies '0' <= #[trigger] s[i] <= '9' by {
            if i < t.len() {
                assert(s[i] == t[i]);
            }
        }
        assert(s[0] == t[0]);
        if t.len() == 1 && t[0] == '0' {
            assert(t.drop_last() == Seq::<char>::empty());
            assert(reads(t.drop_last()) == 0);
            assert(reads(t) == 0);
        }
    }
}

/// A number is written with digits, without a zero in front, and what is
/// written stands for it.
pub proof fn written_number(n: u64, r: String)
    requires
        call_ensures(text::decimal_text, (n,), r),
    ensures
        is_numeral(r@),
        reads(r@) == n,
        r@ == text::decimal(n as nat),
{
    lemma_decimal(n as nat);
}

pub(crate) proof fn lemma_reads(s: Seq<char>)
    ensures
        reads(s) == text::digits_value(s),
    decreases s.len(),
{
    if s.len() > 0 {
        lemma_reads(s.drop_last());
    }
}

/// A negative number is written as a minus sign and its size.
pub proof fn written_signed_number(n: i64, r: String)
    requires
        call_ensures(text::signed_text, (n,), r),
    ensures
        n >= 0 ==> is_numeral(r@) && reads(r@) == n,
        n < 0 ==> r@.len() > 1 && r@[0] == '-' && is_numeral(r@.skip(1)) && reads(r@.skip(1)) == -n,
{
    reveal_strlit("-");
    if n < 0 {
        lemma_decimal((-n) as nat);
        assert(r@.skip(1) == text::decimal((-n) as nat));
    } else {
        lemma_decimal(n as nat);
    }
}

/// A number is read exactly where there is nothing but digits, at least one,
/// with at most a plus sign in front, and it is no more than allowed.
pub proof fn read_number(cs: &Vec<char>, max: u64, d: Seq<char>, r: Option<u64>)
    requires
        call_ensures(text::parse_number, (cs, max), r),
        (cs@ == d && (d.len() > 0 ==> d[0] != '+')) || cs@ == seq!['+'] + d,
    ensures
        r is Some <==> d.len() > 0 && (forall|i: int|
            0 <= i < d.len() ==> '0' <= #[trigger] d[i] <= '9') && reads(d) <= max,
        r matches Some(n) ==> n == reads(d),
{
    assert(text::unsigned_part(cs@) == d);
    lemma_reads(d);
    assert(text::all_digits(d) <==> forall|i: int|
        0 <= i < d.len() ==> '0' <= #[trigger] d[i] <= '9') by {
        if text::all_digits(d) {
            assert forall|i: int| 0 <= i < d.len() implies '0' <= #[trigger] d[i] <= '9' by {
                assert(text::is_digit(d[i]));
            }
        }
    }
}

// ---------------------------------------------------------------------------
// Order
// ---------------------------------------------------------------------------
/// Whether `a` stands in front of `b` in a dictionary: they agree up to some
/// point, and there `a` ends or has the smaller character.
pub open spec fn earlier(a: Seq<char>, b: Seq<char>) -> bool {
    exists|n: int| #[trigger] parts_at(a, b, n)
}

/// Whether two texts agree in front of `n`, and `a` is the smaller one there.
pub open spec fn parts_at(a: Seq<char>, b: Seq<char>, n: int) -> bool {
    &&& 0 <= n <= a.len()
    &&& n < b.len()
    &&& forall|i: int| 0 <= i < n ==> a[i] == b[i]
    &&& n == a.len() || a[n] < b[n]
}

pub(crate) proof fn lemma_earlier(a: Seq<char>, b: Seq<char>)
    ensures
        words::before(a, b) == earlier(a, b),
    decreases a.len(),
{
    if b.len() > 0 && a.len() == 0 {
        assert(parts_at(a, b, 0));
    } else if b.len() > 0 && a[0] != b[0] {
        if a[0] < b[0] {
            assert(parts_at(a, b, 0));
        }
    } else if b.len() > 0 {
        let c = a.skip(1);
        let d = b.skip(1);
        lemma_earlier(c, d);
        if earlier(c, d) {
            let n = choose|n: int| #[trigger] parts_at(c, d, n);
            assert forall|i: int| 0 <= i < n + 1 implies a[i] == b[i] by {
                if i > 0 {
                    assert(c[i - 1] == d[i - 1]);
                }
            }
            assert(parts_at(a, b, n + 1));
        }
        if earlier(a, b) {
            let n = choose|n: int| #[trigger] parts_at(a, b, n);
            assert forall|i: int| 0 <= i < n - 1 implies c[i] == d[i] by {
                assert(a[i + 1] == b[i + 1]);
            }
            assert(parts_at(c, d, n - 1));
        }
    }
}

/// Texts are compared as in a dictionary.
pub proof fn order_of_a_dictionary(a: &Vec<char>, b: &Vec<char>, r: bool)
    requires
        call_ensures(words::comes_before, (a, b), r),
    ensures
        r == earlier(a@, b@),
{
    lemma_earlier(a@, b@);
}

// ---------------------------------------------------------------------------
// Splitting and joining
// ---------------------------------------------------------------------------
/// A text without white space is one word, and the empty one is none.
pub proof fn one_word(s: &Vec<char>, r: Vec<String>)
    requires
        call_ensures(words::split_words, (s,), r),
        forall|i: int| 0 <= i < s@.len() ==> !text::is_space(#[trigger] s@[i]),
    ensures
        s@.len() == 0 ==> r@.len() == 0,
        s@.len() > 0 ==> r@.len() == 1 && r@[0]@ == s@,
{
    let said = text::views(r@);
    assert(said.len() == r@.len());
    if s@.len() > 0 {
        let none = Seq::<char>::empty();
        assert(words::no_space(s@));
        words::lemma_word_len(s@, none);
        assert(s@ + none == s@);
        assert(s@.take(s@.len() as int) == s@);
        assert(s@.skip(s@.len() as int) == none);
        assert(words::words(none) == Seq::<Seq<char>>::empty());
        assert(words::words(s@) == seq![s@] + Seq::<Seq<char>>::empty());
        assert(said[0] == r@[0]@);
    }
}

pub(crate) proof fn lemma_words_of_two(a: Seq<char>, c: char, b: Seq<char>)
    requires
        text::is_space(c),
    ensures
        words::words(a + seq![c] + b) == words::words(a) + words::words(b),
    decreases a.len(),
{
    let whole = a + seq![c] + b;
    if a.len() == 0 {
        assert(whole[0] == c);
        assert(whole.skip(1) == b);
        assert(words::words(a) + words::words(b) == words::words(b));
    } else if text::is_space(a[0]) {
        assert(whole[0] == a[0]);
        assert(whole.skip(1) == a.skip(1) + seq![c] + b);
        lemma_words_of_two(a.skip(1), c, b);
    } else {
        words::lemma_word_len_bound(a);
        let n = words::word_len(a) as int;
        lemma_word_is(a);
        let w = a.take(n);
        let rest = a.skip(n);
        assert(a == w + rest);
        assert(whole == w + (rest + seq![c] + b));
        let more = rest + seq![c] + b;
        assert(more[0] == if rest.len() > 0 {
            rest[0]
        } else {
            c
        });
        words::lemma_word_len(w, more);
        assert(whole[0] == a[0]);
        assert(whole.take(n) == w);
        assert(whole.skip(n) == more);
        lemma_words_of_two(rest, c, b);
        assert(seq![w] + (words::words(rest) + words::words(b)) == (seq![w] + words::words(rest))
            + words::words(b));
    }
}

pub(crate) proof fn lemma_word_is(a: Seq<char>)
    ensures
        words::word_len(a) <= a.len(),
        words::no_space(a.take(words::word_len(a) as int)),
        a.len() > 0 && !text::is_space(a[0]) ==> words::word_len(a) > 0,
        words::word_len(a) < a.len() ==> text::is_space(a[words::word_len(a) as int]),
    decreases a.len(),
{
    if a.len() > 0 && !text::is_space(a[0]) {
        let t = a.skip(1);
        lemma_word_is(t);
        let n = words::word_len(a) as int;
        assert forall|i: int| 0 <= i < n implies !text::is_space(#[trigger] a.take(n)[i]) by {
            if i > 0 {
                assert(t.take(n - 1)[i - 1] == a.take(n)[i]);
            }
        }
        if n < a.len() {
            assert(t[n - 1] == a[n]);
        }
    }
}

/// The words of two texts with white space between them are those of the one
/// and then those of the other.
pub proof fn words_of_two(
    a: &Vec<char>,
    b: &Vec<char>,
    both: &Vec<char>,
    c: char,
    ra: Vec<String>,
    rb: Vec<String>,
    r: Vec<String>,
)
    requires
        text::is_space(c),
        both@ == a@ + seq![c] + b@,
        call_ensures(words::split_words, (a,), ra),
        call_ensures(words::split_words, (b,), rb),
        call_ensures(words::split_words, (both,), r),
    ensures
        text::views(r@) == text::views(ra@) + text::views(rb@),
        r@.len() == ra@.len() + rb@.len(),
{
    lemma_words_of_two(a@, c, b@);
    assert(text::views(r@).len() == r@.len());
}

/// A text is split at a character and nowhere else: the pieces of two texts
/// with that character between them are those of the one and then those of
/// the other, and a text without it is one piece.
pub proof fn pieces_between(
    a: &Vec<char>,
    b: &Vec<char>,
    both: &Vec<char>,
    c: char,
    ra: Vec<String>,
    rb: Vec<String>,
    r: Vec<String>,
)
    requires
        both@ == a@ + seq![c] + b@,
        call_ensures(words::split_on, (a, c), ra),
        call_ensures(words::split_on, (b, c), rb),
        call_ensures(words::split_on, (both, c), r),
    ensures
        text::views(r@) == text::views(ra@) + text::views(rb@),
        r@.len() == ra@.len() + rb@.len(),
        !a@.contains(c) ==> ra@.len() == 1 && ra@[0]@ == a@,
{
    assert(both@ == a@.push(c) + b@);
    words::pieces_of_two(a@, b@, c);
    assert(text::views(r@).len() == r@.len());
    assert(text::views(ra@).len() == ra@.len());
    if !a@.contains(c) {
        words::one_piece(a@, c);
        assert(text::views(ra@)[0] == ra@[0]@);
    }
}

/// A line reaches up to a line feed. What stands behind the last one is a
/// line unless it is empty. A carriage return in front of a line feed belongs
/// to neither line.
pub proof fn lines_of_a_text(
    a: Seq<char>,
    b: &Vec<char>,
    both: &Vec<char>,
    rb: Vec<String>,
    r: Vec<String>,
)
    requires
        !a.contains('\n'),
        both@ == a + seq!['\n'] + b@,
        call_ensures(words::split_lines, (b,), rb),
        call_ensures(words::split_lines, (both,), r),
    ensures
        r@.len() == rb@.len() + 1,
        a.len() == 0 || a.last() != '\r' ==> r@[0]@ == a,
        a.len() > 0 && a.last() == '\r' ==> r@[0]@ == a.drop_last(),
        forall|k: int| 0 <= k < rb@.len() ==> r@[k + 1]@ == (#[trigger] rb@[k])@,
        !b@.contains('\n') ==> rb@.len() == if b@.len() == 0 {
            0int
        } else {
            1int
        },
        !b@.contains('\n') && b@.len() > 0 ==> rb@[0]@ == b@,
{
    let rest = seq!['\n'] + b@;
    assert(both@ == a + rest);
    words::lemma_until(a, rest, '\n');
    assert(both@.take(a.len() as int) == a);
    assert(both@.skip(a.len() as int + 1) == b@);
    let said = text::views(r@);
    let more = text::views(rb@);
    assert(said.len() == r@.len() && more.len() == rb@.len());
    assert(said == seq![words::without_return(a)] + more);
    assert(said[0] == r@[0]@);
    assert forall|k: int| 0 <= k < rb@.len() implies r@[k + 1]@ == (#[trigger] rb@[k])@ by {
        assert(said[k + 1] == more[k]);
        assert(said[k + 1] == r@[k + 1]@);
        assert(more[k] == rb@[k]@);
    }
    if !b@.contains('\n') {
        let none = Seq::<char>::empty();
        words::lemma_until(b@, none, '\n');
        assert(b@ + none == b@);
        assert(more.len() == rb@.len());
        if b@.len() > 0 {
            assert(more[0] == rb@[0]@);
        }
    }
}

/// What is trimmed off is white space, and no white space is left at either
/// end.
pub proof fn trimmed_text(s: &Vec<char>, r: String)
    requires
        call_ensures(words::trimmed, (s,), r),
    ensures
        exists|i: int, j: int|
            {
                &&& 0 <= i <= j <= s@.len()
                &&& r@ == #[trigger] s@.subrange(i, j)
                &&& forall|k: int| 0 <= k < i ==> text::is_space(#[trigger] s@[k])
                &&& forall|k: int| j <= k < s@.len() ==> text::is_space(#[trigger] s@[k])
            },
        r@.len() > 0 ==> !text::is_space(r@[0]) && !text::is_space(r@.last()),
{
    let i = lemma_trim_start(s@);
    let t = s@.skip(i);
    let j = lemma_trim_end(t);
    assert(t.take(j) == s@.subrange(i, i + j));
    assert forall|k: int| i + j <= k < s@.len() implies text::is_space(#[trigger] s@[k]) by {
        assert(t[k - i] == s@[k]);
    }
    if j > 0 {
        assert(t.take(j)[0] == t[0]);
    }
}

proof fn lemma_trim_start(s: Seq<char>) -> (i: int)
    ensures
        0 <= i <= s.len(),
        words::trim_start(s) == s.skip(i),
        forall|k: int| 0 <= k < i ==> text::is_space(#[trigger] s[k]),
        i < s.len() ==> !text::is_space(s[i]),
    decreases s.len(),
{
    if s.len() > 0 && text::is_space(s[0]) {
        let t = s.skip(1);
        let i = lemma_trim_start(t);
        assert(t.skip(i) == s.skip(i + 1));
        assert forall|k: int| 0 <= k < i + 1 implies text::is_space(#[trigger] s[k]) by {
            if k > 0 {
                assert(t[k - 1] == s[k]);
            }
        }
        i + 1
    } else {
        assert(s.skip(0) == s);
        0
    }
}

proof fn lemma_trim_end(s: Seq<char>) -> (j: int)
    ensures
        0 <= j <= s.len(),
        words::trim_end(s) == s.take(j),
        forall|k: int| j <= k < s.len() ==> text::is_space(#[trigger] s[k]),
        j > 0 ==> !text::is_space(s[j - 1]),
    decreases s.len(),
{
    if s.len() > 0 && text::is_space(s.last()) {
        let t = s.drop_last();
        let j = lemma_trim_end(t);
        assert(t.take(j) == s.take(j));
        assert forall|k: int| j <= k < s.len() implies text::is_space(#[trigger] s[k]) by {
            if k < t.len() {
                assert(t[k] == s[k]);
            }
        }
        j
    } else {
        assert(s.take(s.len() as int) == s);
        s.len() as int
    }
}

/// Joining: one text is itself, and one more comes behind the separator.
pub proof fn joined_texts(
    list: &Vec<String>,
    longer: &Vec<String>,
    sep: &str,
    r: String,
    more: String,
)
    requires
        call_ensures(words::join, (list, sep), r),
        call_ensures(words::join, (longer, sep), more),
        longer@.len() == list@.len() + 1,
        forall|i: int| 0 <= i < list@.len() ==> (#[trigger] longer@[i])@ == list@[i]@,
    ensures
        list@.len() == 0 ==> r@.len() == 0 && more@ == longer@[0]@,
        list@.len() > 0 ==> more@ == r@ + sep@ + longer@[list@.len() as int]@,
{
    let a = text::views(list@);
    let b = text::views(longer@);
    assert(b.drop_last() == a);
    assert(b.last() == longer@[list@.len() as int]@);
}

// ---------------------------------------------------------------------------
// Paths
// ---------------------------------------------------------------------------
/// A relative path below a directory stands behind it and one slash; an
/// absolute path stays what it is.
pub proof fn joined_path(base: &str, rel: &str, r: String)
    requires
        call_ensures(paths::join_path, (base, rel), r),
    ensures
        rel@.len() > 0 && rel@[0] == '/' ==> r@ == rel@,
        (rel@.len() == 0 || rel@[0] != '/') && base@.len() > 0 && base@.last() != '/' ==> r@
            == base@ + seq!['/'] + rel@,
        (rel@.len() == 0 || rel@[0] != '/') && base@.len() > 0 && base@.last() == '/' ==> r@
            == base@ + rel@,
        base@.len() == 0 ==> r@ == rel@,
{
    reveal_strlit("/");
    assert(base@ + "/"@ + rel@ == base@ + seq!['/'] + rel@);
    assert(Seq::<char>::empty() + rel@ == rel@);
}

/// Whether a name is one step of a path.
pub open spec fn is_step(name: Seq<char>) -> bool {
    &&& name.len() > 0
    &&& !name.contains('/')
    &&& name != "."@
    &&& name != ".."@
}

/// The last step of a path is the name behind its last slash, slashes at the
/// end left aside.
pub proof fn last_step(dir: Seq<char>, name: Seq<char>, path: &str, r: Option<String>)
    requires
        is_step(name),
        path@ == name || path@ == dir + seq!['/'] + name || path@ == dir + seq!['/'] + name
            + seq!['/'],
        call_ensures(paths::file_name, (path,), r),
    ensures
        r matches Some(n) && n@ == name,
{
    reveal_strlit("/");
    reveal_strlit("");
    if path@ == name {
        paths::components_below(Seq::empty(), name);
        assert(paths::below(Seq::empty(), name) == name) by {
            if name[0] == '/' {
                assert(name.contains('/'));
            }
            assert(Seq::<char>::empty() + name == name);
        }
    } else {
        lemma_step(dir, name);
        let whole = dir + seq!['/'] + name;
        if path@ != whole {
            lemma_slash_at_end(whole);
            assert(path@ == whole.push('/'));
        }
    }
}

pub(crate) proof fn lemma_step(dir: Seq<char>, name: Seq<char>)
    requires
        is_step(name),
    ensures
        paths::last_name(dir + seq!['/'] + name) == Some(name),
        paths::components(dir + seq!['/'] + name) == paths::components(dir + seq!['/']).push(name),
        dir.len() > 0 ==> paths::components(dir + seq!['/']) == paths::components(dir),
{
    let base = dir + seq!['/'];
    paths::components_below(base, name);
    assert(paths::below(base, name) == base + name) by {
        if name[0] == '/' {
            assert(name.contains('/'));
        }
    }
    if dir.len() > 0 {
        lemma_slash_at_end(dir);
        assert(base == dir.push('/'));
    }
}

proof fn lemma_slash_at_end(path: Seq<char>)
    requires
        path.len() > 0,
    ensures
        paths::components(path.push('/')) == paths::components(path),
        paths::last_name(path.push('/')) == paths::last_name(path),
{
    reveal_strlit("");
    reveal_strlit(".");
    let none = Seq::<char>::empty();
    words::pieces_of_two(path, none, '/');
    assert(path.push('/') + none == path.push('/'));
    assert(!none.contains('/'));
    words::one_piece(none, '/');
    assert(none == ""@);
    let p = words::pieces(path, '/');
    let q = words::pieces(path.push('/'), '/');
    assert(q == p.push(""@));
    assert(q.drop_last() == p);
    assert(p.len() > 0);
    assert(q[0] == p[0]);
    assert(path.push('/')[0] == path[0]);
}

/// Slashes at the end of a path, or more than one between two steps, make no
/// difference to where it leads.
pub proof fn slashes_make_no_difference(
    path: Seq<char>,
    rest: Seq<char>,
    a: &str,
    b: &str,
    r: bool,
)
    requires
        path.len() > 0,
        (a@ == path && b@ == path + seq!['/']) || (a@ == path + seq!['/'] + rest && b@ == path
            + seq!['/', '/'] + rest),
        call_ensures(paths::is_same_path, (a, b), r),
    ensures
        r,
{
    if a@ == path && b@ == path + seq!['/'] {
        lemma_slash_at_end(path);
        assert(b@ == path.push('/'));
    } else {
        reveal_strlit("");
        let none = Seq::<char>::empty();
        words::pieces_of_two(path, rest, '/');
        words::pieces_of_two(path.push('/'), rest, '/');
        words::pieces_of_two(path, none, '/');
        assert(path.push('/') + none == path.push('/'));
        assert(!none.contains('/'));
        words::one_piece(none, '/');
        assert(none == ""@);
        assert(a@ == path.push('/') + rest);
        assert(b@ == path.push('/').push('/') + rest);
        let p = words::pieces(path, '/');
        let q = words::pieces(rest, '/');
        assert(words::pieces(b@, '/') == p.push(""@) + q);
        assert(words::pieces(a@, '/') == p + q);
        lemma_named_add(p, q);
        lemma_named_add(p.push(""@), q);
        assert(p.push(""@).drop_last() == p);
        assert(p.len() > 0);
        assert((p + q)[0] == p[0]);
        assert((p.push(""@) + q)[0] == p[0]);
        assert(a@[0] == path[0]);
        assert(b@[0] == path[0]);
    }
}

proof fn lemma_named_add(p: Seq<Seq<char>>, q: Seq<Seq<char>>)
    ensures
        paths::named(p + q) == paths::named(p) + paths::named(q),
    decreases q.len(),
{
    if q.len() == 0 {
        assert(p + q == p);
        assert(paths::named(p) + paths::named(q) == paths::named(p));
    } else {
        lemma_named_add(p, q.drop_last());
        assert((p + q).drop_last() == p + q.drop_last());
        assert((p + q).last() == q.last());
        let a = paths::named(p);
        let b = paths::named(q.drop_last());
        assert(a + b.push(q.last()) == (a + b).push(q.last()));
    }
}

/// Two names in one directory are the same path only if they are the same
/// name.
pub proof fn names_make_a_difference(
    dir: Seq<char>,
    m: Seq<char>,
    n: Seq<char>,
    a: &str,
    b: &str,
    r: bool,
)
    requires
        is_step(m),
        is_step(n),
        a@ == dir + seq!['/'] + m,
        b@ == dir + seq!['/'] + n,
        call_ensures(paths::is_same_path, (a, b), r),
    ensures
        r <==> m == n,
{
    lemma_step(dir, m);
    lemma_step(dir, n);
    let c = paths::components(dir + seq!['/']);
    if c.push(m) == c.push(n) {
        assert(c.push(m).last() == c.push(n).last());
    }
}

/// What lies below a directory is given back without the directory, step by
/// step.
pub proof fn below_a_directory(dir: &str, name: Seq<char>, path: &str, r: Option<Vec<String>>)
    requires
        is_step(name),
        dir@.len() > 0,
        path@ == dir@ + seq!['/'] + name,
        call_ensures(paths::strip_prefix, (path, dir), r),
    ensures
        r matches Some(v) && v@.len() == 1 && v@[0]@ == name,
{
    lemma_step(dir@, name);
    let c = paths::components(dir@);
    assert(c.push(name).take(c.len() as int) == c);
    assert(c.push(name).skip(c.len() as int) == seq![name]);
    assert(paths::inside(path@, dir@) == Some(seq![name]));
    if let Some(v) = r {
        assert(text::views(v@)[0] == v@[0]@);
        assert(text::views(v@).len() == v@.len());
    }
}

// ---------------------------------------------------------------------------
// Quoting
// ---------------------------------------------------------------------------
/// A shell reads a quoted text as the text. The text stands in single quotes,
/// as it is where it holds none.
pub proof fn quoted_for_a_shell(s: &str, r: String)
    requires
        call_ensures(quote::shell_quote, (s,), r),
    ensures
        quote::shell_word(r@, false) == Some(s@),
        r@.len() >= 2 && r@[0] == '\'' && r@.last() == '\'',
        !s@.contains('\'') ==> r@ == seq!['\''] + s@ + seq!['\''],
{
    quote::quoting_keeps_the_text(s@);
    reveal_strlit("'");
    if !s@.contains('\'') {
        lemma_no_quote(s@);
    }
}

proof fn lemma_no_quote(s: Seq<char>)
    requires
        !s.contains('\''),
    ensures
        quote::escaped(s) == s,
    decreases s.len(),
{
    if s.len() > 0 {
        let t = s.drop_last();
        if t.contains('\'') {
            let i = t.index_of('\'');
            assert(s[i] == '\'');
        }
        assert(s.contains(s.last())) by {
            assert(s[s.len() - 1] == s.last());
        }
        lemma_no_quote(t);
        assert(t.push(s.last()) == s);
    } else {
        assert(s == Seq::<char>::empty());
    }
}

/// A command line is made of its words, each of them quoted, with one space
/// in front of each but the first.
pub proof fn quoted_command_line(
    list: &Vec<String>,
    longer: &Vec<String>,
    last: &str,
    q: String,
    r: String,
    more: String,
)
    requires
        call_ensures(quote::quote_words, (list,), r),
        call_ensures(quote::quote_words, (longer,), more),
        call_ensures(quote::shell_quote, (last,), q),
        longer@.len() == list@.len() + 1,
        forall|i: int| 0 <= i < list@.len() ==> (#[trigger] longer@[i])@ == list@[i]@,
        longer@[list@.len() as int]@ == last@,
    ensures
        list@.len() == 0 ==> r@.len() == 0 && more@ == q@,
        list@.len() > 0 ==> more@ == r@ + seq![' '] + q@,
{
    reveal_strlit(" ");
    let a = text::views(list@).map_values(|s: Seq<char>| quote::quoted(s));
    let b = text::views(longer@).map_values(|s: Seq<char>| quote::quoted(s));
    assert(text::views(longer@).drop_last() == text::views(list@));
    assert(b.drop_last() == a);
    assert(b.last() == quote::quoted(last@));
    if list@.len() > 0 {
        assert(more@ == r@ + " "@ + q@);
        assert(r@ + " "@ + q@ == r@ + seq![' '] + q@);
    }
}

/// The steps of a path: those of the directory and then the name. The root is
/// a step of its own, and a lone name is one step.
pub proof fn steps_of_a_path(
    dir: &str,
    name: Seq<char>,
    path: &str,
    d: Vec<String>,
    r: Vec<String>,
    i: int,
)
    requires
        is_step(name),
        path@ == dir@ + seq!['/'] + name || (path@ == name && dir@.len() == 0),
        call_ensures(paths::split_path, (dir,), d),
        call_ensures(paths::split_path, (path,), r),
    ensures
        r@.len() > 0 && r@.last()@ == name,
        dir@.len() > 0 ==> r@.len() == d@.len() + 1,
        dir@.len() > 0 && 0 <= i < d@.len() ==> r@[i]@ == d@[i]@,
        dir@.len() == 0 && path@ == name ==> r@.len() == 1,
        dir@.len() == 0 && path@ != name ==> r@.len() == 2 && r@[0]@ == "/"@,
{
    reveal_strlit("/");
    reveal_strlit("");
    let x = text::views(d@);
    let y = text::views(r@);
    assert(x.len() == d@.len() && y.len() == r@.len());
    if path@ == name && dir@.len() == 0 {
        let none = Seq::<char>::empty();
        paths::components_below(none, name);
        assert(paths::below(none, name) == name) by {
            if name[0] == '/' {
                assert(name.contains('/'));
            }
            assert(none + name == name);
        }
        lemma_no_steps();
        assert(y == Seq::<Seq<char>>::empty().push(name));
        assert(y.last() == r@.last()@);
    } else {
        lemma_step(dir@, name);
        let c = paths::components(dir@ + seq!['/']);
        assert(y == c.push(name));
        assert(y.last() == r@.last()@);
        if dir@.len() > 0 {
            if 0 <= i < d@.len() {
                assert(x[i] == d@[i]@);
                assert(y[i] == r@[i]@);
            }
        } else {
            assert(dir@ + seq!['/'] == "/"@);
            lemma_no_steps();
            assert(y[0] == r@[0]@);
        }
    }
}

pub(crate) proof fn lemma_no_steps()
    ensures
        paths::components(Seq::empty()) == Seq::<Seq<char>>::empty(),
        paths::components("/"@) == seq!["/"@],
{
    reveal_strlit("/");
    reveal_strlit("");
    reveal_strlit(".");
    let none = Seq::<char>::empty();
    assert(none == ""@);
    assert(!none.contains('/'));
    words::one_piece(none, '/');
    words::pieces_of_two(none, none, '/');
    assert(none.push('/') + none == "/"@);
    let p = words::pieces(none, '/');
    assert(p == seq![none]);
    let q = words::pieces("/"@, '/');
    assert(q == seq![none, none]);
    assert(p.drop_last() == Seq::<Seq<char>>::empty());
    assert(q.drop_last() == p);
    assert(p.last() == ""@ && q.last() == ""@);
    assert(paths::named(p.drop_last()) == Seq::<Seq<char>>::empty());
    assert(paths::named(p) == Seq::<Seq<char>>::empty());
    assert(paths::named(q) == Seq::<Seq<char>>::empty());
    assert("."@.len() == 1);
    assert(paths::components(none) =~= Seq::<Seq<char>>::empty());
    assert(paths::components("/"@) =~= seq!["/"@]);
}

/// A path is put together from its steps with a slash between two of them,
/// and none behind the root.
pub proof fn path_of_steps(parts: &Vec<String>, r: String, rest: &Vec<String>, joined: String)
    requires
        call_ensures(paths::render_path, (parts,), r),
        parts@.len() > 0,
        parts@[0]@ == "/"@ ==> rest@.len() == parts@.len() - 1 && forall|i: int|
            0 <= i < rest@.len() ==> (#[trigger] rest@[i])@ == parts@[i + 1]@,
        parts@[0]@ != "/"@ ==> rest@.len() == parts@.len() && forall|i: int|
            0 <= i < rest@.len() ==> (#[trigger] rest@[i])@ == parts@[i]@,
        call_ensures(words::join, (rest, "/"), joined),
    ensures
        parts@[0]@ == "/"@ ==> r@ == "/"@ + joined@,
        parts@[0]@ != "/"@ ==> r@ == joined@,
{
    let a = text::views(parts@);
    let b = text::views(rest@);
    assert(a[0] == parts@[0]@);
    if parts@[0]@ == "/"@ {
        assert(a.skip(1) =~= b);
    } else {
        assert(a =~= b);
    }
}

// ---------------------------------------------------------------------------
// Characters
// ---------------------------------------------------------------------------
/// Taking a text apart and putting it together again gives the text, and a
/// part of it is what stands between the two positions.
pub proof fn characters_of_a_text(
    s: &str,
    cs: Vec<char>,
    whole: String,
    from: usize,
    to: usize,
    part: String,
    i: int,
)
    requires
        call_ensures(text::to_chars, (s,), cs),
        call_ensures(text::from_chars, (&cs,), whole),
        from <= to <= cs@.len(),
        call_ensures(text::from_range, (&cs, from, to), part),
    ensures
        whole@ == s@,
        cs@.len() == s@.len(),
        0 <= i < s@.len() ==> cs@[i] == s@[i],
        part@.len() == to - from,
        from <= i < to ==> part@[i - from] == s@[i],
{
}

/// Whether two lists hold the same texts in the same order.
pub open spec fn same_texts(a: Seq<String>, b: Seq<String>) -> bool {
    &&& a.len() == b.len()
    &&& forall|i: int| 0 <= i < a.len() ==> (#[trigger] a[i])@ == b[i]@
}

pub(crate) proof fn lemma_same_texts(a: Seq<String>, b: Seq<String>)
    ensures
        same_texts(a, b) <==> text::views(a) == text::views(b),
{
    let x = text::views(a);
    let y = text::views(b);
    if x == y {
        assert(x.len() == a.len() && y.len() == b.len());
        assert forall|i: int| 0 <= i < a.len() implies (#[trigger] a[i])@ == b[i]@ by {
            assert(x[i] == a[i]@);
            assert(y[i] == b[i]@);
        }
    }
    if same_texts(a, b) {
        assert(x =~= y);
    }
}

/// Texts are the same if their characters are, a list holds a text if one of
/// its own is the same, and lists are the same text by text.
pub proof fn texts_that_are_the_same(
    a: &str,
    b: &str,
    same: bool,
    list: &Vec<String>,
    held: bool,
    other: &Vec<String>,
    all: bool,
    copy: Vec<String>,
)
    requires
        call_ensures(text::same, (a, b), same),
        call_ensures(text::holds, (list, a), held),
        call_ensures(text::same_list, (list, other), all),
        call_ensures(text::copy_all, (list,), copy),
    ensures
        same <==> a@ == b@,
        held <==> exists|i: int| 0 <= i < list@.len() && (#[trigger] list@[i])@ == a@,
        all <==> same_texts(list@, other@),
        same_texts(copy@, list@),
{
    let v = text::views(list@);
    assert(v.len() == list@.len());
    if v.contains(a@) {
        let i = v.index_of(a@);
        assert(list@[i]@ == a@);
    }
    if exists|i: int| 0 <= i < list@.len() && (#[trigger] list@[i])@ == a@ {
        let i = choose|i: int| 0 <= i < list@.len() && (#[trigger] list@[i])@ == a@;
        assert(v[i] == a@);
    }
    lemma_same_texts(list@, other@);
    lemma_same_texts(copy@, list@);
}

/// White space is what Unicode says it is.
pub proof fn characters_of_white_space(c: char, r: bool)
    requires
        call_ensures(text::space, (c,), r),
    ensures
        c == ' ' || c == '\t' || c == '\n' || c == '\r' || c == '\u{b}' || c == '\u{c}' ==> r,
        c == '\u{85}' || c == '\u{a0}' || c == '\u{1680}' || c == '\u{2028}' || c == '\u{2029}'
            || c == '\u{202f}' || c == '\u{205f}' || c == '\u{3000}' ==> r,
        '\u{2000}' <= c <= '\u{200a}' ==> r,
        '!' <= c <= '~' ==> !r,
        c < '\t' ==> !r,
        '\u{e}' <= c <= '\u{1f}' ==> !r,
        c == '\u{200b}' || c == '\u{feff}' || c == '\u{180e}' ==> !r,
        r <==> text::is_space(c),
{
}

/// A small letter and its capital are each made from the other, and every
/// other character stays what it is.
pub proof fn letters_and_capitals(c: char, low: char, up: char)
    requires
        call_ensures(text::to_lower, (c,), low),
        call_ensures(text::to_upper, (c,), up),
    ensures
        'a' <= c <= 'z' ==> low == c && up as int == c as int - 32,
        'A' <= c <= 'Z' ==> up == c && low as int == c as int + 32,
        !('a' <= c <= 'z') && !('A' <= c <= 'Z') ==> low == c && up == c,
{
}

/// A text is found at the first place where all of it stands, and only if
/// there is one.
pub proof fn place_of_a_text(
    s: &Vec<char>,
    sub: &Vec<char>,
    at: usize,
    here: bool,
    first: Option<usize>,
    any: bool,
    c: char,
    has: bool,
)
    requires
        call_ensures(words::stands_at, (s, sub, at), here),
        call_ensures(words::find_text, (s, sub), first),
        call_ensures(words::has_text, (s, sub), any),
        call_ensures(words::has_char, (s, c), has),
    ensures
        here <==> at + sub@.len() <= s@.len() && forall|i: int|
            0 <= i < sub@.len() ==> s@[at + i] == #[trigger] sub@[i],
        any <==> first is Some,
        first matches Some(f) ==> f + sub@.len() <= s@.len() && s@.subrange(
            f as int,
            f + sub@.len(),
        ) == sub@,
        first matches Some(f) ==> (here ==> f <= at),
        first is None ==> !here,
        has <==> exists|i: int| 0 <= i < s@.len() && #[trigger] s@[i] == c,
{
    let part = s@.subrange(at as int, at + sub@.len());
    if here {
        assert forall|i: int| 0 <= i < sub@.len() implies s@[at + i] == #[trigger] sub@[i] by {
            assert(part[i] == s@[at + i]);
        }
        assert(words::occurs_at(s@, sub@, at as int));
    }
    if at + sub@.len() <= s@.len() && forall|i: int|
        0 <= i < sub@.len() ==> s@[at + i] == #[trigger] sub@[i] {
        assert(part =~= sub@);
    }
    if let Some(f) = first {
        assert(words::occurs_at(s@, sub@, f as int));
        if here && at < f {
            assert(!words::occurs_at(s@, sub@, at as int));
        }
    }
    if any && first is None {
        let k = choose|k: int| words::occurs_at(s@, sub@, k);
        assert(words::contains_text(s@, sub@));
    }
    if s@.contains(c) {
        let i = s@.index_of(c);
        assert(s@[i] == c);
    }
}

// ---------------------------------------------------------------------------
// Steps of paths
// ---------------------------------------------------------------------------
/// A path lies below another if its steps begin with those of the other; what
/// is given back are the steps that follow.
pub proof fn steps_below_a_directory(
    path: &str,
    base: &str,
    p: Vec<String>,
    b: Vec<String>,
    r: Option<Vec<String>>,
)
    requires
        call_ensures(paths::split_path, (path,), p),
        call_ensures(paths::split_path, (base,), b),
        call_ensures(paths::strip_prefix, (path, base), r),
    ensures
        r matches Some(rest) ==> p@.len() == b@.len() + rest@.len(),
        r matches Some(rest) ==> forall|i: int|
            0 <= i < b@.len() ==> (#[trigger] p@[i])@ == b@[i]@,
        r matches Some(rest) ==> forall|i: int|
            0 <= i < rest@.len() ==> (#[trigger] rest@[i])@ == p@[b@.len() + i]@,
        r is None ==> b@.len() > p@.len() || exists|i: int|
            0 <= i < b@.len() && (#[trigger] p@[i])@ != b@[i]@,
{
    let x = text::views(p@);
    let y = text::views(b@);
    assert(x.len() == p@.len() && y.len() == b@.len());
    if let Some(rest) = r {
        let z = text::views(rest@);
        assert(z.len() == rest@.len());
        assert forall|i: int| 0 <= i < b@.len() implies (#[trigger] p@[i])@ == b@[i]@ by {
            assert(x[i] == p@[i]@);
            assert(y[i] == b@[i]@);
            assert(x.take(y.len() as int)[i] == y[i]);
        }
        assert forall|i: int| 0 <= i < rest@.len() implies (#[trigger] rest@[i])@ == p@[b@.len()
            + i]@ by {
            assert(z[i] == rest@[i]@);
            assert(x[b@.len() + i] == p@[b@.len() + i]@);
        }
    } else if b@.len() <= p@.len() {
        if forall|i: int| 0 <= i < b@.len() ==> (#[trigger] p@[i])@ == b@[i]@ {
            assert(x.take(y.len() as int) =~= y) by {
                assert forall|i: int| 0 <= i < y.len() implies x[i] == y[i] by {
                    assert(x[i] == p@[i]@);
                    assert(y[i] == b@[i]@);
                }
            }
        }
    }
}

/// The name of a file is the last step of its path, unless that is the root or
/// leads to the directory itself or the one above.
pub proof fn name_at_the_end(path: &str, p: Vec<String>, r: Option<String>)
    requires
        call_ensures(paths::split_path, (path,), p),
        call_ensures(paths::file_name, (path,), r),
    ensures
        r is Some <==> p@.len() > 0 && p@.last()@ != "/"@ && p@.last()@ != "."@ && p@.last()@
            != ".."@,
        r matches Some(n) ==> n@ == p@.last()@,
{
    let x = text::views(p@);
    assert(x.len() == p@.len());
    if p@.len() > 0 {
        assert(x.last() == p@.last()@);
    }
}

/// A step to the directory itself makes no difference to where a path leads,
/// but at its beginning, where it is kept.
pub proof fn dots_make_no_difference(path: Seq<char>, rest: Seq<char>, a: &str, b: &str, r: bool)
    requires
        path.len() > 0,
        a@ == path + seq!['/'] + rest,
        b@ == path + seq!['/', '.', '/'] + rest,
        call_ensures(paths::is_same_path, (a, b), r),
    ensures
        r,
{
    reveal_strlit(".");
    let dot = seq!['.'];
    words::pieces_of_two(path, rest, '/');
    words::pieces_of_two(path.push('/') + dot, rest, '/');
    words::pieces_of_two(path, dot, '/');
    assert(!dot.contains('/'));
    words::one_piece(dot, '/');
    assert(dot == "."@);
    assert(a@ == path.push('/') + rest);
    assert(b@ == (path.push('/') + dot).push('/') + rest);
    let p = words::pieces(path, '/');
    let q = words::pieces(rest, '/');
    assert(words::pieces(path.push('/') + dot, '/') == p.push("."@));
    assert(words::pieces(b@, '/') == p.push("."@) + q);
    assert(words::pieces(a@, '/') == p + q);
    lemma_named_add(p, q);
    lemma_named_add(p.push("."@), q);
    assert(p.push("."@).drop_last() == p);
    assert(p.len() > 0);
    assert((p + q)[0] == p[0]);
    assert((p.push("."@) + q)[0] == p[0]);
    assert(a@[0] == path[0]);
    assert(b@[0] == path[0]);
}

/// A step to the directory itself is kept at the beginning of a path.
pub proof fn dot_at_the_beginning(name: Seq<char>, path: &str, r: Vec<String>)
    requires
        is_step(name),
        path@ == seq!['.', '/'] + name,
        call_ensures(paths::split_path, (path,), r),
    ensures
        r@.len() == 2,
        r@[0]@ == "."@,
        r@[1]@ == name,
{
    reveal_strlit(".");
    reveal_strlit("");
    let dot = seq!['.'];
    assert(path@ == dot + seq!['/'] + name);
    lemma_step(dot, name);
    assert(!dot.contains('/'));
    words::one_piece(dot, '/');
    assert(dot == "."@);
    let p = words::pieces(dot, '/');
    assert(p == seq!["."@]);
    assert(p.last() == "."@);
    assert(p.drop_last() == Seq::<Seq<char>>::empty());
    assert(paths::named(p.drop_last()) == Seq::<Seq<char>>::empty());
    assert(paths::named(p) == Seq::<Seq<char>>::empty());
    assert(paths::components(dot) == seq!["."@]);
    lemma_slash_at_end(dot);
    assert(dot + seq!['/'] == dot.push('/'));
    let v = text::views(r@);
    assert(v == seq!["."@, name]);
    assert(v.len() == r@.len());
    assert(v[0] == r@[0]@);
    assert(v[1] == r@[1]@);
}

/// The directory that holds a path leads through all its steps but the last.
/// Nothing holds the root, or a path without steps.
pub proof fn directory_of_a_path(
    path: &str,
    p: Vec<String>,
    r: Option<String>,
    front: &Vec<String>,
    t: String,
)
    requires
        call_ensures(paths::split_path, (path,), p),
        call_ensures(paths::parent, (path,), r),
        front@.len() == p@.len() - 1,
        forall|i: int| 0 <= i < front@.len() ==> (#[trigger] front@[i])@ == p@[i]@,
        call_ensures(paths::render_path, (front,), t),
    ensures
        r is None <==> p@.last()@ == "/"@,
        r matches Some(d) ==> d@ == t@,
{
    let x = text::views(p@);
    let y = text::views(front@);
    assert(x.len() == p@.len());
    assert(x.last() == p@.last()@);
    assert(x.drop_last() =~= y) by {
        assert(x.drop_last().len() == y.len());
        assert forall|i: int| 0 <= i < y.len() implies x.drop_last()[i] == y[i] by {
            assert(y[i] == front@[i]@);
            assert(x[i] == p@[i]@);
        }
    }
}

} // verus!
