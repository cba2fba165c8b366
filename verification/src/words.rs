//! Splitting, trimming, searching and ordering of text.
use crate::text;
use vstd::prelude::*;
use vstd::string::*;

verus! {

// ---------------------------------------------------------------------------
// Searching
// ---------------------------------------------------------------------------
/// Whether `sub` occurs in `s` at position `at`.
pub open spec fn occurs_at(s: Seq<char>, sub: Seq<char>, at: int) -> bool {
    &&& 0 <= at
    &&& at + sub.len() <= s.len()
    &&& s.subrange(at, at + sub.len()) == sub
}

/// Whether `sub` occurs in `s`.
pub open spec fn contains_text(s: Seq<char>, sub: Seq<char>) -> bool {
    exists|at: int| occurs_at(s, sub, at)
}

pub open spec fn starts_with(s: Seq<char>, prefix: Seq<char>) -> bool {
    occurs_at(s, prefix, 0)
}

/// Whether the characters `sub` stand in `s` at `at`.
pub fn stands_at(s: &Vec<char>, sub: &Vec<char>, at: usize) -> (r: bool)
    ensures
        r == occurs_at(s@, sub@, at as int),
{
    if at > s.len() || sub.len() > s.len() - at {
        return false;
    }
    for i in 0..sub.len()
        invariant
            at + sub.len() <= s.len(),
            forall|j: int| 0 <= j < i ==> s@[at + j] == sub@[j],
    {
        if s[at + i] != sub[i] {
            assert(s@.subrange(at as int, at + sub@.len())[i as int] != sub@[i as int]);
            return false;
        }
    }
    assert(s@.subrange(at as int, at + sub@.len()) == sub@);
    true
}

/// Whether `at` is the first position at which `sub` occurs in `s`.
pub open spec fn first_at(s: Seq<char>, sub: Seq<char>, at: int) -> bool {
    occurs_at(s, sub, at) && forall|j: int| 0 <= j < at ==> !#[trigger] occurs_at(s, sub, j)
}

/// The first position at which `sub` occurs in `s`.
pub fn find_text(s: &Vec<char>, sub: &Vec<char>) -> (r: Option<usize>)
    ensures
        match r {
            Some(at) => first_at(s@, sub@, at as int),
            None => !contains_text(s@, sub@),
        },
{
    if sub.len() > s.len() {
        return None;
    }
    let last: usize = s.len() - sub.len();
    for at in 0..last
        invariant
            last == s.len() - sub.len(),
            forall|j: int| 0 <= j < at ==> !#[trigger] occurs_at(s@, sub@, j),
    {
        if stands_at(s, sub, at) {
            return Some(at);
        }
    }
    if stands_at(s, sub, last) {
        Some(last)
    } else {
        None
    }
}

/// Whether `sub` occurs in `s`.
pub fn has_text(s: &Vec<char>, sub: &Vec<char>) -> (r: bool)
    ensures
        r == contains_text(s@, sub@),
{
    match find_text(s, sub) {
        Some(at) => {
            assert(occurs_at(s@, sub@, at as int));
            true
        },
        None => false,
    }
}

/// Whether `s` holds the character `c`.
pub fn has_char(s: &Vec<char>, c: char) -> (r: bool)
    ensures
        r == s@.contains(c),
{
    for i in 0..s.len()
        invariant
            forall|j: int| 0 <= j < i ==> s@[j] != c,
    {
        if s[i] == c {
            assert(s@[i as int] == c);
            return true;
        }
    }
    false
}

// ---------------------------------------------------------------------------
// Trimming and words
// ---------------------------------------------------------------------------
/// How many characters stand in front of the first white space.
pub open spec fn word_len(s: Seq<char>) -> nat
    decreases s.len(),
{
    if s.len() == 0 || text::is_space(s[0]) {
        0
    } else {
        1 + word_len(s.skip(1))
    }
}

/// A word is no longer than the text it starts.
pub proof fn lemma_word_len_bound(s: Seq<char>)
    ensures
        word_len(s) <= s.len(),
    decreases s.len(),
{
    if s.len() > 0 && !text::is_space(s[0]) {
        lemma_word_len_bound(s.skip(1));
    }
}

/// The runs of characters between white space, in order.
pub open spec fn words(s: Seq<char>) -> Seq<Seq<char>>
    decreases s.len(),
{
    if s.len() == 0 {
        Seq::empty()
    } else if text::is_space(s[0]) {
        words(s.skip(1))
    } else {
        proof {
            lemma_word_len_bound(s);
        }
        seq![s.take(word_len(s) as int)] + words(s.skip(word_len(s) as int))
    }
}

pub open spec fn no_space(s: Seq<char>) -> bool {
    forall|i: int| 0 <= i < s.len() ==> !text::is_space(#[trigger] s[i])
}

pub proof fn lemma_word_len(w: Seq<char>, rest: Seq<char>)
    requires
        no_space(w),
        rest.len() == 0 || text::is_space(rest[0]),
    ensures
        word_len(w + rest) == w.len(),
    decreases w.len(),
{
    if w.len() == 0 {
        assert(w + rest == rest);
    } else {
        assert((w + rest)[0] == w[0]);
        assert((w + rest).skip(1) == w.skip(1) + rest);
        lemma_word_len(w.skip(1), rest);
    }
}

/// A word in front of white space, or of the end, is split off whole.
proof fn lemma_words_step(w: Seq<char>, rest: Seq<char>)
    requires
        no_space(w),
        w.len() > 0,
        rest.len() == 0 || text::is_space(rest[0]),
    ensures
        words(w + rest) == seq![w] + words(rest),
{
    lemma_word_len(w, rest);
    assert((w + rest)[0] == w[0]);
    assert((w + rest).take(w.len() as int) == w);
    assert((w + rest).skip(w.len() as int) == rest);
}

/// Splits at white space.
pub fn split_words(s: &Vec<char>) -> (r: Vec<String>)
    ensures
        text::views(r@) == words(s@),
{
    let mut r: Vec<String> = Vec::new();
    let mut start: usize = 0;
    assert(s@.skip(0) == s@);
    for i in 0..s.len()
        invariant
            start <= i <= s.len(),
            no_space(s@.subrange(start as int, i as int)),
            text::views(r@) + words(s@.skip(start as int)) == words(s@),
    {
        if text::space(s[i]) {
            let ghost w = s@.subrange(start as int, i as int);
            let ghost rest = s@.skip(i as int);
            let ghost before = text::views(r@);
            assert(s@.skip(start as int) == w + rest);
            assert(rest.skip(1) == s@.skip(i + 1));
            if start < i {
                proof {
                    lemma_words_step(w, rest);
                }
                r.push(text::from_range(s, start, i));
                assert(text::views(r@) == before.push(w));
                assert(before + (seq![w] + words(rest)) == before.push(w) + words(rest));
            }
            start = i + 1;
            assert(s@.subrange(start as int, i + 1) == Seq::<char>::empty());
        } else {
            assert forall|j: int|
                0 <= j < s@.subrange(start as int, i + 1).len() implies !text::is_space(
                #[trigger] s@.subrange(start as int, i + 1)[j],
            ) by {
                if j < i - start {
                    assert(s@.subrange(start as int, i + 1)[j] == s@.subrange(
                        start as int,
                        i as int,
                    )[j]);
                }
            }
        }
    }
    if start < s.len() {
        let ghost w = s@.subrange(start as int, s@.len() as int);
        let ghost before = text::views(r@);
        assert(s@.skip(start as int) == w + Seq::<char>::empty());
        proof {
            lemma_words_step(w, Seq::empty());
        }
        r.push(text::from_range(s, start, s.len()));
        assert(text::views(r@) == before.push(w));
        assert(before + (seq![w] + Seq::<Seq<char>>::empty()) == before.push(w));
    } else {
        assert(s@.skip(start as int) == Seq::<char>::empty());
        assert(text::views(r@) + Seq::<Seq<char>>::empty() == text::views(r@));
    }
    r
}

/// `s` without white space at its start.
pub open spec fn trim_start(s: Seq<char>) -> Seq<char>
    decreases s.len(),
{
    if s.len() > 0 && text::is_space(s[0]) {
        trim_start(s.skip(1))
    } else {
        s
    }
}

/// `s` without white space at its end.
pub open spec fn trim_end(s: Seq<char>) -> Seq<char>
    decreases s.len(),
{
    if s.len() > 0 && text::is_space(s.last()) {
        trim_end(s.drop_last())
    } else {
        s
    }
}

/// `s` without white space at either end.
pub open spec fn trim(s: Seq<char>) -> Seq<char> {
    trim_end(trim_start(s))
}

/// `s` without white space at either end.
pub fn trimmed(s: &Vec<char>) -> (r: String)
    ensures
        r@ == trim(s@),
{
    let mut from: usize = 0;
    assert(s@.skip(0) == s@);
    while from < s.len() && text::space(s[from])
        invariant
            from <= s.len(),
            trim_start(s@.skip(from as int)) == trim_start(s@),
        decreases s.len() - from,
    {
        assert(s@.skip(from as int).skip(1) == s@.skip(from + 1));
        from = from + 1;
    }
    let ghost t = trim_start(s@);
    assert(t == s@.skip(from as int));
    let mut to: usize = s.len();
    assert(s@.subrange(from as int, to as int) == t);
    while to > from && text::space(s[to - 1])
        invariant
            from <= to <= s.len(),
            trim_end(s@.subrange(from as int, to as int)) == trim_end(t),
        decreases to,
    {
        assert(s@.subrange(from as int, to as int).drop_last() == s@.subrange(
            from as int,
            to - 1,
        ));
        to = to - 1;
    }
    text::from_range(s, from, to)
}

// ---------------------------------------------------------------------------
// Lines
// ---------------------------------------------------------------------------
/// How many characters stand in front of the first `c`.
pub open spec fn until(s: Seq<char>, c: char) -> nat
    decreases s.len(),
{
    if s.len() == 0 || s[0] == c {
        0
    } else {
        1 + until(s.skip(1), c)
    }
}

/// A line without the carriage return that stood in front of its line feed.
pub open spec fn without_return(s: Seq<char>) -> Seq<char> {
    if s.len() > 0 && s.last() == '\r' {
        s.drop_last()
    } else {
        s
    }
}

/// The lines of a text. A line ends with a line feed, which a carriage return
/// may precede; text behind the last line feed is a line if it is not empty.
pub open spec fn lines(s: Seq<char>) -> Seq<Seq<char>>
    decreases s.len(),
{
    if s.len() == 0 {
        Seq::empty()
    } else if until(s, '\n') >= s.len() {
        seq![s]
    } else {
        seq![without_return(s.take(until(s, '\n') as int))] + lines(
            s.skip(until(s, '\n') as int + 1),
        )
    }
}

pub proof fn lemma_until(w: Seq<char>, rest: Seq<char>, c: char)
    requires
        !w.contains(c),
        rest.len() == 0 || rest[0] == c,
    ensures
        until(w + rest, c) == w.len(),
    decreases w.len(),
{
    if w.len() == 0 {
        assert(w + rest == rest);
    } else {
        assert((w + rest)[0] == w[0]);
        assert(w.contains(w[0]));
        assert((w + rest).skip(1) == w.skip(1) + rest);
        assert forall|x: char| w.skip(1).contains(x) implies w.contains(x) by {
            let i = w.skip(1).index_of(x);
            assert(w[i + 1] == x);
        }
        lemma_until(w.skip(1), rest, c);
    }
}

proof fn lemma_line_step(w: Seq<char>, rest: Seq<char>)
    requires
        !w.contains('\n'),
        rest.len() > 0,
        rest[0] == '\n',
    ensures
        lines(w + rest) == seq![without_return(w)] + lines(rest.skip(1)),
{
    lemma_until(w, rest, '\n');
    assert((w + rest).take(w.len() as int) == w);
    assert((w + rest).skip(w.len() as int + 1) == rest.skip(1));
}

/// Splits a text into its lines.
pub fn split_lines(s: &Vec<char>) -> (r: Vec<String>)
    ensures
        text::views(r@) == lines(s@),
{
    let mut r: Vec<String> = Vec::new();
    let mut start: usize = 0;
    assert(s@.skip(0) == s@);
    for i in 0..s.len()
        invariant
            start <= i <= s.len(),
            !s@.subrange(start as int, i as int).contains('\n'),
            text::views(r@) + lines(s@.skip(start as int)) == lines(s@),
    {
        let ghost w = s@.subrange(start as int, i as int);
        if s[i] == '\n' {
            let ghost rest = s@.skip(i as int);
            let ghost before = text::views(r@);
            assert(s@.skip(start as int) == w + rest);
            assert(rest.skip(1) == s@.skip(i + 1));
            proof {
                lemma_line_step(w, rest);
            }
            let mut to: usize = i;
            if start < i && s[i - 1] == '\r' {
                to = i - 1;
            }
            assert(s@.subrange(start as int, to as int) == without_return(w));
            r.push(text::from_range(s, start, to));
            assert(text::views(r@) == before.push(without_return(w)));
            assert(before + (seq![without_return(w)] + lines(rest.skip(1))) == before.push(
                without_return(w),
            ) + lines(rest.skip(1)));
            start = i + 1;
            assert(s@.subrange(start as int, i + 1) == Seq::<char>::empty());
        } else {
            assert(s@.subrange(start as int, i + 1) == w.push(s@[i as int]));
            assert forall|j: int| 0 <= j < w.push(s@[i as int]).len() implies w.push(
                s@[i as int],
            )[j] != '\n' by {
                if j < w.len() {
                    assert(w[j] == w.push(s@[i as int])[j]);
                    assert(w.contains(w[j]));
                }
            }
        }
    }
    if start < s.len() {
        let ghost w = s@.subrange(start as int, s@.len() as int);
        let ghost before = text::views(r@);
        assert(s@.skip(start as int) == w + Seq::<char>::empty());
        proof {
            lemma_until(w, Seq::empty(), '\n');
        }
        assert(w + Seq::<char>::empty() == w);
        assert(lines(w) == seq![w]);
        r.push(text::from_range(s, start, s.len()));
        assert(text::views(r@) == before.push(w));
        assert(before + seq![w] == before.push(w));
    } else {
        assert(s@.skip(start as int) == Seq::<char>::empty());
        assert(text::views(r@) + Seq::<Seq<char>>::empty() == text::views(r@));
    }
    r
}

/// The pieces of a text between the occurrences of `c`; one piece if there is
/// none.
pub open spec fn pieces(s: Seq<char>, c: char) -> Seq<Seq<char>>
    decreases s.len(),
{
    if until(s, c) >= s.len() {
        seq![s]
    } else {
        seq![s.take(until(s, c) as int)] + pieces(s.skip(until(s, c) as int + 1), c)
    }
}

proof fn lemma_until_all(s: Seq<char>, c: char)
    ensures
        until(s, c) <= s.len(),
        until(s, c) == s.len() <==> !s.contains(c),
        until(s, c) < s.len() ==> s[until(s, c) as int] == c && !s.take(
            until(s, c) as int,
        ).contains(c),
    decreases s.len(),
{
    if s.len() > 0 && s[0] != c {
        let rest = s.skip(1);
        lemma_until_all(rest, c);
        if s.contains(c) {
            let i = s.index_of(c);
            assert(rest[i - 1] == c);
        }
        if rest.contains(c) {
            let i = rest.index_of(c);
            assert(s[i + 1] == c);
        }
        if until(s, c) < s.len() {
            let n = until(rest, c) as int;
            let t = s.take(n + 1);
            assert(s[n + 1] == rest[n]);
            if t.contains(c) {
                let i = t.index_of(c);
                assert(rest.take(n)[i - 1] == c);
            }
        }
    } else if s.len() > 0 {
        assert(s.contains(c));
        assert(s.take(0) == Seq::<char>::empty());
    }
}

/// The pieces of two texts with a separator between them are the pieces of
/// the one behind those of the other.
pub proof fn pieces_of_two(s: Seq<char>, t: Seq<char>, c: char)
    ensures
        pieces(s.push(c) + t, c) == pieces(s, c) + pieces(t, c),
    decreases s.len(),
{
    lemma_until_all(s, c);
    let whole = s.push(c) + t;
    let n = until(s, c) as int;
    if n >= s.len() {
        lemma_until(s, seq![c] + t, c);
        assert(s + (seq![c] + t) == whole);
        assert(whole.take(s.len() as int) == s);
        assert(whole.skip(s.len() as int + 1) == t);
    } else {
        let front = s.take(n);
        let back = s.skip(n + 1);
        lemma_until(front, whole.skip(n), c);
        assert(front + whole.skip(n) == whole);
        assert(whole.take(n) == front);
        assert(whole.skip(n + 1) == back.push(c) + t);
        pieces_of_two(back, t, c);
        assert(seq![front] + (pieces(back, c) + pieces(t, c)) == (seq![front] + pieces(back, c))
            + pieces(t, c));
    }
}

/// A text without the separator is one piece.
pub proof fn one_piece(s: Seq<char>, c: char)
    requires
        !s.contains(c),
    ensures
        pieces(s, c) == seq![s],
{
    lemma_until_all(s, c);
}

/// Splits a text at each `c`.
pub fn split_on(s: &Vec<char>, c: char) -> (r: Vec<String>)
    ensures
        text::views(r@) == pieces(s@, c),
        r.len() > 0,
{
    let mut r: Vec<String> = Vec::new();
    let mut start: usize = 0;
    assert(s@.skip(0) == s@);
    assert(text::views(r@) + pieces(s@, c) == pieces(s@, c));
    for i in 0..s.len()
        invariant
            start <= i <= s.len(),
            !s@.subrange(start as int, i as int).contains(c),
            text::views(r@) + pieces(s@.skip(start as int), c) == pieces(s@, c),
    {
        let ghost w = s@.subrange(start as int, i as int);
        if s[i] == c {
            let ghost rest = s@.skip(i as int);
            let ghost before = text::views(r@);
            assert(s@.skip(start as int) == w + rest);
            assert(rest.skip(1) == s@.skip(i + 1));
            proof {
                lemma_until(w, rest, c);
            }
            assert((w + rest).take(w.len() as int) == w);
            assert((w + rest).skip(w.len() as int + 1) == rest.skip(1));
            r.push(text::from_range(s, start, i));
            assert(text::views(r@) == before.push(w));
            assert(before + (seq![w] + pieces(rest.skip(1), c)) == before.push(w) + pieces(
                rest.skip(1),
                c,
            ));
            start = i + 1;
            assert(s@.subrange(start as int, i + 1) == Seq::<char>::empty());
        } else {
            assert(s@.subrange(start as int, i + 1) == w.push(s@[i as int]));
            assert forall|j: int| 0 <= j < w.push(s@[i as int]).len() implies w.push(
                s@[i as int],
            )[j] != c by {
                if j < w.len() {
                    assert(w[j] == w.push(s@[i as int])[j]);
                    assert(w.contains(w[j]));
                }
            }
        }
    }
    let ghost w = s@.subrange(start as int, s@.len() as int);
    let ghost before = text::views(r@);
    assert(s@.skip(start as int) == w);
    assert(w + Seq::<char>::empty() == w);
    proof {
        lemma_until(w, Seq::empty(), c);
    }
    r.push(text::from_range(s, start, s.len()));
    assert(text::views(r@) == before.push(w));
    assert(before + seq![w] == before.push(w));
    r
}

// ---------------------------------------------------------------------------
// Joining
// ---------------------------------------------------------------------------
/// The parts, one behind the other, with `sep` between two of them.
pub open spec fn joined(parts: Seq<Seq<char>>, sep: Seq<char>) -> Seq<char>
    decreases parts.len(),
{
    if parts.len() == 0 {
        Seq::empty()
    } else if parts.len() == 1 {
        parts[0]
    } else {
        joined(parts.drop_last(), sep) + sep + parts.last()
    }
}

/// Joins strings with a separator.
pub fn join(parts: &Vec<String>, sep: &str) -> (r: String)
    ensures
        r@ == joined(text::views(parts@), sep@),
{
    let mut r = String::new();
    for i in 0..parts.len()
        invariant
            r@ == joined(text::views(parts@).take(i as int), sep@),
    {
        assert(text::views(parts@).take(i + 1).drop_last() == text::views(parts@).take(i as int));
        if i > 0 {
            r.append(sep);
        }
        r.append(parts[i].as_str());
        if i == 0 {
            assert(r@ == parts@[0]@);
        }
    }
    assert(text::views(parts@).take(parts@.len() as int) == text::views(parts@));
    r
}

// ---------------------------------------------------------------------------
// Order
// ---------------------------------------------------------------------------
/// Strict dictionary order by code point.
pub open spec fn before(a: Seq<char>, b: Seq<char>) -> bool
    decreases a.len(),
{
    if b.len() == 0 {
        false
    } else if a.len() == 0 {
        true
    } else if a[0] != b[0] {
        a[0] < b[0]
    } else {
        before(a.skip(1), b.skip(1))
    }
}

/// Whether `a` stands in front of `b` in dictionary order.
pub fn comes_before(a: &Vec<char>, b: &Vec<char>) -> (r: bool)
    ensures
        r == before(a@, b@),
{
    let mut i: usize = 0;
    assert(a@.skip(0) == a@);
    assert(b@.skip(0) == b@);
    while i < a.len() && i < b.len()
        invariant
            i <= a.len(),
            i <= b.len(),
            before(a@, b@) == before(a@.skip(i as int), b@.skip(i as int)),
        decreases a.len() - i,
    {
        if a[i] != b[i] {
            return a[i] < b[i];
        }
        assert(a@.skip(i as int).skip(1) == a@.skip(i + 1));
        assert(b@.skip(i as int).skip(1) == b@.skip(i + 1));
        i = i + 1;
    }
    i < b.len()
}

/// Dictionary order is total: of two different texts one comes first.
pub proof fn before_total(a: Seq<char>, b: Seq<char>)
    ensures
        a == b || before(a, b) || before(b, a),
        !(before(a, b) && before(b, a)),
        !before(a, a),
    decreases a.len(),
{
    if a.len() > 0 && b.len() > 0 {
        before_total(a.skip(1), b.skip(1));
        if a[0] == b[0] && a.skip(1) == b.skip(1) {
            assert(a == seq![a[0]] + a.skip(1));
            assert(b == seq![b[0]] + b.skip(1));
        }
    } else if a.len() == 0 && b.len() == 0 {
        assert(a == b);
    }
    if a.len() > 0 {
        before_total_same(a);
    }
}

proof fn before_total_same(a: Seq<char>)
    ensures
        !before(a, a),
    decreases a.len(),
{
    if a.len() > 0 {
        before_total_same(a.skip(1));
    }
}

/// Dictionary order is transitive.
pub proof fn before_transitive(a: Seq<char>, b: Seq<char>, c: Seq<char>)
    requires
        before(a, b),
        before(b, c),
    ensures
        before(a, c),
    decreases a.len(),
{
    if a.len() > 0 && a[0] == b[0] && b[0] == c[0] {
        before_transitive(a.skip(1), b.skip(1), c.skip(1));
    }
}

/// Whether two texts are equal up to the case of ASCII letters.
pub open spec fn equal_folded(a: Seq<char>, b: Seq<char>) -> bool {
    a.map_values(|c: char| text::lower(c)) == b.map_values(|c: char| text::lower(c))
}

/// Whether two texts are equal up to the case of ASCII letters.
pub fn same_folded(a: &Vec<char>, b: &Vec<char>) -> (r: bool)
    ensures
        r == equal_folded(a@, b@),
{
    let ghost fa = a@.map_values(|c: char| text::lower(c));
    let ghost fb = b@.map_values(|c: char| text::lower(c));
    if a.len() != b.len() {
        assert(fa.len() != fb.len());
        return false;
    }
    for i in 0..a.len()
        invariant
            a.len() == b.len(),
            fa == a@.map_values(|c: char| text::lower(c)),
            fb == b@.map_values(|c: char| text::lower(c)),
            forall|j: int| 0 <= j < i ==> fa[j] == fb[j],
    {
        if text::to_lower(a[i]) != text::to_lower(b[i]) {
            assert(fa[i as int] != fb[i as int]);
            return false;
        }
    }
    assert(fa == fb);
    true
}

} // verus!
