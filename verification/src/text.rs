//! Strings as sequences of characters: lists of them, letter case and decimal
//! numbers.
use vstd::prelude::*;
use vstd::string::*;

verus! {

/// `String::push` appends one character to the end of the string.
pub assume_specification[ String::push ](s: &mut String, c: char)
    ensures
        final(s)@ == old(s)@.push(c),
;

/// How `std` writes a string in debug output, quotes and escapes included.
pub uninterp spec fn debug_quoted(s: Seq<char>) -> Seq<char>;

/// The `Debug` output of `str`.
#[verifier::external_body]
pub(crate) fn debug_string(s: &str) -> (r: String)
    ensures
        r@ == debug_quoted(s@),
{
    format!("{s:?}")
}

/// The characters of each string of a list.
pub open spec fn views(list: Seq<String>) -> Seq<Seq<char>> {
    list.map_values(|s: String| s@)
}

/// The characters of a string, in order.
pub fn to_chars(s: &str) -> (r: Vec<char>)
    ensures
        r@ == s@,
{
    let mut r: Vec<char> = Vec::new();
    for c in it: s.chars()
        invariant
            r@ == s@.take(it.index() as int),
            it.seq() == s@,
    {
        r.push(c);
    }
    assert(s@.take(s@.len() as int) == s@);
    r
}

/// The string made of `cs[from..to]`.
pub fn from_range(cs: &Vec<char>, from: usize, to: usize) -> (r: String)
    requires
        from <= to <= cs.len(),
    ensures
        r@ == cs@.subrange(from as int, to as int),
{
    let mut r = String::new();
    for i in from..to
        invariant
            from <= to <= cs.len(),
            r@ == cs@.subrange(from as int, i as int),
    {
        r.push(cs[i]);
        assert(cs@.subrange(from as int, i + 1) == cs@.subrange(from as int, i as int).push(
            cs@[i as int],
        ));
    }
    r
}

/// The string made of the given characters.
pub fn from_chars(cs: &Vec<char>) -> (r: String)
    ensures
        r@ == cs@,
{
    let r = from_range(cs, 0, cs.len());
    assert(cs@.subrange(0, cs@.len() as int) == cs@);
    r
}

/// Whether two strings hold the same characters.
pub fn same(a: &str, b: &str) -> (r: bool)
    ensures
        r == (a@ == b@),
{
    a.to_owned() == b.to_owned()
}

/// Whether a list holds a string.
pub fn holds(list: &Vec<String>, s: &str) -> (r: bool)
    ensures
        r == views(list@).contains(s@),
{
    for i in 0..list.len()
        invariant
            forall|j: int| 0 <= j < i ==> views(list@)[j] != s@,
    {
        if same(list[i].as_str(), s) {
            assert(views(list@)[i as int] == s@);
            return true;
        }
    }
    false
}

/// Whether two lists hold the same strings in the same order.
pub fn same_list(a: &Vec<String>, b: &Vec<String>) -> (r: bool)
    ensures
        r == (views(a@) == views(b@)),
{
    if a.len() != b.len() {
        assert(views(a@).len() != views(b@).len());
        return false;
    }
    for i in 0..a.len()
        invariant
            a.len() == b.len(),
            forall|j: int| 0 <= j < i ==> views(a@)[j] == views(b@)[j],
    {
        if !same(a[i].as_str(), b[i].as_str()) {
            assert(views(a@)[i as int] != views(b@)[i as int]);
            return false;
        }
    }
    assert(views(a@) == views(b@));
    true
}

/// A copy of a list of strings.
pub fn copy_all(list: &Vec<String>) -> (r: Vec<String>)
    ensures
        views(r@) == views(list@),
{
    let mut r: Vec<String> = Vec::new();
    for i in 0..list.len()
        invariant
            views(r@) == views(list@).take(i as int),
    {
        let ghost before = views(r@);
        r.push(list[i].clone());
        assert(views(r@) == before.push(list@[i as int]@));
        assert(views(list@).take(i + 1) == views(list@).take(i as int).push(list@[i as int]@));
    }
    assert(views(list@).take(list@.len() as int) == views(list@));
    r
}

// ---------------------------------------------------------------------------
// Characters
// ---------------------------------------------------------------------------
/// Unicode white space.
pub open spec fn is_space(c: char) -> bool {
    let n = c as u32;
    ||| 0x09 <= n <= 0x0d
    ||| n == 0x20
    ||| n == 0x85
    ||| n == 0xa0
    ||| n == 0x1680
    ||| 0x2000 <= n <= 0x200a
    ||| n == 0x2028
    ||| n == 0x2029
    ||| n == 0x202f
    ||| n == 0x205f
    ||| n == 0x3000
}

/// Whether `c` is Unicode white space.
pub fn space(c: char) -> (r: bool)
    ensures
        r == is_space(c),
{
    let n: u32 = c as u32;
    (0x09 <= n && n <= 0x0d) || n == 0x20 || n == 0x85 || n == 0xa0 || n == 0x1680 || (0x2000 <= n
        && n <= 0x200a) || n == 0x2028 || n == 0x2029 || n == 0x202f || n == 0x205f || n == 0x3000
}

pub open spec fn is_digit(c: char) -> bool {
    '0' <= c <= '9'
}

pub open spec fn is_lower(c: char) -> bool {
    'a' <= c <= 'z'
}

pub open spec fn is_upper(c: char) -> bool {
    'A' <= c <= 'Z'
}

/// The lower-case form of an ASCII letter; other characters stay.
pub open spec fn lower(c: char) -> char {
    if is_upper(c) {
        ((c as u32) + 32) as char
    } else {
        c
    }
}

/// The upper-case form of an ASCII letter; other characters stay.
pub open spec fn upper(c: char) -> char {
    if is_lower(c) {
        ((c as u32) - 32) as char
    } else {
        c
    }
}

/// The lower-case form of an ASCII letter; other characters stay.
pub fn to_lower(c: char) -> (r: char)
    ensures
        r == lower(c),
{
    if 'A' <= c && c <= 'Z' {
        ((c as u8) + 32) as char
    } else {
        c
    }
}

/// The upper-case form of an ASCII letter; other characters stay.
pub fn to_upper(c: char) -> (r: char)
    ensures
        r == upper(c),
{
    if 'a' <= c && c <= 'z' {
        ((c as u8) - 32) as char
    } else {
        c
    }
}

// ---------------------------------------------------------------------------
// Decimal numbers
// ---------------------------------------------------------------------------
/// The character of one decimal digit.
pub open spec fn digit(d: nat) -> char {
    (48 + d) as char
}

/// `n` written in decimal, without leading zeros.
pub open spec fn decimal(n: nat) -> Seq<char>
    decreases n,
{
    if n < 10 {
        seq![digit(n)]
    } else {
        decimal(n / 10).push(digit(n % 10))
    }
}

/// `n` written in decimal, without leading zeros.
pub fn decimal_text(n: u64) -> (r: String)
    ensures
        r@ == decimal(n as nat),
    decreases n,
{
    let last: char = (48 + (n % 10) as u8) as char;
    if n < 10 {
        let mut r = String::new();
        r.push(last);
        assert(r@ == seq![digit(n as nat)]);
        r
    } else {
        let mut r = decimal_text(n / 10);
        r.push(last);
        r
    }
}

/// `n` written in decimal, with a minus sign in front if it is negative.
pub open spec fn signed_decimal(n: int) -> Seq<char> {
    if n < 0 {
        "-"@ + decimal((-n) as nat)
    } else {
        decimal(n as nat)
    }
}

/// `n` written in decimal, with a minus sign in front if it is negative.
pub fn signed_text(n: i64) -> (r: String)
    ensures
        r@ == signed_decimal(n as int),
{
    if n < 0 {
        let size: u64 = (-(n as i128)) as u64;
        "-".to_owned().concat(decimal_text(size).as_str())
    } else {
        decimal_text(n as u64)
    }
}

/// The number that a run of digits denotes.
pub open spec fn digits_value(s: Seq<char>) -> nat
    decreases s.len(),
{
    if s.len() == 0 {
        0
    } else {
        digits_value(s.drop_last()) * 10 + (s.last() as u32 - 48) as nat
    }
}

pub open spec fn all_digits(s: Seq<char>) -> bool {
    forall|i: int| 0 <= i < s.len() ==> is_digit(#[trigger] s[i])
}

/// `s` without one leading plus sign.
pub open spec fn unsigned_part(s: Seq<char>) -> Seq<char> {
    if s.len() > 0 && s[0] == '+' {
        s.skip(1)
    } else {
        s
    }
}

/// The unsigned integer that `s` denotes: at least one digit, at most one
/// plus sign in front, nothing else, and no more than `max`.
pub open spec fn number(s: Seq<char>, max: nat) -> Option<nat> {
    let d = unsigned_part(s);
    if d.len() > 0 && all_digits(d) && digits_value(d) <= max {
        Some(digits_value(d))
    } else {
        None
    }
}

proof fn lemma_digits_grow(s: Seq<char>, i: int)
    requires
        0 <= i <= s.len(),
    ensures
        digits_value(s.take(i)) <= digits_value(s),
    decreases s.len() - i,
{
    if i < s.len() {
        lemma_digits_grow(s, i + 1);
        assert(s.take(i + 1).drop_last() == s.take(i));
    } else {
        assert(s.take(i) == s);
    }
}

/// Reads an unsigned decimal integer no greater than `max`.
pub fn parse_number(cs: &Vec<char>, max: u64) -> (r: Option<u64>)
    requires
        max <= 0xffff_ffff,
    ensures
        match r {
            Some(n) => number(cs@, max as nat) == Some(n as nat),
            None => number(cs@, max as nat) is None,
        },
{
    let start: usize = if cs.len() > 0 && cs[0] == '+' {
        1
    } else {
        0
    };
    let ghost d = unsigned_part(cs@);
    assert(d == cs@.skip(start as int));
    if cs.len() == start {
        return None;
    }
    let mut n: u64 = 0;
    for i in start..cs.len()
        invariant
            start <= cs.len(),
            d == cs@.skip(start as int),
            d == unsigned_part(cs@),
            max <= 0xffff_ffff,
            n <= max,
            n == digits_value(d.take(i - start)),
            forall|j: int| 0 <= j < i - start ==> is_digit(#[trigger] d[j]),
    {
        let c: char = cs[i];
        assert(d[i - start] == c);
        if c < '0' || '9' < c {
            assert(!is_digit(d[i - start]));
            return None;
        }
        assert(d.take(i - start + 1).drop_last() == d.take(i - start));
        n = n * 10 + (c as u64 - 48);
        if n > max {
            proof {
                lemma_digits_grow(d, i - start + 1);
            }
            return None;
        }
    }
    assert(d.take(d.len() as int) == d);
    Some(n)
}

/// Writing a number in decimal and reading it back gives the number, as long
/// as it is within the bound.
pub proof fn decimal_reads_back(n: nat, max: nat)
    requires
        n <= max,
    ensures
        number(decimal(n), max) == Some(n),
        all_digits(decimal(n)),
        decimal(n).len() > 0,
    decreases n,
{
    if n >= 10 {
        decimal_reads_back(n / 10, n / 10);
        let s = decimal(n);
        assert(s.drop_last() == decimal(n / 10));
        assert(decimal(n / 10)[0] == s[0]);
        assert(unsigned_part(decimal(n / 10)) == decimal(n / 10));
        assert(is_digit(s[0]));
        assert(all_digits(s)) by {
            assert forall|i: int| 0 <= i < s.len() implies is_digit(#[trigger] s[i]) by {
                if i < s.len() - 1 {
                    assert(s[i] == decimal(n / 10)[i]);
                }
            }
        }
    } else {
        let s = decimal(n);
        assert(s.drop_last() == Seq::<char>::empty());
        assert(s.last() == digit(n));
        assert(digits_value(s.drop_last()) == 0);
    }
}

} // verus!
