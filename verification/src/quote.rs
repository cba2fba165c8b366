//! Quoting for a POSIX shell.
use crate::text;
use crate::words;
use vstd::prelude::*;
use vstd::string::*;

verus! {

/// A text with each single quote written so that it closes the quotes, stands
/// escaped, and opens them again.
pub open spec fn escaped(s: Seq<char>) -> Seq<char>
    decreases s.len(),
{
    if s.len() == 0 {
        Seq::empty()
    } else if s.last() == '\'' {
        escaped(s.drop_last()) + "'\\''"@
    } else {
        escaped(s.drop_last()).push(s.last())
    }
}

/// A text as one word of a shell command.
pub open spec fn quoted(s: Seq<char>) -> Seq<char> {
    "'"@ + escaped(s) + "'"@
}

/// Quotes a text so that a shell reads it as one word.
pub fn shell_quote(s: &str) -> (r: String)
    ensures
        r@ == quoted(s@),
{
    let cs = text::to_chars(s);
    let mut body = String::new();
    for i in 0..cs.len()
        invariant
            cs@ == s@,
            body@ == escaped(s@.take(i as int)),
    {
        assert(s@.take(i + 1).drop_last() == s@.take(i as int));
        if cs[i] == '\'' {
            body.append("'\\''");
        } else {
            body.push(cs[i]);
        }
    }
    assert(s@.take(s@.len() as int) == s@);
    "'".to_owned().concat(body.as_str()).concat("'")
}

/// The command line that a list of words makes.
pub open spec fn quoted_words(list: Seq<Seq<char>>) -> Seq<char> {
    words::joined(list.map_values(|s: Seq<char>| quoted(s)), " "@)
}

/// Quotes each word and puts a space between two of them.
pub fn quote_words(list: &Vec<String>) -> (r: String)
    ensures
        r@ == quoted_words(text::views(list@)),
{
    let mut parts: Vec<String> = Vec::new();
    let ghost want = text::views(list@).map_values(|s: Seq<char>| quoted(s));
    for i in 0..list.len()
        invariant
            want == text::views(list@).map_values(|s: Seq<char>| quoted(s)),
            text::views(parts@) == want.take(i as int),
    {
        let ghost before = text::views(parts@);
        parts.push(shell_quote(list[i].as_str()));
        assert(text::views(parts@) == before.push(want[i as int]));
        assert(want.take(i + 1) == want.take(i as int).push(want[i as int]));
    }
    assert(want.take(want.len() as int) == want);
    words::join(&parts, " ")
}

/// What a shell makes of a word of quoted parts and escaped characters. There
/// is no such word where quotes stay open or something else stands outside
/// them.
pub open spec fn shell_word(s: Seq<char>, inside: bool) -> Option<Seq<char>>
    decreases s.len(),
{
    if s.len() == 0 {
        if inside {
            None
        } else {
            Some(Seq::empty())
        }
    } else if s[0] == '\'' {
        shell_word(s.skip(1), !inside)
    } else if inside {
        match shell_word(s.skip(1), true) {
            Some(rest) => Some(seq![s[0]] + rest),
            None => None,
        }
    } else if s[0] == '\\' && s.len() >= 2 {
        match shell_word(s.skip(2), false) {
            Some(rest) => Some(seq![s[1]] + rest),
            None => None,
        }
    } else {
        None
    }
}

proof fn lemma_inside(s: Seq<char>, tail: Seq<char>)
    requires
        shell_word(tail, true) is Some,
    ensures
        shell_word(escaped(s) + tail, true) == Some(s + shell_word(tail, true)->0),
    decreases s.len(),
{
    if s.len() == 0 {
        assert(escaped(s) + tail == tail);
        assert(s + shell_word(tail, true)->0 == shell_word(tail, true)->0);
    } else {
        let front = s.drop_last();
        let c = s.last();
        let rest = shell_word(tail, true)->0;
        if c == '\'' {
            reveal_strlit("'\\''");
            let q = "'\\''"@;
            let more = q + tail;
            let t1 = more.skip(1);
            assert(more[0] == '\'');
            assert(t1[0] == '\\');
            assert(t1[1] == '\'');
            let t2 = t1.skip(2);
            assert(t2[0] == '\'');
            assert(t2.skip(1) == tail);
            assert(shell_word(t2, false) == Some(rest));
            assert(shell_word(t1, false) == Some(seq![c] + rest));
            assert(shell_word(more, true) == Some(seq![c] + rest));
            lemma_inside(front, more);
            assert(escaped(s) + tail == escaped(front) + more);
            assert(front + (seq![c] + rest) == s + rest);
        } else {
            let more = seq![c] + tail;
            assert(more.skip(1) == tail);
            assert(more[0] == c);
            assert(shell_word(more, true) == Some(seq![c] + rest));
            lemma_inside(front, more);
            assert(escaped(s) + tail == escaped(front) + more);
            assert(front + (seq![c] + rest) == s + rest);
        }
    }
}

/// A shell reads a quoted text as the text itself.
pub proof fn quoting_keeps_the_text(s: Seq<char>)
    ensures
        shell_word(quoted(s), false) == Some(s),
{
    reveal_strlit("'");
    let q = "'"@;
    assert(q.skip(1) == Seq::<char>::empty());
    assert(shell_word(Seq::<char>::empty(), false) == Some(Seq::<char>::empty()));
    assert(shell_word(q, true) == Some(Seq::<char>::empty()));
    lemma_inside(s, q);
    assert(quoted(s).skip(1) == escaped(s) + q);
    assert(quoted(s)[0] == '\'');
    assert(s + Seq::<char>::empty() == s);
}

} // verus!
