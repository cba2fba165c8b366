//! Logs of projects.
use crate::style;
use crate::text;
use crate::words;
use vstd::prelude::*;
use vstd::string::*;

verus! {

/// How many lines of a log are shown.
pub const LOG_TAIL_LINES: usize = 100;

/// The last `n` of a list; all of it if it is shorter.
pub open spec fn last_of(list: Seq<Seq<char>>, n: nat) -> Seq<Seq<char>> {
    if list.len() <= n {
        list
    } else {
        list.skip(list.len() - n)
    }
}

/// The last `n` lines of a text.
pub fn tail_lines(content: &str, n: usize) -> (r: Vec<String>)
    ensures
        text::views(r@) == last_of(words::lines(content@), n as nat),
{
    let lines = words::split_lines(&text::to_chars(content));
    let ghost all = text::views(lines@);
    let start: usize = if lines.len() <= n {
        0
    } else {
        lines.len() - n
    };
    let mut r: Vec<String> = Vec::new();
    for i in start..lines.len()
        invariant
            start <= i <= lines@.len(),
            all == text::views(lines@),
            text::views(r@) == all.subrange(start as int, i as int),
    {
        let ghost before = text::views(r@);
        r.push(lines[i].clone());
        assert(text::views(r@) == before.push(all[i as int]));
        assert(all.subrange(start as int, i + 1) == all.subrange(start as int, i as int).push(
            all[i as int],
        ));
    }
    assert(all.subrange(start as int, all.len() as int) == last_of(all, n as nat));
    r
}

/// The message on a project without a log.
pub fn no_log_text(project: &str, path: &str) -> (r: String)
    ensures
        r@ == "no log file for project `"@ + project@ + "` at "@ + path@
            + " (has it been started with `neals up`?)"@,
{
    "no log file for project `".to_owned().concat(project).concat("` at ").concat(path).concat(
        " (has it been started with `neals up`?)",
    )
}

/// A line of a log with the name of the process in front.
pub fn format_process_line(name: &str, width: usize, line: &str) -> (r: String)
    ensures
        r@ == style::padded(name@, width as nat) + " | "@ + line@,
{
    style::pad_right(name, width).concat(" | ").concat(line)
}

} // verus!
