//! Colours and marks on the terminal.
use crate::text;
use owo_colors::OwoColorize;
use vstd::prelude::*;
use vstd::string::*;

verus! {

/// A text between two escape sequences.
pub open spec fn painted(start: Seq<char>, s: Seq<char>, end: Seq<char>) -> Seq<char> {
    start + s + end
}

/// `OwoColorize::cyan`: the text between the sequence for cyan and the one
/// that resets the foreground.
#[verifier::external_body]
fn cyan(s: &str) -> (r: String)
    ensures
        r@ == painted("\x1b[36m"@, s@, "\x1b[39m"@),
{
    s.cyan().to_string()
}

/// `OwoColorize::green`: the text between the sequence for green and the one
/// that resets the foreground.
#[verifier::external_body]
fn green(s: &str) -> (r: String)
    ensures
        r@ == painted("\x1b[32m"@, s@, "\x1b[39m"@),
{
    s.green().to_string()
}

/// `OwoColorize::yellow`: the text between the sequence for yellow and the one
/// that resets the foreground.
#[verifier::external_body]
fn yellow(s: &str) -> (r: String)
    ensures
        r@ == painted("\x1b[33m"@, s@, "\x1b[39m"@),
{
    s.yellow().to_string()
}

/// `OwoColorize::red`: the text between the sequence for red and the one that
/// resets the foreground.
#[verifier::external_body]
fn red(s: &str) -> (r: String)
    ensures
        r@ == painted("\x1b[31m"@, s@, "\x1b[39m"@),
{
    s.red().to_string()
}

/// `OwoColorize::bold`: the text between the sequence for bold and the one
/// that resets everything.
#[verifier::external_body]
fn bold(s: &str) -> (r: String)
    ensures
        r@ == painted("\x1b[1m"@, s@, "\x1b[0m"@),
{
    s.bold().to_string()
}

/// `OwoColorize::dimmed`: the text between the sequence for faint and the one
/// that resets everything.
#[verifier::external_body]
fn dimmed(s: &str) -> (r: String)
    ensures
        r@ == painted("\x1b[2m"@, s@, "\x1b[0m"@),
{
    s.dimmed().to_string()
}

/// Whether to use colours: on a terminal, unless `NO_COLOR` is set or
/// `CLICOLOR` is 0.
pub fn use_color(
    no_color: bool,
    clicolor: Option<&String>,
    stdout_is_terminal: bool,
    stderr_is_terminal: bool,
) -> (r: bool)
    ensures
        r == {
            &&& !no_color
            &&& !(clicolor matches Some(c) && c@ == "0"@)
            &&& stdout_is_terminal || stderr_is_terminal
        },
{
    if no_color {
        return false;
    }
    if let Some(c) = clicolor {
        if text::same(c.as_str(), "0") {
            return false;
        }
    }
    stdout_is_terminal || stderr_is_terminal
}

/// A line that reports success.
pub fn ok_line(msg: &str, color: bool) -> (r: String)
    ensures
        r@ == if color {
            painted("\x1b[32m"@, "✔"@, "\x1b[39m"@) + " "@ + msg@
        } else {
            "ok: "@ + msg@
        },
{
    if color {
        green("✔").concat(" ").concat(msg)
    } else {
        "ok: ".to_owned().concat(msg)
    }
}

/// A line that warns.
pub fn warn_line(msg: &str, color: bool) -> (r: String)
    ensures
        r@ == if color {
            painted("\x1b[33m"@, "⚠"@, "\x1b[39m"@) + " "@ + msg@
        } else {
            "warning: "@ + msg@
        },
{
    if color {
        yellow("⚠").concat(" ").concat(msg)
    } else {
        "warning: ".to_owned().concat(msg)
    }
}

/// A line that reports a failure.
pub fn err_line(msg: &str, color: bool) -> (r: String)
    ensures
        r@ == if color {
            painted("\x1b[31m"@, "✖"@, "\x1b[39m"@) + " "@ + msg@
        } else {
            "error: "@ + msg@
        },
{
    if color {
        red("✖").concat(" ").concat(msg)
    } else {
        "error: ".to_owned().concat(msg)
    }
}

/// A line in the background.
pub fn dim_line(msg: &str, color: bool) -> (r: String)
    ensures
        r@ == if color {
            painted("\x1b[2m"@, msg@, "\x1b[0m"@)
        } else {
            msg@
        },
{
    if color {
        dimmed(msg)
    } else {
        msg.to_owned()
    }
}

/// A text that stands out.
pub fn accent(msg: &str, color: bool) -> (r: String)
    ensures
        r@ == if color {
            painted("\x1b[36m"@, msg@, "\x1b[39m"@)
        } else {
            msg@
        },
{
    if color {
        cyan(msg)
    } else {
        msg.to_owned()
    }
}

/// The mark of a check: whether it passed, and if not, whether it had to.
pub open spec fn mark(ok: bool, required: bool, color: bool) -> Seq<char> {
    if ok {
        if color {
            painted("\x1b[32m"@, "ok"@, "\x1b[39m"@)
        } else {
            "ok"@
        }
    } else if required {
        if color {
            painted("\x1b[1m"@, painted("\x1b[31m"@, "FAIL"@, "\x1b[39m"@), "\x1b[0m"@)
        } else {
            "FAIL"@
        }
    } else if color {
        painted("\x1b[33m"@, "WARN"@, "\x1b[39m"@)
    } else {
        "WARN"@
    }
}

/// The mark of a check.
pub fn format_mark(ok: bool, required: bool, color: bool) -> (r: String)
    ensures
        r@ == mark(ok, required, color),
{
    if ok {
        if color {
            green("ok")
        } else {
            "ok".to_owned()
        }
    } else if required {
        if color {
            bold(red("FAIL").as_str())
        } else {
            "FAIL".to_owned()
        }
    } else if color {
        yellow("WARN")
    } else {
        "WARN".to_owned()
    }
}

/// A text with spaces behind it up to a width.
pub open spec fn padded(s: Seq<char>, width: nat) -> Seq<char> {
    if s.len() >= width {
        s
    } else {
        s + Seq::new((width - s.len()) as nat, |i: int| ' ')
    }
}

/// A text with spaces behind it up to a width.
pub fn pad_right(s: &str, width: usize) -> (r: String)
    ensures
        r@ == padded(s@, width as nat),
{
    let len: usize = s.unicode_len();
    let mut r = s.to_owned();
    if len >= width {
        return r;
    }
    for i in len..width
        invariant
            len == s@.len(),
            len <= i <= width,
            r@ == s@ + Seq::new((i - len) as nat, |k: int| ' '),
    {
        r.push(' ');
        assert(r@ == s@ + Seq::new((i + 1 - len) as nat, |k: int| ' '));
    }
    assert(r@ == padded(s@, width as nat));
    r
}

} // verus!
