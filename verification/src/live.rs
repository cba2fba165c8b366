//! The live view of a project: its log, and keys to leave it.
use crate::logs;
use vstd::prelude::*;
use vstd::string::*;

verus! {

/// How the live view was left.
#[derive(Debug, Clone, Copy, PartialEq, Eq, Structural)]
pub enum LiveOutcome {
    /// By a key; the project keeps running.
    Detached,
    /// By a key that stops the project.
    Stopped,
    /// The project ended.
    Exited,
    /// By a key that opens a shell in the project.
    Shell,
}

/// A key as the terminal reports it.
#[derive(Debug, Clone, Copy, PartialEq, Eq, Structural)]
pub struct Key {
    /// The character of the key, if it has one.
    pub character: Option<char>,
    /// Whether the control key, and no other modifier, was held.
    pub control: bool,
    /// Whether no modifier was held.
    pub plain: bool,
    /// Whether the key went down, as opposed to up or repeating.
    pub press: bool,
}

/// What a key that goes down means: control and C, or Q with or without
/// control, leave the view; control and X stop the project; control and B
/// open a shell.
pub open spec fn meaning(key: Key) -> Option<LiveOutcome> {
    if key.control && (key.character == Some('c') || key.character == Some('q')) {
        Some(LiveOutcome::Detached)
    } else if key.plain && key.character == Some('q') {
        Some(LiveOutcome::Detached)
    } else if key.control && key.character == Some('x') {
        Some(LiveOutcome::Stopped)
    } else if key.control && key.character == Some('b') {
        Some(LiveOutcome::Shell)
    } else {
        None
    }
}

/// What a key that goes down means.
pub fn key_meaning(key: Key) -> (r: Option<LiveOutcome>)
    ensures
        r == meaning(key),
{
    match key.character {
        None => None,
        Some(c) => if key.control && (c == 'c' || c == 'q') {
            Some(LiveOutcome::Detached)
        } else if key.plain && c == 'q' {
            Some(LiveOutcome::Detached)
        } else if key.control && c == 'x' {
            Some(LiveOutcome::Stopped)
        } else if key.control && c == 'b' {
            Some(LiveOutcome::Shell)
        } else {
            None
        },
    }
}

/// Every how many rounds the view looks for new processes.
pub const DISCOVER_EVERY: u8 = 5;

/// What to do after input was waited for.
#[derive(Debug, Clone, Copy, PartialEq, Eq, Structural)]
pub enum LiveNext {
    /// Leave the view.
    Leave(LiveOutcome),
    /// Wait for input again.
    Again,
    /// Go on with the round, and look for new processes if told to.
    Round { discover: bool },
}

/// The live view between two rounds.
#[derive(Debug, Clone, Copy, PartialEq, Eq, Structural)]
pub struct LiveView {
    /// How many rounds there were, counted around.
    pub ticks: u8,
    /// Whether the logs of single processes are known.
    pub has_mux: bool,
    /// Whether none of them was found yet.
    pub mux_empty: bool,
    /// Whether the merged log is still followed.
    pub merged: bool,
    /// How wide the names in front of the lines are.
    pub width: usize,
}

/// How to open the merged log.
#[derive(Debug, Clone, Copy, PartialEq, Eq, Structural)]
pub enum Attach {
    /// Show what stands behind this position.
    FromOffset(u64),
    /// Show nothing of what is there.
    AtEnd,
    /// Show this many of the last lines.
    WithTail(usize),
}

/// How to open the merged log.
pub fn attach_devenv_merged(from_start: bool, merged_from: Option<u64>) -> (r: Attach)
    ensures
        r == match merged_from {
            Some(offset) => Attach::FromOffset(offset),
            None => if from_start {
                Attach::AtEnd
            } else {
                Attach::WithTail(logs::LOG_TAIL_LINES)
            },
        },
{
    match merged_from {
        Some(offset) => Attach::FromOffset(offset),
        None => if from_start {
            Attach::AtEnd
        } else {
            Attach::WithTail(logs::LOG_TAIL_LINES)
        },
    }
}

/// The larger of two widths.
pub open spec fn wider(a: usize, b: usize) -> usize {
    if a < b {
        b
    } else {
        a
    }
}

/// The view after the logs of single processes were looked for again: with the
/// first of them the merged log is let go, and names take as much room as the
/// widest so far.
pub open spec fn refreshed(view: LiveView, empty: bool, width: usize) -> LiveView {
    LiveView {
        mux_empty: empty,
        merged: view.merged && !(view.mux_empty && !empty),
        width: wider(view.width, width),
        ..view
    }
}

impl LiveView {
    /// The view at the start: the merged log is followed under the name
    /// `devenv`.
    pub fn begin() -> (r: LiveView)
        ensures
            r == (LiveView {
                ticks: 0,
                has_mux: false,
                mux_empty: true,
                merged: true,
                width: 6,
            }),
    {
        LiveView { ticks: 0, has_mux: false, mux_empty: true, merged: true, width: 6 }
    }

    /// A round begins, with the key that came in if one did. A key that goes
    /// up starts the round over.
    pub fn on_input(&mut self, key: Option<Key>) -> (r: LiveNext)
        ensures
            match key {
                Some(k) if !k.press => r == LiveNext::Again && *final(self) == *old(self),
                Some(k) if meaning(k) is Some => r == LiveNext::Leave(meaning(k)->0)
                    && *final(self) == *old(self),
                _ => {
                    &&& *final(self) == (LiveView {
                        ticks: ((old(self).ticks + 1) % 256) as u8,
                        ..*old(self)
                    })
                    &&& r == (LiveNext::Round {
                        discover: final(self).ticks % DISCOVER_EVERY == 0,
                    })
                },
            },
    {
        if let Some(k) = key {
            if !k.press {
                return LiveNext::Again;
            }
            if let Some(outcome) = key_meaning(k) {
                return LiveNext::Leave(outcome);
            }
        }
        self.ticks = if self.ticks == 255 {
            0
        } else {
            self.ticks + 1
        };
        LiveNext::Round { discover: self.ticks % DISCOVER_EVERY == 0 }
    }

    /// Whether the project runs, if the daemon could say.
    pub fn on_running(&self, running: Option<bool>) -> (r: Option<LiveOutcome>)
        ensures
            r == if running == Some(false) {
                Some(LiveOutcome::Exited)
            } else {
                None
            },
    {
        match running {
            Some(false) => Some(LiveOutcome::Exited),
            _ => None,
        }
    }

    /// Whether the logs of single processes were found.
    pub fn on_mux(&mut self, found: bool)
        ensures
            *final(self) == (LiveView { has_mux: old(self).has_mux || found, ..*old(self) }),
    {
        self.has_mux = self.has_mux || found;
    }

    /// The logs of single processes were looked for again: whether there are
    /// still none, and how wide their names are. With the first of them the
    /// merged log is let go.
    pub fn on_refresh(&mut self, empty: bool, width: usize)
        ensures
            *final(self) == refreshed(*old(self), empty, width),
    {
        if self.mux_empty && !empty {
            self.merged = false;
        }
        self.mux_empty = empty;
        if self.width < width {
            self.width = width;
        }
    }

    /// How wide the name in front of a line is, given the widest name of a
    /// process if there are any.
    pub fn line_width(&self, mux_width: Option<usize>) -> (r: usize)
        ensures
            r == match mux_width {
                Some(w) => wider(w, self.width),
                None => self.width,
            },
    {
        match mux_width {
            Some(w) => if w < self.width {
                self.width
            } else {
                w
            },
            None => self.width,
        }
    }
}

/// Once the merged log is let go it is not followed again, and the names in
/// front of the lines never get narrower.
pub proof fn refresh_is_one_way(view: LiveView, empty: bool, width: usize)
    ensures
        refreshed(view, empty, width).merged ==> view.merged,
        refreshed(view, empty, width).width >= view.width,
        refreshed(view, empty, width).width >= width,
{
}

/// What to tell the user when the view was left. Success is told apart from
/// the rest.
pub fn leave_message(outcome: LiveOutcome, project: &str) -> (r: (bool, String))
    ensures
        r.0 == (outcome == LiveOutcome::Stopped),
        r.1@ == match outcome {
            LiveOutcome::Detached => "detached from `"@ + project@
                + "` (still running; `neals logs "@ + project@ + " -f` to reattach)"@,
            LiveOutcome::Stopped => "stopped `"@ + project@ + "`"@,
            LiveOutcome::Exited => "`"@ + project@ + "` is no longer running"@,
            LiveOutcome::Shell => "entering `"@ + project@ + "` shell"@,
        },
{
    match outcome {
        LiveOutcome::Detached => (
            false,
            "detached from `".to_owned().concat(project).concat(
                "` (still running; `neals logs ",
            ).concat(project).concat(" -f` to reattach)"),
        ),
        LiveOutcome::Stopped => (true, "stopped `".to_owned().concat(project).concat("`")),
        LiveOutcome::Exited => (
            false,
            "`".to_owned().concat(project).concat("` is no longer running"),
        ),
        LiveOutcome::Shell => (false, "entering `".to_owned().concat(project).concat("` shell")),
    }
}

/// A line as it is written: in raw mode the carriage has to be returned too.
pub fn emit_line(raw: bool, line: &str) -> (r: String)
    ensures
        r@ == line@ + if raw {
            "\r\n"@
        } else {
            "\n"@
        },
{
    if raw {
        line.to_owned().concat("\r\n")
    } else {
        line.to_owned().concat("\n")
    }
}

} // verus!
