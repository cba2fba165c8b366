//! The interactive command loop.
use crate::text;
use crate::words;
use vstd::prelude::*;
use vstd::string::*;

verus! {

/// What is shown on `help`.
pub const HELP: &'static str = "commands:
  help                 show this help
  list                 registered projects
  status               running projects
  up <project> [-d]    start (live view unless -d)
  down <project>       stop
  logs <project> [-f]  show logs (-f opens live view)
  bash <project>       project devenv shell
  doctor               environment checks
  quit / exit          leave the repl";

/// What a line asks for.
#[derive(Debug, Clone, PartialEq, Eq)]
pub enum ReplCommand {
    Nothing,
    Help,
    Quit,
    List,
    Status,
    Doctor,
    Up { project: String, detach: bool },
    Down { project: String },
    Logs { project: String, follow: bool },
    Bash { project: String },
    /// Something unknown, which gets this warning.
    Unknown(String),
}

/// What a line asks for.
pub enum Command {
    Nothing,
    Help,
    Quit,
    List,
    Status,
    Doctor,
    Up { project: Seq<char>, detach: bool },
    Down { project: Seq<char> },
    Logs { project: Seq<char>, follow: bool },
    Bash { project: Seq<char> },
    Unknown(Seq<char>),
}

impl View for ReplCommand {
    type V = Command;

    open spec fn view(&self) -> Command {
        match self {
            ReplCommand::Nothing => Command::Nothing,
            ReplCommand::Help => Command::Help,
            ReplCommand::Quit => Command::Quit,
            ReplCommand::List => Command::List,
            ReplCommand::Status => Command::Status,
            ReplCommand::Doctor => Command::Doctor,
            ReplCommand::Up { project, detach } => Command::Up {
                project: project@,
                detach: *detach,
            },
            ReplCommand::Down { project } => Command::Down { project: project@ },
            ReplCommand::Logs { project, follow } => Command::Logs {
                project: project@,
                follow: *follow,
            },
            ReplCommand::Bash { project } => Command::Bash { project: project@ },
            ReplCommand::Unknown(m) => Command::Unknown(m@),
        }
    }
}

/// What a word stands for among the commands.
pub enum Verb {
    Help,
    Quit,
    List,
    Status,
    Doctor,
    Up,
    Down,
    Logs,
    Bash,
    Registry,
    Other,
}

/// What the first word of a line stands for.
pub open spec fn verb(word: Seq<char>) -> Verb {
    if word == "help"@ || word == "?"@ {
        Verb::Help
    } else if word == "quit"@ || word == "exit"@ || word == "q"@ {
        Verb::Quit
    } else if word == "list"@ {
        Verb::List
    } else if word == "status"@ {
        Verb::Status
    } else if word == "doctor"@ {
        Verb::Doctor
    } else if word == "up"@ {
        Verb::Up
    } else if word == "down"@ {
        Verb::Down
    } else if word == "logs"@ {
        Verb::Logs
    } else if word == "bash"@ {
        Verb::Bash
    } else if word == "register"@ || word == "unregister"@ || word == "prune"@ {
        Verb::Registry
    } else {
        Verb::Other
    }
}

fn read_verb(word: &str) -> (r: Verb)
    ensures
        r == verb(word@),
{
    if text::same(word, "help") || text::same(word, "?") {
        Verb::Help
    } else if text::same(word, "quit") || text::same(word, "exit") || text::same(word, "q") {
        Verb::Quit
    } else if text::same(word, "list") {
        Verb::List
    } else if text::same(word, "status") {
        Verb::Status
    } else if text::same(word, "doctor") {
        Verb::Doctor
    } else if text::same(word, "up") {
        Verb::Up
    } else if text::same(word, "down") {
        Verb::Down
    } else if text::same(word, "logs") {
        Verb::Logs
    } else if text::same(word, "bash") {
        Verb::Bash
    } else if text::same(word, "register") || text::same(word, "unregister") || text::same(
        word,
        "prune",
    ) {
        Verb::Registry
    } else {
        Verb::Other
    }
}

/// Whether a flag stands among the arguments, in its short or long form.
pub open spec fn has_flag(args: Seq<Seq<char>>, short: Seq<char>, long: Seq<char>) -> bool {
    args.contains(short) || args.contains(long)
}

/// What a command and its arguments ask for, or how the command is used.
pub open spec fn command(cmd: Seq<char>, args: Seq<Seq<char>>) -> Result<Command, Seq<char>> {
    match verb(cmd) {
        Verb::Help => Ok(Command::Help),
        Verb::Quit => Ok(Command::Quit),
        Verb::List => Ok(Command::List),
        Verb::Status => Ok(Command::Status),
        Verb::Doctor => Ok(Command::Doctor),
        Verb::Up => if args.len() == 0 {
            Err("usage: up <project> [-d]"@)
        } else {
            Ok(Command::Up { project: args[0], detach: has_flag(args, "-d"@, "--detach"@) })
        },
        Verb::Down => if args.len() == 0 {
            Err("usage: down <project>"@)
        } else {
            Ok(Command::Down { project: args[0] })
        },
        Verb::Logs => if args.len() == 0 {
            Err("usage: logs <project> [-f]"@)
        } else {
            Ok(Command::Logs { project: args[0], follow: has_flag(args, "-f"@, "--follow"@) })
        },
        Verb::Bash => if args.len() == 0 {
            Err("usage: bash <project>"@)
        } else {
            Ok(Command::Bash { project: args[0] })
        },
        Verb::Registry => Err(
            "use `neals "@ + cmd + "` from the outer shell for registry changes"@,
        ),
        Verb::Other => Ok(Command::Unknown("unknown command `"@ + cmd + "` — try `help`"@)),
    }
}

/// What a line asks for, or how the command is used.
pub open spec fn dispatched(line: Seq<char>) -> Result<Command, Seq<char>> {
    let parts = words::words(line);
    if parts.len() == 0 {
        Ok(Command::Nothing)
    } else {
        command(parts[0], parts.skip(1))
    }
}

/// What a line asks for, or how the command is used.
pub fn dispatch(line: &str) -> (r: Result<ReplCommand, String>)
    ensures
        match (r, dispatched(line@)) {
            (Ok(a), Ok(b)) => a@ == b,
            (Err(a), Err(b)) => a@ == b,
            _ => false,
        },
{
    let mut args = words::split_words(&text::to_chars(line));
    let ghost all = text::views(args@);
    if args.len() == 0 {
        return Ok(ReplCommand::Nothing);
    }
    let cmd = args.remove(0);
    assert(cmd@ == all[0]);
    assert(text::views(args@) == all.skip(1));
    let given = args.len() > 0;
    match read_verb(cmd.as_str()) {
        Verb::Help => Ok(ReplCommand::Help),
        Verb::Quit => Ok(ReplCommand::Quit),
        Verb::List => Ok(ReplCommand::List),
        Verb::Status => Ok(ReplCommand::Status),
        Verb::Doctor => Ok(ReplCommand::Doctor),
        Verb::Up => if given {
            let detach = text::holds(&args, "-d") || text::holds(&args, "--detach");
            Ok(ReplCommand::Up { project: args[0].clone(), detach })
        } else {
            Err("usage: up <project> [-d]".to_owned())
        },
        Verb::Down => if given {
            Ok(ReplCommand::Down { project: args[0].clone() })
        } else {
            Err("usage: down <project>".to_owned())
        },
        Verb::Logs => if given {
            let follow = text::holds(&args, "-f") || text::holds(&args, "--follow");
            Ok(ReplCommand::Logs { project: args[0].clone(), follow })
        } else {
            Err("usage: logs <project> [-f]".to_owned())
        },
        Verb::Bash => if given {
            Ok(ReplCommand::Bash { project: args[0].clone() })
        } else {
            Err("usage: bash <project>".to_owned())
        },
        Verb::Registry => Err(
            "use `neals ".to_owned().concat(cmd.as_str()).concat(
                "` from the outer shell for registry changes",
            ),
        ),
        Verb::Other => Ok(
            ReplCommand::Unknown(
                "unknown command `".to_owned().concat(cmd.as_str()).concat("` — try `help`"),
            ),
        ),
    }
}

} // verus!
