use vstd::prelude::*;
use vstd::string::is_ascii;
use vstd::utf8::is_ascii_chars;

verus! {

broadcast use vstd::string::is_ascii_spec_bytes;

/// A command of the interactive session.
#[derive(Clone, Debug)]
pub enum ReplCommand {
    /// Runs the node tool with the given arguments.
    Anvil { args: Vec<String> },
    /// Forwards the given arguments to the client tool.
    Cast { args: Vec<String> },
    /// Re-mines the accumulated transactions and writes the fixture.
    Dump,
    /// Ends the session.
    Exit,
}

/// The command names, without their arguments.
#[derive(Clone, Copy, Debug, PartialEq, Eq, Structural)]
pub enum CommandKind {
    Anvil,
    Cast,
    Dump,
    Exit,
}

/// Why a command line was not accepted.
#[derive(Clone, Copy, Debug, PartialEq, Eq, Structural)]
pub enum CommandError {
    /// A quoted word has no closing quote.
    MismatchedQuotes,
    /// The line holds no word.
    MissingCommand,
    /// The first word names no command.
    UnknownCommand,
    /// A command that takes no arguments was given some.
    UnexpectedArgument,
    /// The first word asks for help rather than naming a command.
    Help,
}

impl ReplCommand {
    pub open spec fn kind(&self) -> CommandKind {
        match self {
            ReplCommand::Anvil { .. } => CommandKind::Anvil,
            ReplCommand::Cast { .. } => CommandKind::Cast,
            ReplCommand::Dump => CommandKind::Dump,
            ReplCommand::Exit => CommandKind::Exit,
        }
    }

    /// The arguments of a passthrough command, as character sequences.
    pub open spec fn arg_words(&self) -> Seq<Seq<char>> {
        match self {
            ReplCommand::Anvil { args } => words_of(args@),
            ReplCommand::Cast { args } => words_of(args@),
            _ => Seq::empty(),
        }
    }
}

pub open spec fn words_of(s: Seq<String>) -> Seq<Seq<char>> {
    s.map_values(|w: String| w@)
}

pub open spec fn anvil_name() -> Seq<char> {
    seq!['a', 'n', 'v', 'i', 'l']
}

pub open spec fn cast_name() -> Seq<char> {
    seq!['c', 'a', 's', 't']
}

pub open spec fn dump_name() -> Seq<char> {
    seq!['d', 'u', 'm', 'p']
}

pub open spec fn exit_name() -> Seq<char> {
    seq!['e', 'x', 'i', 't']
}

pub open spec fn help_name() -> Seq<char> {
    seq!['h', 'e', 'l', 'p']
}

/// Whether `w` is a non-empty leading part of `name`: commands may be
/// shortened to any prefix, as the names start with distinct letters.
pub open spec fn abbreviates(w: Seq<char>, name: Seq<char>) -> bool {
    0 < w.len() <= name.len() && w == name.subrange(0, w.len() as int)
}

/// The command that a line split into `words` names, or why it names none.
pub open spec fn command_kind_of(words: Seq<Seq<char>>) -> Result<CommandKind, CommandError> {
    if words.len() == 0 {
        Err(CommandError::MissingCommand)
    } else if abbreviates(words[0], anvil_name()) {
        Ok(CommandKind::Anvil)
    } else if abbreviates(words[0], cast_name()) {
        Ok(CommandKind::Cast)
    } else if abbreviates(words[0], dump_name()) {
        if words.len() == 1 {
            Ok(CommandKind::Dump)
        } else {
            Err(CommandError::UnexpectedArgument)
        }
    } else if abbreviates(words[0], exit_name()) {
        if words.len() == 1 {
            Ok(CommandKind::Exit)
        } else {
            Err(CommandError::UnexpectedArgument)
        }
    } else if abbreviates(words[0], help_name()) {
        Err(CommandError::Help)
    } else {
        Err(CommandError::UnknownCommand)
    }
}

/// Whether `r` is what parsing `words` gives: the command that they name,
/// with the words after the first as its arguments, or the error.
pub open spec fn parses_as(words: Seq<Seq<char>>, r: Result<ReplCommand, CommandError>) -> bool {
    match r {
        Ok(c) => command_kind_of(words) == Ok::<CommandKind, CommandError>(c.kind()) && c.arg_words()
            == (if c.kind() == CommandKind::Anvil || c.kind() == CommandKind::Cast {
            words.drop_first()
        } else {
            Seq::empty()
        }),
        Err(e) => command_kind_of(words) == Err::<CommandKind, CommandError>(e),
    }
}

/// How the shell-word rules split a line, or `None` where a quote is left open.
pub uninterp spec fn shell_words_of(line: Seq<char>) -> Option<Seq<Seq<char>>>;

/// Relies on `shellwords::split`: splits a line into words by the Bourne
/// shell's quoting rules, failing only on mismatched quotes.
#[verifier::external_body]
fn split_words(line: &str) -> (r: Option<Vec<String>>)
    ensures
        match r {
            Some(ws) => shell_words_of(line@) == Some(words_of(ws@)),
            None => shell_words_of(line@) is None,
        },
{
    match shellwords::split(line) {
        Ok(words) => Some(words),
        Err(_) => None,
    }
}

/// Whether `w` abbreviates the ASCII command name `name`.
fn word_abbreviates(w: &String, name: &str) -> (r: bool)
    requires
        is_ascii(name),
    ensures
        r == abbreviates(w@, name@),
{
    let ws = w.as_str();
    if !ws.is_ascii() {
        proof {
            if abbreviates(w@, name@) {
                assert forall|i: int| 0 <= i < w@.len() implies '\0' <= #[trigger] w@[i] <= '\u{7f}' by {
                    assert(w@[i] == name@[i]);
                };
            }
        }
        return false;
    }
    let wb = ws.as_bytes();
    let nb = name.as_bytes();
    assert(wb@.len() == w@.len());
    assert(nb@.len() == name@.len());
    if wb.len() == 0 || wb.len() > nb.len() {
        return false;
    }
    let mut i: usize = 0;
    while i < wb.len()
        invariant
            0 < wb@.len() <= nb@.len(),
            wb@.len() == w@.len(),
            nb@.len() == name@.len(),
            is_ascii_chars(w@),
            is_ascii_chars(name@),
            wb@ == Seq::new(w@.len(), |k: int| w@[k] as u8),
            nb@ == Seq::new(name@.len(), |k: int| name@[k] as u8),
            i <= wb@.len(),
            forall|k: int| 0 <= k < i ==> w@[k] == name@[k],
        decreases wb@.len() - i,
    {
        assert(wb@[i as int] == w@[i as int] as u8);
        assert(nb@[i as int] == name@[i as int] as u8);
        if wb[i] != nb[i] {
            assert(w@[i as int] != name@[i as int]);
            return false;
        }
        assert('\0' <= w@[i as int] <= '\u{7f}');
        assert('\0' <= name@[i as int] <= '\u{7f}');
        assert(w@[i as int] == name@[i as int]);
        i = i + 1;
    }
    assert(w@ =~= name@.subrange(0, w@.len() as int));
    true
}

/// Parses a line already split into words into a command.
pub fn parse_command(words: Vec<String>) -> (r: Result<ReplCommand, CommandError>)
    ensures
        parses_as(words_of(words@), r),
{
    let ghost ws = words_of(words@);
    if words.len() == 0 {
        return Err(CommandError::MissingCommand);
    }
    proof {
        reveal_strlit("anvil");
        reveal_strlit("cast");
        reveal_strlit("dump");
        reveal_strlit("exit");
        reveal_strlit("help");
        assert("anvil"@ == anvil_name());
        assert("cast"@ == cast_name());
        assert("dump"@ == dump_name());
        assert("exit"@ == exit_name());
        assert("help"@ == help_name());
    }
    let mut args = words;
    let first = args.remove(0);
    assert(first@ == ws[0]);
    assert(words_of(args@) =~= ws.drop_first());
    if word_abbreviates(&first, "anvil") {
        Ok(ReplCommand::Anvil { args })
    } else if word_abbreviates(&first, "cast") {
        Ok(ReplCommand::Cast { args })
    } else if word_abbreviates(&first, "dump") {
        if args.len() == 0 {
            Ok(ReplCommand::Dump)
        } else {
            Err(CommandError::UnexpectedArgument)
        }
    } else if word_abbreviates(&first, "exit") {
        if args.len() == 0 {
            Ok(ReplCommand::Exit)
        } else {
            Err(CommandError::UnexpectedArgument)
        }
    } else if word_abbreviates(&first, "help") {
        Err(CommandError::Help)
    } else {
        Err(CommandError::UnknownCommand)
    }
}

/// Splits an input line by shell-word rules and parses it into a command.
pub fn receive_command(line: &str) -> (r: Result<ReplCommand, CommandError>)
    ensures
        match shell_words_of(line@) {
            Some(ws) => parses_as(ws, r),
            None => r == Err::<ReplCommand, CommandError>(CommandError::MismatchedQuotes),
        },
{
    match split_words(line) {
        Some(words) => parse_command(words),
        None => Err(CommandError::MismatchedQuotes),
    }
}

} // verus!
