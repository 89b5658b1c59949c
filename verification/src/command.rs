//! Command resolution: classifying one command line as empty, a
//! builtin, an external executable, or unknown.

use vstd::prelude::*;

use crate::builtin::{builtin_parse_post, is_builtin, is_builtin_name, BuiltinCommand};
use crate::executable::{find_in_path, is_lookup_candidate, Executable};
use crate::strutil::{clone_strings, concat_str};

verus! {

/// Parsing a command's argument words into its value.
pub trait Parse where Self: Sized {
    /// Parses the arguments of the command named `command`.
    fn parse(command: &str, args: &Vec<String>) -> Result<Self, ParseCommandError>;
}

/// One resolved command line.
#[derive(Debug, PartialEq, Eq)]
pub enum Command {
    Empty,
    BuiltinCommand(BuiltinCommand),
    Executable(Executable),
    Unknown(UnknownCommand),
}

/// A command whose name resolved neither to a builtin nor to an
/// executable; reported at execution time, not a parse error.
#[derive(Debug, PartialEq, Eq)]
pub struct UnknownCommand {
    pub command: String,
    pub args: Vec<String>,
}

impl UnknownCommand {
    /// Packs the unresolved name and its arguments.
    pub fn new(command: String, args: Vec<String>) -> (u: Self)
        ensures
            u.command == command,
            u.args == args,
    {
        Self { command, args }
    }
}

/// The errors of parsing one command's argument list.
#[derive(Debug, PartialEq, Eq)]
pub enum ParseCommandError {
    LessArgs(String, Vec<String>, usize),
    MoreArgs(String, Vec<String>, usize),
    InvalidNumber(String, Vec<String>),
    UnknownFlag(String),
}

impl ParseCommandError {
    /// The single-line diagnostic for this error.
    pub fn message(&self) -> (r: String)
        ensures
            (self matches ParseCommandError::LessArgs(c, _, _) ==> r@ == c@
                + ": not enough arguments"@),
            (self matches ParseCommandError::MoreArgs(c, _, _) ==> r@ == c@
                + ": too many arguments"@),
            (self matches ParseCommandError::InvalidNumber(c, _) ==> r@ == c@
                + ": invalid number"@),
            (self matches ParseCommandError::UnknownFlag(f) ==> r@ == "unknown parameter: "@
                + f@),
    {
        match self {
            ParseCommandError::LessArgs(c, _, _) => concat_str(c.as_str(), ": not enough arguments"),
            ParseCommandError::MoreArgs(c, _, _) => concat_str(c.as_str(), ": too many arguments"),
            ParseCommandError::InvalidNumber(c, _) => concat_str(c.as_str(), ": invalid number"),
            ParseCommandError::UnknownFlag(f) => concat_str("unknown parameter: ", f.as_str()),
        }
    }
}

/// The diagnostic the engine prints for a command that resolved to
/// nothing; the pipeline goes on afterwards.
pub fn not_found_message(name: &str) -> (r: String)
    ensures
        r@ == name@ + ": command not found"@,
{
    concat_str(name, ": command not found")
}

/// What resolving a non-empty, non-builtin name with a given search
/// result must produce: a path makes it external, no path makes it
/// unknown.
pub open spec fn resolve_with_post(
    name: Seq<char>,
    args: Seq<String>,
    lookup: Option<String>,
    r: Command,
) -> bool {
    match lookup {
        Some(p) => match r {
            Command::Executable(e) => e.name@ == name && e.path == p && e.args@ == args,
            _ => false,
        },
        None => match r {
            Command::Unknown(u) => u.command@ == name && u.args@ == args,
            _ => false,
        },
    }
}

/// What parsing one command line must produce, for every name,
/// argument list and search outcome.
pub open spec fn command_parse_post(
    name: Seq<char>,
    args: Seq<String>,
    lookup: Option<String>,
    r: Result<Command, ParseCommandError>,
) -> bool {
    if name.len() == 0 {
        r == Ok::<Command, ParseCommandError>(Command::Empty)
    } else if is_builtin_name(name) {
        match r {
            Ok(Command::BuiltinCommand(b)) => builtin_parse_post(
                name,
                args,
                Ok::<BuiltinCommand, ParseCommandError>(b),
            ),
            Ok(_) => false,
            Err(e) => builtin_parse_post(
                name,
                args,
                Err::<BuiltinCommand, ParseCommandError>(e),
            ),
        }
    } else {
        match r {
            Ok(c) => resolve_with_post(name, args, lookup, c),
            Err(_) => false,
        }
    }
}

/// Builds the command for a non-empty, non-builtin name from the
/// outcome of the search-path lookup.
pub fn resolve_with(command: &str, args: &Vec<String>, lookup: Option<String>) -> (r: Command)
    ensures
        resolve_with_post(command@, args@, lookup, r),
{
    match lookup {
        Some(path) => Command::Executable(
            Executable::new(command.to_owned(), path, clone_strings(args)),
        ),
        None => Command::Unknown(
            UnknownCommand::new(command.to_owned(), clone_strings(args)),
        ),
    }
}

impl Command {
    /// Classifies one command line.  The empty name is the empty
    /// command; a builtin name is parsed as a builtin; anything else
    /// is looked up on the search path and becomes external or
    /// unknown.  Which of the last two happens depends on the
    /// filesystem; everything else about the result is pinned down.
    pub fn parse(command: &str, args: &Vec<String>, path_dirs: &Vec<String>) -> (r: Result<
        Command,
        ParseCommandError,
    >)
        ensures
            exists|lookup: Option<String>|
                #[trigger] command_parse_post(command@, args@, lookup, r) && (lookup matches Some(
                    p,
                ) ==> is_lookup_candidate(p@, command@, path_dirs@)),
    {
        if command.unicode_len() == 0 {
            let r = Ok(Command::Empty);
            proof {
                let lookup = None::<String>;
                assert(command_parse_post(command@, args@, lookup, r));
            }
            return r;
        }
        if is_builtin(command) {
            let r = match BuiltinCommand::parse(command, args) {
                Ok(b) => Ok(Command::BuiltinCommand(b)),
                Err(e) => Err(e),
            };
            proof {
                let lookup = None::<String>;
                assert(command_parse_post(command@, args@, lookup, r));
            }
            return r;
        }
        let lookup = find_in_path(command, path_dirs);
        let ghost lookup_g = lookup;
        let c = resolve_with(command, args, lookup);
        let r = Ok(c);
        proof {
            assert(command_parse_post(command@, args@, lookup_g, r));
        }
        r
    }
}

} // verus!
