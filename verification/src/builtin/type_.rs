//! The `type` builtin: reports, for each requested name, whether it is
//! a shell builtin, an executable on the search path, or unknown.

use vstd::prelude::*;

use crate::builtin::is_builtin_name;
use crate::command::ParseCommandError;
use crate::executable::{find_in_path, is_lookup_candidate};
use crate::strutil::{clone_strings, concat_str};

verus! {

/// The classification line for one name: builtins are reported first,
/// then the search path decides between a resolved path and
/// "not found".
pub open spec fn type_line_matches(name: Seq<char>, dirs: Seq<String>, line: Seq<char>) -> bool {
    if is_builtin_name(name) {
        line == name + " is a shell builtin"@
    } else {
        (exists|p: Seq<char>|
            is_lookup_candidate(p, name, dirs) && line == name + " is "@ + p) || line == name
            + ": not found"@
    }
}

/// The parsed `type` command: the names it was asked about, in input
/// order.
#[derive(Debug, PartialEq, Eq)]
pub struct Type {
    commands: Vec<String>,
}

impl Type {
    /// The names this command will classify.
    pub closed spec fn names(self) -> Seq<String> {
        self.commands@
    }

    /// Packs the requested names.
    pub fn new(commands: Vec<String>) -> (t: Self)
        ensures
            t.names() == commands@,
    {
        Self { commands }
    }

    /// Parses the arguments of `type`: at least one name is required.
    pub fn parse(command: &str, args: &Vec<String>) -> (r: Result<Type, ParseCommandError>)
        ensures
            (args@.len() == 0 ==> match r {
                Err(ParseCommandError::LessArgs(c, a, n)) => c@ == command@ && a@ == args@ && n
                    == 1,
                _ => false,
            }),
            (args@.len() > 0 ==> match r {
                Ok(t) => t.names() == args@,
                _ => false,
            }),
    {
        if args.len() == 0 {
            return Err(ParseCommandError::LessArgs(command.to_owned(), clone_strings(args), 1));
        }
        Ok(Type::new(clone_strings(args)))
    }

    /// One classification line per requested name, in input order.
    /// Which names resolve to an executable depends on the filesystem;
    /// every line has one of the three documented shapes for its name.
    pub fn render(&self, path_dirs: &Vec<String>) -> (lines: Vec<String>)
        ensures
            lines@.len() == self.names().len(),
            forall|i: int|
                0 <= i < lines@.len() ==> type_line_matches(
                    self.names()[i]@,
                    path_dirs@,
                    (#[trigger] lines@[i])@,
                ),
    {
        let mut lines: Vec<String> = Vec::new();
        let mut i: usize = 0;
        while i < self.commands.len()
            invariant
                i <= self.commands@.len(),
                lines@.len() == i,
                forall|j: int|
                    0 <= j < i ==> type_line_matches(
                        self.commands@[j]@,
                        path_dirs@,
                        (#[trigger] lines@[j])@,
                    ),
            decreases self.commands@.len() - i,
        {
            let name = &self.commands[i];
            let line = if crate::builtin::is_builtin(name.as_str()) {
                concat_str(name.as_str(), " is a shell builtin")
            } else {
                match find_in_path(name.as_str(), path_dirs) {
                    Some(path) => {
                        let mut l = concat_str(name.as_str(), " is ");
                        l.append(path.as_str());
                        l
                    },
                    None => concat_str(name.as_str(), ": not found"),
                }
            };
            lines.push(line);
            i = i + 1;
        }
        lines
    }
}

impl crate::command::Parse for Type {
    fn parse(command: &str, args: &Vec<String>) -> Result<Type, ParseCommandError> {
        Type::parse(command, args)
    }
}

} // verus!
