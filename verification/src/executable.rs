//! Locating external executables on the search path, and the value
//! that names one once it is found.

use vstd::prelude::*;

use crate::strutil::concat_str;

verus! {

/// Relies on `is_executable::is_executable`: `true` iff a file exists
/// at the path and has the executable permission.  The answer depends
/// on the filesystem, so nothing is promised about it.
#[verifier::external_body]
fn path_is_executable(path: &String) -> bool {
    is_executable::is_executable(path.as_str())
}

/// A candidate path that `find_in_path` may return for `name`: the
/// name itself, or a search directory joined with the name.
pub open spec fn is_lookup_candidate(p: Seq<char>, name: Seq<char>, dirs: Seq<String>) -> bool {
    p == name || exists|i: int|
        0 <= i < dirs.len() && p == (#[trigger] dirs[i])@ + seq!['/'] + name
}

/// Looks for an executable: first as a path as given, then under each
/// search directory in order.  Whether a candidate wins depends on the
/// filesystem; the result, when there is one, is always one of the
/// candidate paths.
pub fn find_in_path(executable: &str, path_dirs: &Vec<String>) -> (r: Option<String>)
    ensures
        (r matches Some(p) ==> is_lookup_candidate(p@, executable@, path_dirs@)),
{
    let direct = executable.to_owned();
    if path_is_executable(&direct) {
        return Some(direct);
    }
    let mut i: usize = 0;
    while i < path_dirs.len()
        invariant
            i <= path_dirs@.len(),
        decreases path_dirs@.len() - i,
    {
        let mut candidate = concat_str(path_dirs[i].as_str(), "/");
        candidate.append(executable);
        if path_is_executable(&candidate) {
            proof {
                assert(candidate@ == path_dirs@[i as int]@ + seq!['/'] + executable@) by {
                    assert("/"@ =~= seq!['/']) by {
                        reveal_strlit("/");
                    }
                }
            }
            return Some(candidate);
        }
        i = i + 1;
    }
    None
}

/// An external command: its name, the path it resolved to, and its
/// arguments.
#[derive(Debug, PartialEq, Eq)]
pub struct Executable {
    pub name: String,
    pub path: String,
    pub args: Vec<String>,
}

impl Executable {
    /// Packs the three parts of an external command.
    pub fn new(name: String, path: String, args: Vec<String>) -> (e: Self)
        ensures
            e.name == name,
            e.path == path,
            e.args == args,
    {
        Self { name, path, args }
    }

    /// Resolves `command` on the search path; an unresolvable name is
    /// an error.
    pub fn parse(command: &str, args: &Vec<String>, path_dirs: &Vec<String>) -> (r: Result<
        Executable,
        String,
    >)
        ensures
            (r matches Ok(e) ==> e.name@ == command@ && e.args@ == args@ && is_lookup_candidate(
                e.path@,
                command@,
                path_dirs@,
            )),
            (r matches Err(m) ==> m@ == "Cannot find executable"@),
    {
        if let Some(exec_path) = find_in_path(command, path_dirs) {
            Ok(Executable::new(command.to_owned(), exec_path, crate::strutil::clone_strings(args)))
        } else {
            Err(String::from_str("Cannot find executable"))
        }
    }
}

} // verus!
